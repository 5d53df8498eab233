//! Character-level text handling shared by the rest of the library: conversion
//! between strings and character vectors, whitespace trimming, line splitting,
//! substring replacement, joining and decimal formatting.
use vstd::prelude::*;

verus! {

broadcast use vstd::string::group_string_axioms;

// ---------------------------------------------------------------------------
// Conversions between `str`/`String` and `Vec<char>`
// ---------------------------------------------------------------------------

/// The characters of `s`, in order.
pub fn chars_of(s: &str) -> (out: Vec<char>)
    ensures
        out@ == s@,
{
    let mut out: Vec<char> = Vec::new();
    for c in it: s.chars()
        invariant
            out@ == it.seq().take(it.index() as int),
    {
        out.push(c);
    }
    out
}

/// Calls `String::push`: the string grows by the one character `c` at its end.
#[verifier::external_body]
pub(crate) fn push_char(s: &mut String, c: char)
    ensures
        final(s)@ == old(s)@.push(c),
{
    s.push(c);
}

/// Appends the characters of `tail` to `s`.
pub fn push_chars(s: &mut String, tail: &Vec<char>)
    ensures
        final(s)@ == old(s)@ + tail@,
{
    let ghost start = s@;
    let mut i: usize = 0;
    while i < tail.len()
        invariant
            i <= tail.len(),
            s@ == start + tail@.take(i as int),
        decreases tail.len() - i,
    {
        push_char(s, tail[i]);
        i = i + 1;
        assert(tail@.take(i as int) =~= tail@.take((i - 1) as int).push(tail@[i - 1]));
    }
    assert(tail@.take(i as int) =~= tail@);
}

/// A new string holding exactly the characters of `v`.
pub fn string_of(v: &Vec<char>) -> (s: String)
    ensures
        s@ == v@,
{
    let mut s = String::new();
    push_chars(&mut s, v);
    assert(Seq::<char>::empty() + v@ =~= v@);
    s
}

/// Appends the characters of `tail` to `s`.
pub fn push_str(s: &mut String, tail: &str)
    ensures
        final(s)@ == old(s)@ + tail@,
{
    let v = chars_of(tail);
    push_chars(s, &v);
}

/// Whether two character sequences are equal.
pub fn chars_eq(a: &Vec<char>, b: &Vec<char>) -> (r: bool)
    ensures
        r == (a@ == b@),
{
    if a.len() != b.len() {
        return false;
    }
    let mut i: usize = 0;
    while i < a.len()
        invariant
            a.len() == b.len(),
            i <= a.len(),
            forall|j: int| 0 <= j < i ==> a@[j] == b@[j],
        decreases a.len() - i,
    {
        if a[i] != b[i] {
            return false;
        }
        i = i + 1;
    }
    assert(a@ =~= b@);
    true
}

// ---------------------------------------------------------------------------
// Whitespace
// ---------------------------------------------------------------------------

/// The characters with the Unicode `White_Space` property, which is what
/// `char::is_whitespace` and `str::trim_end` go by.
pub open spec fn is_white_space(c: char) -> bool {
    let u = c as u32;
    ||| 0x9 <= u <= 0xd
    ||| u == 0x20
    ||| u == 0x85
    ||| u == 0xa0
    ||| u == 0x1680
    ||| 0x2000 <= u <= 0x200a
    ||| u == 0x2028
    ||| u == 0x2029
    ||| u == 0x202f
    ||| u == 0x205f
    ||| u == 0x3000
}

/// Whether `c` has the Unicode `White_Space` property.
pub fn white_space(c: char) -> (r: bool)
    ensures
        r == is_white_space(c),
{
    let u = c as u32;
    (0x9 <= u && u <= 0xd) || u == 0x20 || u == 0x85 || u == 0xa0 || u == 0x1680 || (0x2000 <= u
        && u <= 0x200a) || u == 0x2028 || u == 0x2029 || u == 0x202f || u == 0x205f || u == 0x3000
}

/// `s` without its trailing whitespace.
pub open spec fn trimmed_end(s: Seq<char>) -> Seq<char>
    decreases s.len(),
{
    if s.len() > 0 && is_white_space(s.last()) {
        trimmed_end(s.drop_last())
    } else {
        s
    }
}

/// `trimmed_end(s)` is a prefix of `s` that does not end in whitespace, and all
/// that was cut off is whitespace.
pub proof fn lemma_trimmed_end(s: Seq<char>)
    ensures
        trimmed_end(s).len() <= s.len(),
        trimmed_end(s) =~= s.take(trimmed_end(s).len() as int),
        trimmed_end(s).len() > 0 ==> !is_white_space(trimmed_end(s).last()),
        forall|i: int| trimmed_end(s).len() <= i < s.len() ==> is_white_space(#[trigger] s[i]),
    decreases s.len(),
{
    if s.len() > 0 && is_white_space(s.last()) {
        lemma_trimmed_end(s.drop_last());
        assert forall|i: int| trimmed_end(s).len() <= i < s.len() implies is_white_space(
            #[trigger] s[i],
        ) by {
            if i < s.len() - 1 {
                assert(s[i] == s.drop_last()[i]);
            }
        }
    }
}

/// The characters of `v` without the trailing whitespace.
pub fn trim_end(v: &Vec<char>) -> (out: Vec<char>)
    ensures
        out@ == trimmed_end(v@),
{
    let mut k: usize = v.len();
    assert(v@.take(k as int) =~= v@);
    while k > 0 && white_space(v[k - 1])
        invariant
            k <= v.len(),
            trimmed_end(v@.take(k as int)) == trimmed_end(v@),
        decreases k,
    {
        assert(v@.take(k as int).drop_last() =~= v@.take((k - 1) as int));
        k = k - 1;
    }
    assert(trimmed_end(v@.take(k as int)) == v@.take(k as int));
    let mut out: Vec<char> = Vec::new();
    let mut i: usize = 0;
    while i < k
        invariant
            k <= v.len(),
            i <= k,
            out@ =~= v@.take(i as int),
        decreases k - i,
    {
        out.push(v[i]);
        i = i + 1;
    }
    out
}

// ---------------------------------------------------------------------------
// Lines
// ---------------------------------------------------------------------------

/// `line` without one trailing carriage return.
pub open spec fn strip_cr(line: Seq<char>) -> Seq<char> {
    if line.len() > 0 && line.last() == '\r' {
        line.drop_last()
    } else {
        line
    }
}

/// The lines of `s` after the partial line `cur`, as `str::lines` yields them:
/// a line ends at `'\n'` (a `'\r'` just before it is dropped), and the text
/// after the last `'\n'` is a line when it is not empty.
pub open spec fn lines_after(cur: Seq<char>, s: Seq<char>) -> Seq<Seq<char>>
    decreases s.len(),
{
    if s.len() == 0 {
        if cur.len() > 0 {
            seq![cur]
        } else {
            seq![]
        }
    } else if s[0] == '\n' {
        seq![strip_cr(cur)] + lines_after(seq![], s.drop_first())
    } else {
        lines_after(cur.push(s[0]), s.drop_first())
    }
}

/// The lines of `s`, as `str::lines` yields them.
pub open spec fn lines(s: Seq<char>) -> Seq<Seq<char>> {
    lines_after(seq![], s)
}

/// Splits `v` into its lines, as `str::lines` does.
pub fn split_lines(v: &Vec<char>) -> (out: Vec<Vec<char>>)
    ensures
        out@.map_values(|l: Vec<char>| l@) =~= lines(v@),
{
    let mut out: Vec<Vec<char>> = Vec::new();
    let mut cur: Vec<char> = Vec::new();
    let mut i: usize = 0;
    assert(v@.skip(0) =~= v@);
    assert(out@.map_values(|l: Vec<char>| l@) =~= Seq::<Seq<char>>::empty());
    assert(cur@ =~= Seq::<char>::empty());
    while i < v.len()
        invariant
            i <= v.len(),
            out@.map_values(|l: Vec<char>| l@) + lines_after(cur@, v@.skip(i as int)) =~= lines(
                v@,
            ),
        decreases v.len() - i,
    {
        let ghost before = out@.map_values(|l: Vec<char>| l@);
        assert(v@.skip(i as int).drop_first() =~= v@.skip(i + 1));
        if v[i] == '\n' {
            let ghost pending = cur@;
            let mut line = cur;
            if line.len() > 0 && line[line.len() - 1] == '\r' {
                line.pop();
            }
            assert(line@ =~= strip_cr(pending));
            let ghost done = line@;
            out.push(line);
            cur = Vec::new();
            assert(out@.map_values(|l: Vec<char>| l@) =~= before + seq![done]);
        } else {
            cur.push(v[i]);
        }
        i = i + 1;
    }
    assert(v@.skip(i as int) =~= Seq::<char>::empty());
    if cur.len() > 0 {
        let ghost before = out@.map_values(|l: Vec<char>| l@);
        out.push(cur);
        assert(out@.map_values(|l: Vec<char>| l@) =~= before + lines_after(cur@, seq![]));
    } else {
        assert(out@.map_values(|l: Vec<char>| l@) =~= out@.map_values(|l: Vec<char>| l@)
            + lines_after(cur@, seq![]));
    }
    out
}


// ---------------------------------------------------------------------------
// Searching
// ---------------------------------------------------------------------------

/// The position of the first `c` in `s`, if `s` holds one.
pub open spec fn first_pos(s: Seq<char>, c: char) -> Option<int>
    decreases s.len(),
{
    if s.len() == 0 {
        None
    } else if s[0] == c {
        Some(0)
    } else {
        match first_pos(s.drop_first(), c) {
            Some(i) => Some(i + 1),
            None => None,
        }
    }
}

/// `first_pos` finds the first occurrence, and only a missing character gives `None`.
pub proof fn lemma_first_pos(s: Seq<char>, c: char)
    ensures
        first_pos(s, c) matches Some(i) ==> {
            &&& 0 <= i < s.len()
            &&& s[i] == c
            &&& forall|j: int| 0 <= j < i ==> s[j] != c
        },
        first_pos(s, c) is None ==> forall|j: int| 0 <= j < s.len() ==> s[j] != c,
    decreases s.len(),
{
    if s.len() > 0 && s[0] != c {
        lemma_first_pos(s.drop_first(), c);
        assert forall|j: int| 1 <= j < s.len() implies s[j] == s.drop_first()[j - 1] by {}
        if let Some(i) = first_pos(s, c) {
            assert forall|j: int| 0 <= j < i implies s[j] != c by {
                if j > 0 {
                    assert(s[j] == s.drop_first()[j - 1]);
                }
            }
        } else {
            assert forall|j: int| 0 <= j < s.len() implies s[j] != c by {
                if j > 0 {
                    assert(s[j] == s.drop_first()[j - 1]);
                }
            }
        }
    }
}

/// The first occurrence of `c` in `s` is at `i` when `s[i] == c` and no
/// earlier character is `c`; none at all when no character is `c`.
pub proof fn lemma_first_pos_from(s: Seq<char>, c: char, i: int)
    requires
        0 <= i <= s.len(),
        forall|j: int| 0 <= j < i ==> s[j] != c,
    ensures
        i < s.len() && s[i] == c ==> first_pos(s, c) == Some(i),
        i == s.len() ==> first_pos(s, c) is None,
    decreases i,
{
    if i > 0 {
        assert forall|j: int| 0 <= j < i - 1 implies s.drop_first()[j] != c by {
            assert(s.drop_first()[j] == s[j + 1]);
        }
        lemma_first_pos_from(s.drop_first(), c, i - 1);
        if i < s.len() && s[i] == c {
            assert(s.drop_first()[i - 1] == s[i]);
        }
    }
}

/// The position of the first `c` in `v`, if any.
pub fn find_char(v: &Vec<char>, c: char) -> (r: Option<usize>)
    ensures
        r matches Some(i) ==> first_pos(v@, c) == Some(i as int),
        r is None ==> first_pos(v@, c) is None,
{
    let mut i: usize = 0;
    while i < v.len()
        invariant
            i <= v.len(),
            forall|j: int| 0 <= j < i ==> v@[j] != c,
        decreases v.len() - i,
    {
        if v[i] == c {
            proof {
                lemma_first_pos_from(v@, c, i as int);
            }
            return Some(i);
        }
        i = i + 1;
    }
    proof {
        lemma_first_pos_from(v@, c, i as int);
    }
    None
}

/// The characters of `v` from `start` up to `end`.
pub fn slice_chars(v: &Vec<char>, start: usize, end: usize) -> (out: Vec<char>)
    requires
        start <= end <= v.len(),
    ensures
        out@ == v@.subrange(start as int, end as int),
{
    let mut out: Vec<char> = Vec::new();
    let mut i: usize = start;
    while i < end
        invariant
            start <= i <= end <= v.len(),
            out@ =~= v@.subrange(start as int, i as int),
        decreases end - i,
    {
        out.push(v[i]);
        i = i + 1;
    }
    out
}

// ---------------------------------------------------------------------------
// Replacement
// ---------------------------------------------------------------------------

/// `s` with every occurrence of `from` replaced by `to`, the occurrences taken
/// from left to right without overlap, as `str::replace` does for a pattern
/// that is not empty.
pub open spec fn replaced(s: Seq<char>, from: Seq<char>, to: Seq<char>) -> Seq<char>
    decreases s.len(),
{
    if s.len() == 0 || from.len() == 0 {
        s
    } else if from.is_prefix_of(s) {
        to + replaced(s.skip(from.len() as int), from, to)
    } else {
        seq![s[0]] + replaced(s.drop_first(), from, to)
    }
}

/// Whether `from` occurs in `v` at position `i`.
fn occurs_at(v: &Vec<char>, i: usize, from: &Vec<char>) -> (r: bool)
    requires
        i <= v.len(),
    ensures
        r == from@.is_prefix_of(v@.skip(i as int)),
{
    if from.len() > v.len() - i {
        return false;
    }
    let mut j: usize = 0;
    while j < from.len()
        invariant
            i + from.len() <= v.len(),
            j <= from.len(),
            forall|k: int| 0 <= k < j ==> from@[k] == v@[i + k],
        decreases from.len() - j,
    {
        if from[j] != v[i + j] {
            assert(from@[j as int] != v@.skip(i as int).subrange(0, from.len() as int)[j as int]);
            return false;
        }
        j = j + 1;
    }
    assert(from@ =~= v@.skip(i as int).subrange(0, from.len() as int));
    true
}

/// `v` with every occurrence of `from` replaced by `to`, as `str::replace` does.
pub fn replace_all(v: &Vec<char>, from: &Vec<char>, to: &Vec<char>) -> (out: Vec<char>)
    requires
        from.len() > 0,
    ensures
        out@ == replaced(v@, from@, to@),
{
    let mut out: Vec<char> = Vec::new();
    let mut i: usize = 0;
    assert(v@.skip(0) =~= v@);
    while i < v.len()
        invariant
            from.len() > 0,
            i <= v.len(),
            out@ + replaced(v@.skip(i as int), from@, to@) =~= replaced(v@, from@, to@),
        decreases v.len() - i,
    {
        let ghost rest = v@.skip(i as int);
        if occurs_at(v, i, from) {
            let mut j: usize = 0;
            let ghost before = out@;
            while j < to.len()
                invariant
                    j <= to.len(),
                    out@ =~= before + to@.take(j as int),
                decreases to.len() - j,
            {
                out.push(to[j]);
                j = j + 1;
            }
            assert(to@.take(j as int) =~= to@);
            assert(rest.skip(from.len() as int) =~= v@.skip(i + from.len()));
            i = i + from.len();
        } else {
            assert(rest.drop_first() =~= v@.skip(i + 1));
            assert(seq![rest[0]] =~= seq![v@[i as int]]);
            out.push(v[i]);
            i = i + 1;
        }
    }
    assert(v@.skip(i as int) =~= Seq::<char>::empty());
    assert(out@ + Seq::<char>::empty() =~= out@);
    out
}

// ---------------------------------------------------------------------------
// Joining, case, numbers
// ---------------------------------------------------------------------------

/// The pieces of `parts` with `sep` between each two, as `[S]::join` gives.
pub open spec fn joined(parts: Seq<Seq<char>>, sep: Seq<char>) -> Seq<char>
    decreases parts.len(),
{
    if parts.len() == 0 {
        seq![]
    } else if parts.len() == 1 {
        parts[0]
    } else {
        joined(parts.drop_last(), sep) + sep + parts.last()
    }
}

/// The strings of `parts` with `sep` between each two.
pub fn join_strings(parts: &Vec<String>, sep: &str) -> (out: String)
    ensures
        out@ == joined(parts@.map_values(|p: String| p@), sep@),
{
    let ghost views = parts@.map_values(|p: String| p@);
    let mut out = String::new();
    let mut i: usize = 0;
    assert(views.take(0) =~= Seq::<Seq<char>>::empty());
    while i < parts.len()
        invariant
            i <= parts.len(),
            views == parts@.map_values(|p: String| p@),
            out@ =~= joined(views.take(i as int), sep@),
        decreases parts.len() - i,
    {
        assert(views.take(i + 1).drop_last() =~= views.take(i as int));
        assert(views.take(i + 1).last() == parts@[i as int]@);
        if i > 0 {
            push_str(&mut out, sep);
        } else {
            assert(views.take(1) =~= seq![parts@[0]@]);
            assert(out@ + parts@[0]@ =~= parts@[0]@);
        }
        push_str(&mut out, parts[i].as_str());
        i = i + 1;
    }
    assert(views.take(i as int) =~= views);
    out
}

/// `c` with an ASCII upper-case letter turned into its lower-case form.
pub open spec fn ascii_lower(c: char) -> char {
    if 'A' <= c <= 'Z' {
        ((c as u32) + 32) as char
    } else {
        c
    }
}

/// `v` with its ASCII letters in lower case, as `str::to_ascii_lowercase` gives.
pub fn to_ascii_lower(v: &Vec<char>) -> (out: Vec<char>)
    ensures
        out@ == v@.map_values(|c: char| ascii_lower(c)),
{
    let mut out: Vec<char> = Vec::new();
    let mut i: usize = 0;
    while i < v.len()
        invariant
            i <= v.len(),
            out@ =~= v@.take(i as int).map_values(|c: char| ascii_lower(c)),
        decreases v.len() - i,
    {
        let c = v[i];
        let d = if 'A' <= c && c <= 'Z' {
            let u: u32 = (c as u32) + 32;
            char_from(u)
        } else {
            c
        };
        out.push(d);
        i = i + 1;
    }
    assert(v@.take(i as int) =~= v@);
    out
}

/// The character with code point `u`, for a lower-case ASCII letter.
fn char_from(u: u32) -> (c: char)
    requires
        0x61 <= u <= 0x7a,
    ensures
        c == u as char,
{
    let b: u8 = u as u8;
    b as char
}

/// The decimal digit for `d`.
pub open spec fn digit(d: nat) -> char {
    ((d % 10) + 48) as char
}

/// The decimal digits of `n`, most significant first, with no leading zeros.
pub open spec fn digits(n: nat) -> Seq<char>
    decreases n,
{
    if n < 10 {
        seq![digit(n)]
    } else {
        digits(n / 10).push(digit(n % 10))
    }
}

/// `i` written in decimal, with a leading `-` when it is negative, as
/// `i64::to_string` writes it.
pub open spec fn decimal(i: int) -> Seq<char> {
    if i < 0 {
        seq!['-'] + digits((-i) as nat)
    } else {
        digits(i as nat)
    }
}

/// `i` written in decimal.
pub fn decimal_string(i: i64) -> (s: String)
    ensures
        s@ == decimal(i as int),
{
    let wide: i128 = i as i128;
    let mag: u64 = if wide < 0 { (-wide) as u64 } else { wide as u64 };
    let mut q: u64 = mag;
    // digits from least to most significant
    let mut rev: Vec<char> = Vec::new();
    let ghost mut tail: Seq<char> = seq![];
    while q >= 10
        invariant
            digits(mag as nat) =~= digits(q as nat) + tail,
            rev@.len() == tail.len(),
            forall|k: int| 0 <= k < tail.len() ==> rev@[k] == tail[tail.len() - 1 - k],
        decreases q,
    {
        let d: u64 = q % 10;
        let c = digit_char(d);
        proof {
            tail = seq![c] + tail;
        }
        rev.push(c);
        q = q / 10;
    }
    let c = digit_char(q);
    rev.push(c);
    proof {
        tail = seq![c] + tail;
    }
    assert(digits(mag as nat) =~= tail);
    let mut s = String::new();
    if i < 0 {
        push_char(&mut s, '-');
    }
    let ghost start = s@;
    let mut k: usize = rev.len();
    while k > 0
        invariant
            k <= rev@.len(),
            rev@.len() == tail.len(),
            forall|m: int| 0 <= m < tail.len() ==> rev@[m] == tail[tail.len() - 1 - m],
            s@ =~= start + tail.take(tail.len() - k),
        decreases k,
    {
        k = k - 1;
        push_char(&mut s, rev[k]);
        assert(tail.take(tail.len() - k) =~= tail.take(tail.len() - k - 1).push(
            tail[tail.len() - k - 1],
        ));
    }
    assert(tail.take(tail.len() as int) =~= tail);
    if i < 0 {
        assert(start =~= seq!['-']);
    } else {
        assert(start =~= Seq::<char>::empty());
    }
    s
}

/// The character for the decimal digit `d`.
fn digit_char(d: u64) -> (c: char)
    requires
        d < 10,
    ensures
        c == digit(d as nat),
{
    let b: u8 = (d as u8) + 48;
    b as char
}

/// Different numbers are written differently.
pub proof fn lemma_digits_injective(a: nat, b: nat)
    requires
        digits(a) == digits(b),
    ensures
        a == b,
    decreases a + b,
{
    lemma_digits_shape(a);
    lemma_digits_shape(b);
    if a >= 10 && b >= 10 {
        assert(digits(a).drop_last() =~= digits(a / 10));
        assert(digits(b).drop_last() =~= digits(b / 10));
        lemma_digits_injective(a / 10, b / 10);
        assert(digits(a).last() == digit(a % 10));
        assert(digits(b).last() == digit(b % 10));
        lemma_digit_injective(a % 10, b % 10);
    } else if a < 10 && b < 10 {
        assert(digits(a)[0] == digit(a));
        assert(digits(b)[0] == digit(b));
        lemma_digit_injective(a, b);
    }
}

/// Different digits are different characters.
proof fn lemma_digit_injective(x: nat, y: nat)
    requires
        x < 10,
        y < 10,
        digit(x) == digit(y),
    ensures
        x == y,
{
    assert(digit(x) as u32 == x + 48);
    assert(digit(y) as u32 == y + 48);
}

/// `digits(n)` is one character exactly when `n < 10`, and every character of it
/// is an ASCII digit.
pub proof fn lemma_digits_shape(n: nat)
    ensures
        digits(n).len() >= 1,
        digits(n).len() == 1 <==> n < 10,
        forall|k: int| 0 <= k < digits(n).len() ==> '0' <= #[trigger] digits(n)[k] <= '9',
    decreases n,
{
    if n >= 10 {
        lemma_digits_shape(n / 10);
    }
}

/// Different numbers are written differently in decimal.
pub proof fn lemma_decimal_injective(a: int, b: int)
    requires
        decimal(a) == decimal(b),
    ensures
        a == b,
{
    if a < 0 && b < 0 {
        assert(decimal(a).drop_first() =~= digits((-a) as nat));
        assert(decimal(b).drop_first() =~= digits((-b) as nat));
        lemma_digits_injective((-a) as nat, (-b) as nat);
    } else if a >= 0 && b >= 0 {
        lemma_digits_injective(a as nat, b as nat);
    } else if a < 0 {
        lemma_digits_shape(b as nat);
        assert(decimal(a)[0] == '-');
        assert('0' <= digits(b as nat)[0] <= '9');
    } else {
        lemma_digits_shape(a as nat);
        assert(decimal(b)[0] == '-');
        assert('0' <= digits(a as nat)[0] <= '9');
    }
}

} // verus!
