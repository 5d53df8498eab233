//! Turning a song or artist name into a name that a file system accepts.
use vstd::prelude::*;

use crate::text::{chars_of, replace_all, replaced, string_of};

verus! {

/// The replacements that make a name usable as a file name, applied in this
/// order: characters that file systems reserve become their full-width forms,
/// `?` and `*` are dropped, and `...` becomes a space.
pub open spec fn name_rules() -> Seq<(Seq<char>, Seq<char>)> {
    seq![
        (seq!['<'], seq!['\u{ff1c}']),
        (seq!['>'], seq!['\u{ff1e}']),
        (seq!['\\'], seq!['\u{ff3c}']),
        (seq!['/'], seq!['\u{ff0f}']),
        (seq![':'], seq!['\u{ff1a}']),
        (seq!['?'], seq![]),
        (seq!['*'], seq!['\u{ff0a}']),
        (seq!['"'], seq!['\u{ff02}']),
        (seq!['|'], seq!['\u{ff5c}']),
        (seq!['*'], seq![]),
        (seq!['.', '.', '.'], seq![' ']),
        (seq!['?'], seq![]),
    ]
}

/// `s` after the first `k` rules of `name_rules`.
pub open spec fn after_rules(s: Seq<char>, k: nat) -> Seq<char>
    decreases k,
{
    if k == 0 {
        s
    } else {
        let rule = name_rules()[k - 1];
        replaced(after_rules(s, (k - 1) as nat), rule.0, rule.1)
    }
}

/// `s` made usable as a file name: all of `name_rules` applied in order.
pub open spec fn sanitized(s: Seq<char>) -> Seq<char> {
    after_rules(s, 12)
}

/// The characters that file systems reserve in names.
pub open spec fn is_reserved(c: char) -> bool {
    ||| c == '<'
    ||| c == '>'
    ||| c == '\\'
    ||| c == '/'
    ||| c == ':'
    ||| c == '?'
    ||| c == '*'
    ||| c == '"'
    ||| c == '|'
}

/// Whether `p` occurs in `s` at position `i`.
pub open spec fn occurs_at(p: Seq<char>, s: Seq<char>, i: int) -> bool {
    0 <= i && i + p.len() <= s.len() && s.subrange(i, i + p.len()) == p
}

/// Whether `p` occurs anywhere in `s`.
pub open spec fn occurs(p: Seq<char>, s: Seq<char>) -> bool {
    exists|i: int| #[trigger] occurs_at(p, s, i)
}

/// A name that needs no change: no reserved character and no `...`.
pub open spec fn is_clean_name(s: Seq<char>) -> bool {
    &&& forall|i: int| 0 <= i < s.len() ==> !is_reserved(#[trigger] s[i])
    &&& !occurs(seq!['.', '.', '.'], s)
}

/// `s` made usable as a file name: the characters `< > \ / : " |` become their
/// full-width forms, `*` becomes the full-width star, `?` is dropped, and every
/// `...` becomes a space.
pub fn sy_re(s: String) -> (out: String)
    ensures
        out@ == sanitized(s@),
{
    let rules: Vec<(Vec<char>, Vec<char>)> = vec![
        (vec!['<'], vec!['\u{ff1c}']),
        (vec!['>'], vec!['\u{ff1e}']),
        (vec!['\\'], vec!['\u{ff3c}']),
        (vec!['/'], vec!['\u{ff0f}']),
        (vec![':'], vec!['\u{ff1a}']),
        (vec!['?'], vec![]),
        (vec!['*'], vec!['\u{ff0a}']),
        (vec!['"'], vec!['\u{ff02}']),
        (vec!['|'], vec!['\u{ff5c}']),
        (vec!['*'], vec![]),
        (vec!['.', '.', '.'], vec![' ']),
        (vec!['?'], vec![]),
    ];
    assert(rules@.len() == 12);
    assert forall|k: int| 0 <= k < 12 implies #[trigger] rules@[k].0@ == name_rules()[k].0
        && rules@[k].1@ == name_rules()[k].1 by {
        assert(rules@[0].0@ =~= name_rules()[0].0 && rules@[0].1@ =~= name_rules()[0].1);
        assert(rules@[1].0@ =~= name_rules()[1].0 && rules@[1].1@ =~= name_rules()[1].1);
        assert(rules@[2].0@ =~= name_rules()[2].0 && rules@[2].1@ =~= name_rules()[2].1);
        assert(rules@[3].0@ =~= name_rules()[3].0 && rules@[3].1@ =~= name_rules()[3].1);
        assert(rules@[4].0@ =~= name_rules()[4].0 && rules@[4].1@ =~= name_rules()[4].1);
        assert(rules@[5].0@ =~= name_rules()[5].0 && rules@[5].1@ =~= name_rules()[5].1);
        assert(rules@[6].0@ =~= name_rules()[6].0 && rules@[6].1@ =~= name_rules()[6].1);
        assert(rules@[7].0@ =~= name_rules()[7].0 && rules@[7].1@ =~= name_rules()[7].1);
        assert(rules@[8].0@ =~= name_rules()[8].0 && rules@[8].1@ =~= name_rules()[8].1);
        assert(rules@[9].0@ =~= name_rules()[9].0 && rules@[9].1@ =~= name_rules()[9].1);
        assert(rules@[10].0@ =~= name_rules()[10].0 && rules@[10].1@ =~= name_rules()[10].1);
        assert(rules@[11].0@ =~= name_rules()[11].0 && rules@[11].1@ =~= name_rules()[11].1);
    }
    let mut acc: Vec<char> = chars_of(s.as_str());
    let mut k: usize = 0;
    while k < rules.len()
        invariant
            rules@.len() == 12,
            k <= 12,
            forall|j: int| 0 <= j < 12 ==> #[trigger] rules@[j].0@ == name_rules()[j].0
                && rules@[j].1@ == name_rules()[j].1,
            acc@ == after_rules(s@, k as nat),
        decreases 12 - k,
    {
        assert(rules@[k as int].0@ == name_rules()[k as int].0);
        assert(rules@[k as int].0@.len() > 0);
        acc = replace_all(&acc, &rules[k].0, &rules[k].1);
        k = k + 1;
    }
    string_of(&acc)
}

// ---------------------------------------------------------------------------
// Facts about `replaced`
// ---------------------------------------------------------------------------

/// Replacing never brings in a character that neither the text nor the
/// replacement holds.
pub proof fn lemma_replaced_keeps_absent(s: Seq<char>, from: Seq<char>, to: Seq<char>, c: char)
    requires
        from.len() > 0,
        !s.contains(c),
        !to.contains(c),
    ensures
        !replaced(s, from, to).contains(c),
    decreases s.len(),
{
    if s.len() > 0 {
        if from.is_prefix_of(s) {
            let rest = s.skip(from.len() as int);
            assert forall|i: int| 0 <= i < rest.len() implies rest[i] != c by {
                assert(rest[i] == s[i + from.len()]);
            }
            lemma_replaced_keeps_absent(rest, from, to, c);
            let out = replaced(s, from, to);
            let tail = replaced(rest, from, to);
            assert forall|i: int| 0 <= i < out.len() implies out[i] != c by {
                if i < to.len() {
                    assert(out[i] == to[i]);
                } else {
                    assert(out[i] == tail[i - to.len()]);
                }
            }
        } else {
            let rest = s.drop_first();
            assert forall|i: int| 0 <= i < rest.len() implies rest[i] != c by {
                assert(rest[i] == s[i + 1]);
            }
            lemma_replaced_keeps_absent(rest, from, to, c);
            let out = replaced(s, from, to);
            let tail = replaced(rest, from, to);
            assert forall|i: int| 0 <= i < out.len() implies out[i] != c by {
                if i > 0 {
                    assert(out[i] == tail[i - 1]);
                }
            }
        }
    }
}

/// Replacing a character by text that does not hold it leaves none of it.
pub proof fn lemma_replaced_removes(s: Seq<char>, c: char, to: Seq<char>)
    requires
        !to.contains(c),
    ensures
        !replaced(s, seq![c], to).contains(c),
    decreases s.len(),
{
    if s.len() > 0 {
        let from = seq![c];
        let out = replaced(s, from, to);
        if from.is_prefix_of(s) {
            let rest = s.skip(1);
            lemma_replaced_removes(rest, c, to);
            let tail = replaced(rest, from, to);
            assert forall|i: int| 0 <= i < out.len() implies out[i] != c by {
                if i < to.len() {
                    assert(out[i] == to[i]);
                } else {
                    assert(out[i] == tail[i - to.len()]);
                }
            }
        } else {
            assert(s[0] != c) by {
                if s[0] == c {
                    assert(from =~= s.subrange(0, 1));
                }
            }
            let rest = s.drop_first();
            lemma_replaced_removes(rest, c, to);
            let tail = replaced(rest, from, to);
            assert forall|i: int| 0 <= i < out.len() implies out[i] != c by {
                if i > 0 {
                    assert(out[i] == tail[i - 1]);
                }
            }
        }
    }
}

/// Text in which the pattern does not occur is left as it is.
pub proof fn lemma_replaced_identity(s: Seq<char>, from: Seq<char>, to: Seq<char>)
    requires
        from.len() > 0,
        !occurs(from, s),
    ensures
        replaced(s, from, to) == s,
    decreases s.len(),
{
    if s.len() > 0 {
        assert(!from.is_prefix_of(s)) by {
            if from.is_prefix_of(s) {
                assert(occurs_at(from, s, 0));
            }
        }
        let rest = s.drop_first();
        assert(!occurs(from, rest)) by {
            if occurs(from, rest) {
                let i = choose|i: int| #[trigger] occurs_at(from, rest, i);
                assert(s.subrange(i + 1, i + 1 + from.len()) =~= rest.subrange(i, i + from.len()));
                assert(occurs_at(from, s, i + 1));
            }
        }
        lemma_replaced_identity(rest, from, to);
        assert(seq![s[0]] + rest =~= s);
    }
}

/// A single character occurs in `s` exactly when `s` contains it.
pub proof fn lemma_occurs_char(c: char, s: Seq<char>)
    ensures
        occurs(seq![c], s) <==> s.contains(c),
{
    if occurs(seq![c], s) {
        let i = choose|i: int| #[trigger] occurs_at(seq![c], s, i);
        assert(s.subrange(i, i + 1)[0] == s[i]);
    }
    if s.contains(c) {
        let i = choose|i: int| 0 <= i < s.len() && s[i] == c;
        assert(s.subrange(i, i + 1) =~= seq![c]);
        assert(occurs_at(seq![c], s, i));
    }
}

/// When the replacement does not start with `c` and is not empty, an output
/// that starts with `k` copies of `c` comes from an input that starts with
/// them too.
proof fn lemma_replaced_run_prefix(t: Seq<char>, from: Seq<char>, to: Seq<char>, c: char, k: int)
    requires
        from.len() > 0,
        to.len() > 0,
        !to.contains(c),
        0 <= k <= replaced(t, from, to).len(),
        forall|j: int| 0 <= j < k ==> #[trigger] replaced(t, from, to)[j] == c,
    ensures
        k <= t.len(),
        forall|j: int| 0 <= j < k ==> #[trigger] t[j] == c,
    decreases k,
{
    if k > 0 {
        let out = replaced(t, from, to);
        assert(t.len() > 0);
        if from.is_prefix_of(t) {
            assert(out[0] == to[0]);
            assert(false);
        } else {
            let rest = t.drop_first();
            let tail = replaced(rest, from, to);
            assert(out[0] == t[0]);
            assert forall|j: int| 0 <= j < k - 1 implies #[trigger] tail[j] == c by {
                assert(out[j + 1] == tail[j]);
            }
            lemma_replaced_run_prefix(rest, from, to, c, k - 1);
            assert forall|j: int| 0 <= j < k implies #[trigger] t[j] == c by {
                if j > 0 {
                    assert(t[j] == rest[j - 1]);
                }
            }
        }
    }
}

/// Replacing a run of one character by text that does not hold it leaves no
/// such run behind.
pub proof fn lemma_replaced_leaves_no_run(s: Seq<char>, from: Seq<char>, to: Seq<char>, c: char)
    requires
        from.len() > 0,
        forall|j: int| 0 <= j < from.len() ==> #[trigger] from[j] == c,
        to.len() > 0,
        !to.contains(c),
    ensures
        !occurs(from, replaced(s, from, to)),
    decreases s.len(),
{
    if s.len() > 0 {
        let out = replaced(s, from, to);
        if from.is_prefix_of(s) {
            let rest = s.skip(from.len() as int);
            lemma_replaced_leaves_no_run(rest, from, to, c);
            let tail = replaced(rest, from, to);
            assert(out == to + tail);
            if occurs(from, out) {
                let i = choose|i: int| #[trigger] occurs_at(from, out, i);
                if i < to.len() {
                    assert(out.subrange(i, i + from.len())[0] == from[0]);
                    assert(out[i] == to[i]);
                    assert(false);
                } else {
                    assert(out.subrange(i, i + from.len()) =~= tail.subrange(
                        i - to.len(),
                        i - to.len() + from.len(),
                    ));
                    assert(occurs_at(from, tail, i - to.len()));
                }
            }
        } else {
            let rest = s.drop_first();
            lemma_replaced_leaves_no_run(rest, from, to, c);
            let tail = replaced(rest, from, to);
            assert(out == seq![s[0]] + tail);
            if occurs(from, out) {
                let i = choose|i: int| #[trigger] occurs_at(from, out, i);
                if i > 0 {
                    assert(out.subrange(i, i + from.len()) =~= tail.subrange(
                        i - 1,
                        i - 1 + from.len(),
                    ));
                    assert(occurs_at(from, tail, i - 1));
                } else {
                    let window = out.subrange(0, from.len() as int);
                    assert(window == from);
                    assert forall|j: int| 0 <= j < from.len() - 1 implies #[trigger] tail[j]
                        == c by {
                        assert(window[j + 1] == from[j + 1]);
                        assert(out[j + 1] == tail[j]);
                    }
                    lemma_replaced_run_prefix(rest, from, to, c, from.len() - 1);
                    assert(window[0] == from[0]);
                    assert(s[0] == c);
                    assert(from =~= s.subrange(0, from.len() as int)) by {
                        assert forall|j: int| 0 <= j < from.len() implies from[j] == s[j] by {
                            if j > 0 {
                                assert(s[j] == rest[j - 1]);
                            }
                        }
                    }
                    assert(false);
                }
            }
        }
    }
}

// ---------------------------------------------------------------------------
// Laws of `sy_re`
// ---------------------------------------------------------------------------

/// Every rule replaces something that is not empty.
proof fn lemma_rules_shape()
    ensures
        forall|k: int| 0 <= k < 12 ==> (#[trigger] name_rules()[k]).0.len() > 0,
{
}

/// No replacement text holds a reserved character.
proof fn lemma_rule_texts_hold_no_reserved(c: char)
    requires
        is_reserved(c),
    ensures
        forall|k: int| 0 <= k < 12 ==> !(#[trigger] name_rules()[k]).1.contains(c),
{
    assert forall|k: int| 0 <= k < 12 implies !(#[trigger] name_rules()[k]).1.contains(c) by {
        let to = name_rules()[k].1;
        assert forall|i: int| 0 <= i < to.len() implies to[i] != c by {}
    }
}

/// Once a rule has removed a character that no replacement text holds, the
/// later rules do not bring it back.
proof fn lemma_after_rules_removes(s: Seq<char>, c: char, r: int, k: nat)
    requires
        0 <= r < k <= 12,
        name_rules()[r].0 == seq![c],
        forall|j: int| 0 <= j < 12 ==> !(#[trigger] name_rules()[j]).1.contains(c),
    ensures
        !after_rules(s, k).contains(c),
    decreases k,
{
    lemma_rules_shape();
    let rule = name_rules()[k - 1];
    assert(!rule.1.contains(c));
    if r == k - 1 {
        lemma_replaced_removes(after_rules(s, (k - 1) as nat), c, rule.1);
    } else {
        lemma_after_rules_removes(s, c, r, (k - 1) as nat);
        lemma_replaced_keeps_absent(after_rules(s, (k - 1) as nat), rule.0, rule.1, c);
    }
}

/// The rule that drops each reserved character.
proof fn lemma_reserved_rule(c: char) -> (r: int)
    requires
        is_reserved(c),
    ensures
        0 <= r < 12,
        name_rules()[r].0 == seq![c],
{
    if c == '<' {
        0
    } else if c == '>' {
        1
    } else if c == '\\' {
        2
    } else if c == '/' {
        3
    } else if c == ':' {
        4
    } else if c == '?' {
        5
    } else if c == '*' {
        6
    } else if c == '"' {
        7
    } else {
        8
    }
}

/// A sanitized name holds no character that file systems reserve.
pub proof fn lemma_sanitized_has_no_reserved(s: Seq<char>)
    ensures
        forall|i: int| 0 <= i < sanitized(s).len() ==> !is_reserved(#[trigger] sanitized(s)[i]),
{
    assert forall|i: int| 0 <= i < sanitized(s).len() implies !is_reserved(
        #[trigger] sanitized(s)[i],
    ) by {
        let c = sanitized(s)[i];
        if is_reserved(c) {
            let r = lemma_reserved_rule(c);
            lemma_rule_texts_hold_no_reserved(c);
            lemma_after_rules_removes(s, c, r, 12);
            assert(sanitized(s).contains(c));
        }
    }
}

/// A sanitized name holds no `...`.
pub proof fn lemma_sanitized_has_no_ellipsis(s: Seq<char>)
    ensures
        !occurs(seq!['.', '.', '.'], sanitized(s)),
{
    let dots = seq!['.', '.', '.'];
    let before = after_rules(s, 10);
    let x = after_rules(s, 11);
    assert(name_rules()[10].0 == dots);
    assert(!seq![' '].contains('.')) by {
        assert forall|i: int| 0 <= i < 1 implies seq![' '][i] != '.' by {}
    }
    lemma_replaced_leaves_no_run(before, dots, seq![' '], '.');
    lemma_rule_texts_hold_no_reserved('?');
    lemma_after_rules_removes(s, '?', 5, 11);
    lemma_occurs_char('?', x);
    lemma_replaced_identity(x, seq!['?'], seq![]);
}

/// A name that needs no change goes through `sy_re` unchanged.
pub proof fn lemma_clean_name_unchanged(s: Seq<char>)
    requires
        is_clean_name(s),
    ensures
        sanitized(s) == s,
{
    lemma_after_rules_identity(s, 12);
}

/// Each prefix of the rules leaves a clean name unchanged.
proof fn lemma_after_rules_identity(s: Seq<char>, k: nat)
    requires
        is_clean_name(s),
        k <= 12,
    ensures
        after_rules(s, k) == s,
    decreases k,
{
    if k > 0 {
        lemma_after_rules_identity(s, (k - 1) as nat);
        lemma_rules_shape();
        let rule = name_rules()[k - 1];
        if k - 1 == 10 {
            assert(rule.0 == seq!['.', '.', '.']);
        } else {
            let c = rule.0[0];
            assert(rule.0 == seq![c]);
            assert(is_reserved(c));
            lemma_occurs_char(c, s);
            assert(!s.contains(c));
        }
        lemma_replaced_identity(s, rule.0, rule.1);
    }
}

/// Replacing a single character works on each part of a text on its own.
pub proof fn lemma_replaced_char_concat(a: Seq<char>, b: Seq<char>, c: char, to: Seq<char>)
    ensures
        replaced(a + b, seq![c], to) == replaced(a, seq![c], to) + replaced(b, seq![c], to),
    decreases a.len(),
{
    let from = seq![c];
    if a.len() == 0 {
        assert(a + b =~= b);
        assert(replaced(a, from, to) + replaced(b, from, to) =~= replaced(b, from, to));
    } else {
        let s = a + b;
        assert(s[0] == a[0]);
        assert(from.is_prefix_of(s) == from.is_prefix_of(a)) by {
            assert(from.is_prefix_of(s) <==> s[0] == c) by {
                if s[0] == c {
                    assert(from =~= s.subrange(0, 1));
                }
                if from.is_prefix_of(s) {
                    assert(from[0] == s.subrange(0, 1)[0]);
                }
            }
            assert(from.is_prefix_of(a) <==> a[0] == c) by {
                if a[0] == c {
                    assert(from =~= a.subrange(0, 1));
                }
                if from.is_prefix_of(a) {
                    assert(from[0] == a.subrange(0, 1)[0]);
                }
            }
        }
        assert(s.skip(1) =~= a.skip(1) + b);
        assert(s.drop_first() =~= a.drop_first() + b);
        if from.is_prefix_of(a) {
            lemma_replaced_char_concat(a.skip(1), b, c, to);
            assert(replaced(s, from, to) =~= replaced(a, from, to) + replaced(b, from, to));
        } else {
            lemma_replaced_char_concat(a.drop_first(), b, c, to);
            assert(replaced(s, from, to) =~= replaced(a, from, to) + replaced(b, from, to));
        }
    }
}

/// Text without a `.` holds no `...`.
proof fn lemma_no_dot_no_ellipsis(s: Seq<char>)
    requires
        !s.contains('.'),
    ensures
        !occurs(seq!['.', '.', '.'], s),
{
    let dots = seq!['.', '.', '.'];
    if occurs(dots, s) {
        let i = choose|i: int| #[trigger] occurs_at(dots, s, i);
        assert(s.subrange(i, i + 3)[0] == s[i]);
        assert(dots[0] == '.');
    }
}

/// No replacement text holds a `.`.
proof fn lemma_rule_texts_hold_no_dot()
    ensures
        forall|k: int| 0 <= k < 12 ==> !(#[trigger] name_rules()[k]).1.contains('.'),
{
    assert forall|k: int| 0 <= k < 12 implies !(#[trigger] name_rules()[k]).1.contains('.') by {
        let to = name_rules()[k].1;
        assert forall|i: int| 0 <= i < to.len() implies to[i] != '.' by {}
    }
}

/// For texts without a `.`, each prefix of the rules works on each part of
/// the text on its own, and leaves no `.`.
proof fn lemma_after_rules_concat(a: Seq<char>, b: Seq<char>, k: nat)
    requires
        !a.contains('.'),
        !b.contains('.'),
        k <= 12,
    ensures
        after_rules(a + b, k) == after_rules(a, k) + after_rules(b, k),
        !after_rules(a, k).contains('.'),
        !after_rules(b, k).contains('.'),
    decreases k,
{
    if k > 0 {
        lemma_after_rules_concat(a, b, (k - 1) as nat);
        lemma_rules_shape();
        lemma_rule_texts_hold_no_dot();
        let rule = name_rules()[k - 1];
        let x = after_rules(a, (k - 1) as nat);
        let y = after_rules(b, (k - 1) as nat);
        assert(!rule.1.contains('.'));
        lemma_replaced_keeps_absent(x, rule.0, rule.1, '.');
        lemma_replaced_keeps_absent(y, rule.0, rule.1, '.');
        if k - 1 == 10 {
            assert(!(x + y).contains('.')) by {
                assert forall|i: int| 0 <= i < (x + y).len() implies (x + y)[i] != '.' by {
                    if i < x.len() {
                        assert((x + y)[i] == x[i]);
                    } else {
                        assert((x + y)[i] == y[i - x.len()]);
                    }
                }
            }
            lemma_no_dot_no_ellipsis(x);
            lemma_no_dot_no_ellipsis(y);
            lemma_no_dot_no_ellipsis(x + y);
            lemma_replaced_identity(x, rule.0, rule.1);
            lemma_replaced_identity(y, rule.0, rule.1);
            lemma_replaced_identity(x + y, rule.0, rule.1);
        } else {
            let c = rule.0[0];
            assert(rule.0 == seq![c]);
            lemma_replaced_char_concat(x, y, c, rule.1);
        }
    }
}

/// Names without a `.` are sanitized part by part: sanitizing two of them
/// one after the other is sanitizing each and putting them together.
pub proof fn lemma_sanitized_concat(a: Seq<char>, b: Seq<char>)
    requires
        !a.contains('.'),
        !b.contains('.'),
    ensures
        sanitized(a + b) == sanitized(a) + sanitized(b),
{
    lemma_after_rules_concat(a, b, 12);
}

/// Sanitizing a second time changes nothing.
pub proof fn lemma_sanitized_idempotent(s: Seq<char>)
    ensures
        sanitized(sanitized(s)) == sanitized(s),
{
    lemma_sanitized_has_no_reserved(s);
    lemma_sanitized_has_no_ellipsis(s);
    lemma_clean_name_unchanged(sanitized(s));
}

} // verus!
