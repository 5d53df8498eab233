//! Merging a lyric with its translation, line by line, by time tag.
use vstd::prelude::*;
use indexmap::IndexMap;
use std::hash::RandomState;

use crate::text::{
    chars_of, find_char, first_pos, is_white_space, lemma_first_pos, lemma_trimmed_end, lines,
    lines_after, push_chars, push_char, slice_chars, split_lines, strip_cr, string_of, trim_end,
    trimmed_end,
};

verus! {

#[verifier::external_type_specification]
#[verifier::external_body]
#[verifier::reject_recursive_types(K)]
#[verifier::reject_recursive_types(V)]
#[verifier::reject_recursive_types(S)]
pub struct ExIndexMap<K, V, S>(IndexMap<K, V, S>);

/// What a translation table holds: each time tag mapped to its translated text.
pub uninterp spec fn table_entries(table: IndexMap<String, String, RandomState>) -> Map<
    Seq<char>,
    Seq<char>,
>;

/// Calls `IndexMap::new`: the new table holds nothing.
#[verifier::external_body]
fn table_new() -> (table: IndexMap<String, String, RandomState>)
    ensures
        table_entries(table) =~= Map::empty(),
{
    IndexMap::new()
}

/// Calls `IndexMap::insert`: afterwards `key` maps to `value` and every other
/// key to what it mapped to before.
#[verifier::external_body]
fn table_insert(table: &mut IndexMap<String, String, RandomState>, key: String, value: String)
    ensures
        table_entries(*final(table)) == table_entries(*old(table)).insert(key@, value@),
{
    table.insert(key, value);
}

/// Calls `IndexMap::get`: the text held under `key`, if the table holds it.
#[verifier::external_body]
fn table_get<'a>(table: &'a IndexMap<String, String, RandomState>, key: &str) -> (r: Option<
    &'a String,
>)
    ensures
        r is Some == table_entries(*table).dom().contains(key@),
        r matches Some(v) ==> v@ == table_entries(*table)[key@],
{
    table.get(key)
}

/// Whether the character takes one byte in UTF-8.
pub open spec fn is_ascii_char(c: char) -> bool {
    (c as u32) < 128
}

/// The time tag and text of a line `Xtime]text`: what stands between the
/// first character and the first `]`, and what follows that `]`. A line with
/// no `]` has none.
pub open spec fn tag_of(line: Seq<char>) -> Option<(Seq<char>, Seq<char>)> {
    match first_pos(line, ']') {
        Some(j) => Some((line.subrange(1, j), line.skip(j + 1))),
        None => None,
    }
}

/// A line whose time tag can be cut out: when it holds a `]`, something that
/// takes one byte stands before the first one.
pub open spec fn tag_cuttable(line: Seq<char>) -> bool {
    match first_pos(line, ']') {
        Some(j) => j >= 1 && is_ascii_char(line[0]),
        None => true,
    }
}

/// A lyric line: it holds a `]` and its time tag can be cut out.
pub open spec fn is_lyric_line(line: Seq<char>) -> bool {
    first_pos(line, ']') is Some && tag_cuttable(line)
}

/// The inputs that `merged_lyric` accepts: every line of the lyric is a lyric
/// line, and every line of the translation that holds a `]` has a time tag
/// that can be cut out.
pub open spec fn lyric_mergeable(lyric: Seq<char>, tlyric: Seq<char>) -> bool {
    &&& forall|i: int|
        0 <= i < lines(trimmed_end(lyric)).len() ==> is_lyric_line(
            #[trigger] lines(trimmed_end(lyric))[i],
        )
    &&& forall|i: int|
        0 <= i < lines(trimmed_end(tlyric)).len() ==> tag_cuttable(
            #[trigger] lines(trimmed_end(tlyric))[i],
        )
}

/// The translation table of the translation's lines: each line with a `]`
/// maps its time tag to its text, a later line taking the place of an earlier
/// one with the same tag.
pub open spec fn translations(tlines: Seq<Seq<char>>) -> Map<Seq<char>, Seq<char>>
    decreases tlines.len(),
{
    if tlines.len() == 0 {
        Map::empty()
    } else {
        let table = translations(tlines.drop_last());
        match tag_of(tlines.last()) {
            Some(tag) => table.insert(tag.0, tag.1),
            None => table,
        }
    }
}

/// `[time]text` and a line end.
pub open spec fn tagged(time: Seq<char>, text: Seq<char>) -> Seq<char> {
    seq!['['] + time + seq![']'] + text + seq!['\n']
}

/// A lyric line as the merged lyric shows it: the line, then its translation
/// under the same time tag when the table holds one.
pub open spec fn rendered_line(line: Seq<char>, table: Map<Seq<char>, Seq<char>>) -> Seq<char> {
    let tag = tag_of(line).unwrap();
    if table.dom().contains(tag.0) {
        tagged(tag.0, tag.1) + tagged(tag.0, table[tag.0])
    } else {
        tagged(tag.0, tag.1)
    }
}

/// The lyric lines, each as the merged lyric shows it, in order.
pub open spec fn rendered(ls: Seq<Seq<char>>, table: Map<Seq<char>, Seq<char>>) -> Seq<char>
    decreases ls.len(),
{
    if ls.len() == 0 {
        seq![]
    } else {
        rendered(ls.drop_last(), table) + rendered_line(ls.last(), table)
    }
}

/// The lyric merged with its translation: trailing whitespace cut from both,
/// then each lyric line followed by the translation line with its time tag.
pub open spec fn merged(lyric: Seq<char>, tlyric: Seq<char>) -> Seq<char> {
    rendered(lines(trimmed_end(lyric)), translations(lines(trimmed_end(tlyric))))
}

/// The time tag and text of a line that holds a `]` whose tag can be cut out.
fn cut_tag(line: &Vec<char>) -> (r: Option<(Vec<char>, Vec<char>)>)
    requires
        tag_cuttable(line@),
    ensures
        r is Some == tag_of(line@) is Some,
        r matches Some(parts) ==> tag_of(line@) == Some((parts.0@, parts.1@)),
{
    proof {
        lemma_first_pos(line@, ']');
    }
    match find_char(line, ']') {
        Some(j) => {
            let time = slice_chars(line, 1, j);
            let text = slice_chars(line, j + 1, line.len());
            assert(text@ =~= line@.skip(j + 1));
            Some((time, text))
        },
        None => None,
    }
}

/// Appends `[time]text` and a line end.
fn push_tagged(out: &mut String, time: &Vec<char>, text: &Vec<char>)
    ensures
        final(out)@ == old(out)@ + tagged(time@, text@),
{
    push_char(out, '[');
    push_chars(out, time);
    push_char(out, ']');
    push_chars(out, text);
    push_char(out, '\n');
    assert(final(out)@ =~= old(out)@ + tagged(time@, text@));
}

/// The lyric merged with its translation: after each lyric line `[time]text`
/// comes the translation line `[time]translated` when the translation has a
/// line with that time tag (its last such line). Each output line ends with a
/// line end.
pub fn merged_lyric(lyric: String, tlyric: String) -> (out: String)
    requires
        lyric_mergeable(lyric@, tlyric@),
    ensures
        out@ == merged(lyric@, tlyric@),
{
    let lyric_t = trim_end(&chars_of(lyric.as_str()));
    let tlyric_t = trim_end(&chars_of(tlyric.as_str()));

    let tlines = split_lines(&tlyric_t);
    let ghost tviews = tlines@.map_values(|l: Vec<char>| l@);
    let mut table = table_new();
    let mut i: usize = 0;
    while i < tlines.len()
        invariant
            i <= tlines.len(),
            tviews == tlines@.map_values(|l: Vec<char>| l@),
            tviews == lines(trimmed_end(tlyric@)),
            lyric_mergeable(lyric@, tlyric@),
            table_entries(table) == translations(tviews.take(i as int)),
        decreases tlines.len() - i,
    {
        assert(tviews.take(i + 1).drop_last() =~= tviews.take(i as int));
        assert(tviews.take(i + 1).last() == tlines@[i as int]@);
        assert(tag_cuttable(tviews[i as int]));
        match cut_tag(&tlines[i]) {
            Some(parts) => {
                let (time, text) = parts;
                table_insert(&mut table, string_of(&time), string_of(&text));
            },
            None => {},
        }
        i = i + 1;
    }
    assert(tviews.take(i as int) =~= tviews);
    let ghost table_view = table_entries(table);

    let ls = split_lines(&lyric_t);
    let ghost views = ls@.map_values(|l: Vec<char>| l@);
    let mut out = String::new();
    let mut k: usize = 0;
    while k < ls.len()
        invariant
            k <= ls.len(),
            views == ls@.map_values(|l: Vec<char>| l@),
            views == lines(trimmed_end(lyric@)),
            lyric_mergeable(lyric@, tlyric@),
            table_entries(table) == table_view,
            out@ == rendered(views.take(k as int), table_view),
        decreases ls.len() - k,
    {
        assert(views.take(k + 1).drop_last() =~= views.take(k as int));
        assert(views.take(k + 1).last() == ls@[k as int]@);
        assert(is_lyric_line(views[k as int]));
        match cut_tag(&ls[k]) {
            Some(parts) => {
                let (time, text) = parts;
                let time_s = string_of(&time);
                match table_get(&table, time_s.as_str()) {
                    None => {
                        push_tagged(&mut out, &time, &text);
                    },
                    Some(translated) => {
                        let translated_chars = chars_of(translated.as_str());
                        push_tagged(&mut out, &time, &text);
                        push_tagged(&mut out, &time, &translated_chars);
                        assert(out@ =~= rendered(views.take(k as int), table_view) + (tagged(
                            time@,
                            text@,
                        ) + tagged(time@, translated_chars@)));
                    },
                }
            },
            None => {
                assert(false);
            },
        }
        k = k + 1;
    }
    assert(views.take(k as int) =~= views);
    out
}

/// Whether `merged_lyric` accepts the lyric and translation.
pub fn is_mergeable(lyric: &str, tlyric: &str) -> (b: bool)
    ensures
        b == lyric_mergeable(lyric@, tlyric@),
{
    let ls = split_lines(&trim_end(&chars_of(lyric)));
    let ghost views = ls@.map_values(|l: Vec<char>| l@);
    let mut i: usize = 0;
    while i < ls.len()
        invariant
            i <= ls.len(),
            views == ls@.map_values(|l: Vec<char>| l@),
            views == lines(trimmed_end(lyric@)),
            forall|j: int| 0 <= j < i ==> is_lyric_line(#[trigger] views[j]),
        decreases ls.len() - i,
    {
        assert(views[i as int] == ls@[i as int]@);
        if !lyric_line(&ls[i]) {
            return false;
        }
        i = i + 1;
    }
    let ts = split_lines(&trim_end(&chars_of(tlyric)));
    let ghost tviews = ts@.map_values(|l: Vec<char>| l@);
    let mut k: usize = 0;
    while k < ts.len()
        invariant
            k <= ts.len(),
            tviews == ts@.map_values(|l: Vec<char>| l@),
            tviews == lines(trimmed_end(tlyric@)),
            forall|j: int| 0 <= j < k ==> tag_cuttable(#[trigger] tviews[j]),
        decreases ts.len() - k,
    {
        assert(tviews[k as int] == ts@[k as int]@);
        if !cuttable(&ts[k]) {
            return false;
        }
        k = k + 1;
    }
    true
}

/// Whether the tag of the line can be cut out.
fn cuttable(line: &Vec<char>) -> (b: bool)
    ensures
        b == tag_cuttable(line@),
{
    match find_char(line, ']') {
        Some(j) => j >= 1 && (line[0] as u32) < 128,
        None => true,
    }
}

/// Whether the line is a lyric line.
fn lyric_line(line: &Vec<char>) -> (b: bool)
    ensures
        b == is_lyric_line(line@),
{
    find_char(line, ']').is_some() && cuttable(line)
}

/// The lines, each followed by a line end.
pub open spec fn line_ended(ls: Seq<Seq<char>>) -> Seq<char>
    decreases ls.len(),
{
    if ls.len() == 0 {
        seq![]
    } else {
        line_ended(ls.drop_last()) + ls.last() + seq!['\n']
    }
}

/// A line `[time]text` is shown as it is, followed by a line end.
proof fn lemma_bracketed_line_kept(line: Seq<char>)
    requires
        is_lyric_line(line),
        line[0] == '[',
    ensures
        tagged(tag_of(line).unwrap().0, tag_of(line).unwrap().1) == line + seq!['\n'],
{
    lemma_first_pos(line, ']');
    let j = first_pos(line, ']').unwrap();
    assert(tagged(line.subrange(1, j), line.skip(j + 1)) =~= line + seq!['\n']);
}

/// Lines shown against an empty table are the lines themselves.
proof fn lemma_rendered_without_table(ls: Seq<Seq<char>>)
    requires
        forall|i: int| 0 <= i < ls.len() ==> is_lyric_line(#[trigger] ls[i]) && ls[i][0] == '[',
    ensures
        rendered(ls, Map::empty()) == line_ended(ls),
    decreases ls.len(),
{
    if ls.len() > 0 {
        lemma_rendered_without_table(ls.drop_last());
        assert(is_lyric_line(ls[ls.len() - 1]) && ls[ls.len() - 1][0] == '[');
        lemma_bracketed_line_kept(ls.last());
        assert(rendered(ls, Map::empty()) =~= line_ended(ls));
    }
}

/// Without a translation, merging gives back the lyric: each of its lines
/// (written `[time]text`) in order, each followed by a line end.
pub proof fn lemma_merge_without_translation(lyric: Seq<char>)
    requires
        forall|i: int|
            0 <= i < lines(trimmed_end(lyric)).len() ==> is_lyric_line(
                #[trigger] lines(trimmed_end(lyric))[i],
            ) && lines(trimmed_end(lyric))[i][0] == '[',
    ensures
        merged(lyric, seq![]) == line_ended(lines(trimmed_end(lyric))),
{
    assert(trimmed_end(Seq::<char>::empty()) == Seq::<char>::empty());
    assert(lines(Seq::<char>::empty()) =~= Seq::<Seq<char>>::empty());
    assert(translations(Seq::<Seq<char>>::empty()) == Map::<Seq<char>, Seq<char>>::empty());
    lemma_rendered_without_table(lines(trimmed_end(lyric)));
}

/// A lyric line whose time tag the translation has is followed by the
/// translation's text under that tag; one whose tag it lacks stands alone.
pub proof fn lemma_merge_pairs_lines(ls: Seq<Seq<char>>, table: Map<Seq<char>, Seq<char>>, i: int)
    requires
        0 <= i < ls.len(),
    ensures
        rendered(ls, table) == rendered(ls.take(i), table) + rendered_line(ls[i], table) + rendered(
            ls.skip(i + 1),
            table,
        ),
{
    lemma_rendered_append(ls.take(i + 1), ls.skip(i + 1), table);
    assert(ls.take(i + 1) + ls.skip(i + 1) =~= ls);
    assert(ls.take(i + 1).drop_last() =~= ls.take(i));
}

/// Showing two runs of lines one after the other shows the first, then the second.
pub proof fn lemma_rendered_append(a: Seq<Seq<char>>, b: Seq<Seq<char>>, table: Map<Seq<char>, Seq<char>>)
    ensures
        rendered(a + b, table) == rendered(a, table) + rendered(b, table),
    decreases b.len(),
{
    if b.len() == 0 {
        assert(a + b =~= a);
        assert(rendered(a, table) + Seq::<char>::empty() =~= rendered(a, table));
    } else {
        lemma_rendered_append(a, b.drop_last(), table);
        assert((a + b).drop_last() =~= a + b.drop_last());
        assert((a + b).last() == b.last());
        assert(rendered(a + b, table) =~= rendered(a, table) + rendered(b, table));
    }
}

/// Whether some line of `q` has the time tag `k`.
pub open spec fn has_tag(q: Seq<Seq<char>>, k: Seq<char>) -> bool {
    exists|i: int| 0 <= i < q.len() && (#[trigger] tag_of(q[i])) is Some && tag_of(q[i]).unwrap().0 == k
}

/// Lines after `p` that carry no tag `k` leave what the table holds under `k`.
proof fn lemma_translations_untouched(p: Seq<Seq<char>>, q: Seq<Seq<char>>, k: Seq<char>)
    requires
        !has_tag(q, k),
    ensures
        translations(p + q).dom().contains(k) == translations(p).dom().contains(k),
        translations(p).dom().contains(k) ==> translations(p + q)[k] == translations(p)[k],
    decreases q.len(),
{
    if q.len() == 0 {
        assert(p + q =~= p);
    } else {
        let q1 = q.drop_last();
        assert(!has_tag(q1, k)) by {
            if has_tag(q1, k) {
                let i = choose|i: int|
                    0 <= i < q1.len() && (#[trigger] tag_of(q1[i])) is Some && tag_of(q1[i]).unwrap().0
                        == k;
                assert(q[i] == q1[i]);
            }
        }
        lemma_translations_untouched(p, q1, k);
        assert((p + q).drop_last() =~= p + q1);
        assert((p + q).last() == q.last());
        if let Some(t) = tag_of(q.last()) {
            assert(q.last() == q[q.len() - 1]);
            assert(t.0 != k);
        }
    }
}

/// Lines shown against two tables that agree on the lines' time tags are shown alike.
proof fn lemma_rendered_agree(
    ls: Seq<Seq<char>>,
    t1: Map<Seq<char>, Seq<char>>,
    t2: Map<Seq<char>, Seq<char>>,
)
    requires
        forall|i: int|
            0 <= i < ls.len() ==> {
                let k = (#[trigger] tag_of(ls[i])).unwrap().0;
                &&& t1.dom().contains(k) == t2.dom().contains(k)
                &&& t1.dom().contains(k) ==> t1[k] == t2[k]
            },
    ensures
        rendered(ls, t1) == rendered(ls, t2),
    decreases ls.len(),
{
    if ls.len() > 0 {
        let l1 = ls.drop_last();
        assert forall|i: int| 0 <= i < l1.len() implies {
            let k = (#[trigger] tag_of(l1[i])).unwrap().0;
            &&& t1.dom().contains(k) == t2.dom().contains(k)
            &&& t1.dom().contains(k) ==> t1[k] == t2[k]
        } by {
            assert(l1[i] == ls[i]);
        }
        lemma_rendered_agree(l1, t1, t2);
        assert(ls.last() == ls[ls.len() - 1]);
        let _ = tag_of(ls[ls.len() - 1]);
    }
}

/// The lines of `a`, a line end and `x` are the lines up to that line end,
/// then the lines of `x`.
proof fn lemma_lines_split(cur: Seq<char>, a: Seq<char>, x: Seq<char>)
    ensures
        lines_after(cur, a + seq!['\n'] + x) == lines_after(cur, a + seq!['\n']) + lines_after(
            seq![],
            x,
        ),
    decreases a.len(),
{
    let s = a + seq!['\n'] + x;
    let t = a + seq!['\n'];
    if a.len() == 0 {
        assert(s[0] == '\n');
        assert(s.drop_first() =~= x);
        assert(t[0] == '\n');
        assert(t.drop_first() =~= Seq::<char>::empty());
        assert(lines_after(seq![], Seq::<char>::empty()) =~= Seq::<Seq<char>>::empty());
        assert(lines_after(cur, t) =~= seq![strip_cr(cur)]);
    } else {
        let a1 = a.drop_first();
        assert(s[0] == a[0] && t[0] == a[0]);
        assert(s.drop_first() =~= a1 + seq!['\n'] + x);
        assert(t.drop_first() =~= a1 + seq!['\n']);
        if a[0] == '\n' {
            lemma_lines_split(seq![], a1, x);
        } else {
            lemma_lines_split(cur.push(a[0]), a1, x);
        }
    }
}

/// A line end after text that ends in neither a line end nor a carriage
/// return adds no line.
proof fn lemma_lines_final_newline(cur: Seq<char>, a: Seq<char>)
    requires
        (cur + a).len() > 0,
        (cur + a).last() != '\n',
        (cur + a).last() != '\r',
    ensures
        lines_after(cur, a + seq!['\n']) == lines_after(cur, a),
    decreases a.len(),
{
    let t = a + seq!['\n'];
    if a.len() == 0 {
        assert(cur + a =~= cur);
        assert(t[0] == '\n');
        assert(t.drop_first() =~= Seq::<char>::empty());
        assert(cur.last() == (cur + a).last());
        assert(strip_cr(cur) == cur);
        assert(lines_after(seq![], Seq::<char>::empty()) =~= Seq::<Seq<char>>::empty());
        assert(lines_after(cur, t) =~= seq![cur]);
    } else {
        let a1 = a.drop_first();
        assert(t[0] == a[0]);
        assert(t.drop_first() =~= a1 + seq!['\n']);
        if a[0] == '\n' {
            assert(a.len() >= 2) by {
                if a.len() == 1 {
                    assert((cur + a).last() == a[0]);
                }
            }
            assert((Seq::<char>::empty() + a1).last() == (cur + a).last());
            assert(Seq::<char>::empty() + a1 =~= a1);
            lemma_lines_final_newline(seq![], a1);
        } else {
            assert(cur.push(a[0]) + a1 =~= cur + a);
            lemma_lines_final_newline(cur.push(a[0]), a1);
        }
    }
}

/// Cutting the trailing whitespace of `a + b`: if `b` is not all whitespace
/// only `b` is cut, otherwise all of `b` goes and `a` is cut.
proof fn lemma_trimmed_end_append(a: Seq<char>, b: Seq<char>)
    ensures
        trimmed_end(b).len() > 0 ==> trimmed_end(a + b) == a + trimmed_end(b),
        trimmed_end(b).len() == 0 ==> trimmed_end(a + b) == trimmed_end(a),
    decreases b.len(),
{
    if b.len() == 0 {
        assert(a + b =~= a);
    } else {
        assert((a + b).last() == b.last());
        if is_white_space(b.last()) {
            assert((a + b).drop_last() =~= a + b.drop_last());
            lemma_trimmed_end_append(a, b.drop_last());
        }
    }
}

/// Text with its trailing whitespace cut has none left to cut.
proof fn lemma_trimmed_end_stable(s: Seq<char>)
    ensures
        trimmed_end(trimmed_end(s)) == trimmed_end(s),
{
    lemma_trimmed_end(s);
}

/// Appending to the translation, after a line end, lines whose time tags no
/// lyric line has leaves the merged lyric as it was.
pub proof fn lemma_foreign_translations_ignored(lyric: Seq<char>, tlyric: Seq<char>, extra: Seq<char>)
    requires
        forall|j: int|
            0 <= j < lines(trimmed_end(lyric)).len() ==> is_lyric_line(
                #[trigger] lines(trimmed_end(lyric))[j],
            ),
        forall|i: int, j: int|
            0 <= i < lines(trimmed_end(extra)).len() && 0 <= j < lines(trimmed_end(lyric)).len()
                && (#[trigger] tag_of(lines(trimmed_end(extra))[i])) is Some ==> tag_of(
                lines(trimmed_end(extra))[i],
            ).unwrap().0 != (#[trigger] tag_of(lines(trimmed_end(lyric))[j])).unwrap().0,
    ensures
        merged(lyric, trimmed_end(tlyric) + seq!['\n'] + extra) == merged(lyric, tlyric),
{
    let t = trimmed_end(tlyric);
    let e = trimmed_end(extra);
    let ls = lines(trimmed_end(lyric));
    let full = t + seq!['\n'] + extra;
    lemma_trimmed_end(tlyric);
    lemma_trimmed_end_stable(tlyric);
    lemma_trimmed_end_append(t + seq!['\n'], extra);
    lemma_trimmed_end_append(t, seq!['\n']);
    assert(trimmed_end(seq!['\n']) =~= Seq::<char>::empty()) by {
        assert(seq!['\n'].last() == '\n');
        assert(('\n' as u32) == 10);
        assert(is_white_space('\n'));
        assert(seq!['\n'].drop_last() =~= Seq::<char>::empty());
        assert(trimmed_end(Seq::<char>::empty()) =~= Seq::<char>::empty());
    }
    if e.len() == 0 {
        assert(trimmed_end(full) == t);
    } else {
        assert(trimmed_end(full) =~= t + seq!['\n'] + e);
        lemma_lines_split(seq![], t, e);
        let le = lines(e);
        let p = lines_after(seq![], t + seq!['\n']);
        assert(lines(trimmed_end(full)) == p + le);
        if t.len() > 0 {
            assert(Seq::<char>::empty() + t =~= t);
            lemma_lines_final_newline(seq![], t);
            assert(p == lines(t));
        } else {
            assert(t + seq!['\n'] =~= seq!['\n']);
            assert(seq!['\n'].drop_first() =~= Seq::<char>::empty());
            assert(seq!['\n'][0] == '\n');
            assert(strip_cr(Seq::<char>::empty()) =~= Seq::<char>::empty());
            assert(lines_after(seq![], Seq::<char>::empty()) =~= Seq::<Seq<char>>::empty());
            assert(p =~= seq![Seq::<char>::empty()]);
            assert(lines(t) =~= Seq::<Seq<char>>::empty());
            assert(tag_of(Seq::<char>::empty()) is None);
            assert(p.drop_last() =~= Seq::<Seq<char>>::empty());
            assert(translations(p) =~= translations(lines(t)));
        }
        assert forall|j: int| 0 <= j < ls.len() implies {
            let k = (#[trigger] tag_of(ls[j])).unwrap().0;
            &&& translations(p + le).dom().contains(k) == translations(lines(t)).dom().contains(k)
            &&& translations(p + le).dom().contains(k) ==> translations(p + le)[k] == translations(
                lines(t),
            )[k]
        } by {
            let k = tag_of(ls[j]).unwrap().0;
            assert(!has_tag(le, k)) by {
                if has_tag(le, k) {
                    let i = choose|i: int|
                        0 <= i < le.len() && (#[trigger] tag_of(le[i])) is Some && tag_of(le[i]).unwrap().0
                            == k;
                    assert(tag_of(le[i]) is Some);
                }
            }
            lemma_translations_untouched(p, le, k);
        }
        lemma_rendered_agree(ls, translations(p + le), translations(lines(t)));
    }
}

} // verus!
