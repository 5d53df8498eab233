use music_download::lyric::{is_mergeable, merged_lyric};
use music_download::sanitize::sy_re;
use music_download::text::{chars_of, decimal_string, join_strings, trim_end};

fn s(x: &str) -> String {
    x.to_string()
}

#[test]
fn sy_re_maps_reserved_characters_to_full_width() {
    assert_eq!(sy_re(s("a<b>c")), "a\u{ff1c}b\u{ff1e}c");
    assert_eq!(sy_re(s("a/b:c")), "a\u{ff0f}b\u{ff1a}c");
    assert_eq!(sy_re(s("x\\y|z\"w")), "x\u{ff3c}y\u{ff5c}z\u{ff02}w");
    assert_eq!(sy_re(s("a*b")), "a\u{ff0a}b");
}

#[test]
fn sy_re_drops_question_marks() {
    assert_eq!(sy_re(s("what?")), "what");
    assert_eq!(sy_re(s("??")), "");
}

#[test]
fn sy_re_turns_ellipsis_into_space() {
    assert_eq!(sy_re(s("wait...what")), "wait what");
    assert_eq!(sy_re(s("....")), " .");
    assert_eq!(sy_re(s("......")), "  ");
    // the question mark goes first, which makes an ellipsis
    assert_eq!(sy_re(s("..?.")), " ");
}

#[test]
fn sy_re_keeps_clean_names() {
    assert_eq!(sy_re(s("Artist - Song (Live)")), "Artist - Song (Live)");
    assert_eq!(sy_re(s("")), "");
    assert_eq!(sy_re(s("\u{4f60}\u{597d}")), "\u{4f60}\u{597d}");
}

#[test]
fn sy_re_twice_is_sy_re_once() {
    for name in ["a<b>?c...d", "..?.", "x*y*z", "::||..", "...."] {
        let once = sy_re(s(name));
        assert_eq!(sy_re(once.clone()), once);
        for c in ['<', '>', '\\', '/', ':', '?', '*', '"', '|'] {
            assert!(!once.contains(c));
        }
        assert!(!once.contains("..."));
    }
}

#[test]
fn decimal_string_writes_numbers() {
    assert_eq!(decimal_string(0), "0");
    assert_eq!(decimal_string(7), "7");
    assert_eq!(decimal_string(1234567), "1234567");
    assert_eq!(decimal_string(-5), "-5");
    assert_eq!(decimal_string(i64::MAX), i64::MAX.to_string());
    assert_eq!(decimal_string(i64::MIN), i64::MIN.to_string());
    assert_eq!(decimal_string(6904724287), "6904724287");
}

#[test]
fn join_strings_puts_separator_between() {
    assert_eq!(join_strings(&vec![], ","), "");
    assert_eq!(join_strings(&vec![s("a")], ","), "a");
    assert_eq!(join_strings(&vec![s("a"), s("b"), s("c")], ","), "a,b,c");
}

#[test]
fn trim_end_cuts_trailing_whitespace() {
    let v = chars_of("abc \t\r\n\u{3000}");
    assert_eq!(trim_end(&v), vec!['a', 'b', 'c']);
    assert_eq!(trim_end(&chars_of("  a b")), chars_of("  a b"));
    assert_eq!(trim_end(&chars_of("   ")), Vec::<char>::new());
}

#[test]
fn merged_lyric_adds_translation_after_each_line() {
    let lyric = s("[00:01.00]hello\n[00:02.00]world\n");
    let tlyric = s("[00:01.00]\u{4f60}\u{597d}\n");
    assert_eq!(
        merged_lyric(lyric, tlyric),
        "[00:01.00]hello\n[00:01.00]\u{4f60}\u{597d}\n[00:02.00]world\n"
    );
}

#[test]
fn merged_lyric_without_translation_keeps_lyric() {
    let lyric = s("[00:01]a\r\n[00:02]b  \n\n");
    assert_eq!(merged_lyric(lyric, s("")), "[00:01]a\n[00:02]b\n");
}

#[test]
fn merged_lyric_uses_last_translation_of_a_tag() {
    let lyric = s("[t]x");
    let tlyric = s("[t]first\n[t]second\nno tag here");
    assert_eq!(merged_lyric(lyric, tlyric), "[t]x\n[t]second\n");
}

#[test]
fn merged_lyric_cuts_first_character_of_tag() {
    // whatever stands first is dropped and written back as '['
    let lyric = s("(1]x");
    assert_eq!(merged_lyric(lyric, s("")), "[1]x\n");
}

#[test]
fn is_mergeable_rejects_lines_the_merge_cannot_cut() {
    assert!(is_mergeable("[00:01]a\n[00:02]b", "[00:01]c"));
    assert!(!is_mergeable("[00:01]a\nplain", ""));
    assert!(!is_mergeable("]a", ""));
    assert!(!is_mergeable("\u{4f60}]a", ""));
    assert!(!is_mergeable("[0]a", "]x"));
    assert!(is_mergeable("[0]a", "no bracket"));
    assert!(is_mergeable("", ""));
}

#[test]
fn merged_lyric_ignores_translations_of_other_tags() {
    let lyric = s("[00:01]a\n[00:02]b");
    let tlyric = s("[00:01]A  \n");
    let extra = "[00:09]Z\nno tag";
    let longer = format!("{}\n{}", tlyric.trim_end(), extra);
    assert_eq!(merged_lyric(lyric.clone(), longer), merged_lyric(lyric, tlyric));
}

#[test]
fn sy_re_works_part_by_part_without_dots() {
    let a = "a<b?c";
    let b = "*d|e";
    assert_eq!(sy_re(format!("{}{}", a, b)), format!("{}{}", sy_re(s(a)), sy_re(s(b))));
}
