use deci::{HighlightingOptions, Row, SearchDirection, Type};

fn text(r: &Row) -> String {
    String::from_utf8(r.as_bytes().to_vec()).unwrap()
}

#[test]
fn from_counts_grapheme_clusters() {
    let r = Row::from("e\u{301}a");
    assert_eq!(r.len(), 2);
    assert_eq!(text(&r), "e\u{301}a");
    assert_eq!(r.highlighting().len(), 2);
}

#[test]
fn insert_in_middle() {
    let mut r = Row::from("ac");
    r.insert(1, 'b');
    assert_eq!(text(&r), "abc");
    assert_eq!(r.len(), 3);
}

#[test]
fn insert_past_end_appends() {
    let mut r = Row::from("ab");
    r.insert(10, 'c');
    assert_eq!(text(&r), "abc");
    assert_eq!(r.len(), 3);
}

#[test]
fn insert_before_wide_cluster() {
    let mut r = Row::from("日本");
    r.insert(1, 'x');
    assert_eq!(text(&r), "日x本");
    assert_eq!(r.len(), 3);
    assert_eq!(r.highlighting().len(), 3);
}

#[test]
fn delete_removes_cluster() {
    let mut r = Row::from("ae\u{301}b");
    r.delete(1);
    assert_eq!(text(&r), "ab");
    assert_eq!(r.len(), 2);
}

#[test]
fn delete_past_end_is_noop() {
    let mut r = Row::from("ab");
    r.delete(2);
    assert_eq!(text(&r), "ab");
    r.delete(7);
    assert_eq!(text(&r), "ab");
    assert_eq!(r.len(), 2);
}

#[test]
fn insert_then_delete_restores() {
    for p in 0..=3 {
        let mut r = Row::from("日本a");
        r.insert(p, 'z');
        r.delete(p);
        assert_eq!(text(&r), "日本a");
        assert_eq!(r.len(), 3);
    }
}

#[test]
fn split_then_append_restores() {
    for at in 0..=5 {
        let mut r = Row::from("héllo");
        let tail = r.split(at);
        let k = if at < 5 { at } else { 5 };
        assert_eq!(r.len(), k);
        assert_eq!(tail.len(), 5 - k);
        r.append(&tail);
        assert_eq!(text(&r), "héllo");
        assert_eq!(r.len(), 5);
    }
}

#[test]
fn split_in_middle() {
    let mut r = Row::from("abcd");
    let tail = r.split(1);
    assert_eq!(text(&r), "a");
    assert_eq!(text(&tail), "bcd");
    assert_eq!(tail.highlighting().len(), 3);
}

#[test]
fn append_adds_text() {
    let mut r = Row::from("ab");
    r.append(&Row::from("日"));
    assert_eq!(text(&r), "ab日");
    assert_eq!(r.len(), 3);
}

#[test]
fn find_forward_reports_cluster_index() {
    let r = Row::from("日本語abcabc");
    assert_eq!(r.find("abc", 0, SearchDirection::Forward), Some(3));
    assert_eq!(r.find("abc", 4, SearchDirection::Forward), Some(6));
    assert_eq!(r.find("abc", 7, SearchDirection::Forward), None);
}

#[test]
fn find_backward_within_prefix() {
    let r = Row::from("abcabc");
    assert_eq!(r.find("abc", 6, SearchDirection::Backward), Some(3));
    assert_eq!(r.find("abc", 5, SearchDirection::Backward), Some(0));
    assert_eq!(r.find("abc", 2, SearchDirection::Backward), None);
}

#[test]
fn find_empty_query_finds_nothing() {
    let r = Row::from("abc");
    for at in 0..5 {
        assert_eq!(r.find("", at, SearchDirection::Forward), None);
        assert_eq!(r.find("", at, SearchDirection::Backward), None);
    }
}

#[test]
fn find_past_end_finds_nothing() {
    let r = Row::from("abc");
    assert_eq!(r.find("c", 4, SearchDirection::Forward), None);
    assert_eq!(r.find("c", 4, SearchDirection::Backward), None);
}

#[test]
fn find_matches_only_at_cluster_starts() {
    let r = Row::from("e\u{301}x");
    assert_eq!(r.find("\u{301}", 0, SearchDirection::Forward), None);
    assert_eq!(r.find("x", 0, SearchDirection::Forward), Some(1));
}

#[test]
fn full2half_width_counts_double_width() {
    let r = Row::from("日本a");
    assert_eq!(r.full2half_width(0, 3), 5);
    assert_eq!(r.full2half_width(1, 2), 2);
    assert_eq!(r.full2half_width(0, 99), 5);
    assert_eq!(r.full2half_width(2, 1), 0);
}

#[test]
fn half2full_width_fits_greedily() {
    let r = Row::from("日本a");
    assert_eq!(r.half2full_width(0), 0);
    assert_eq!(r.half2full_width(3), 1);
    assert_eq!(r.half2full_width(4), 2);
    assert_eq!(r.half2full_width(5), 3);
    assert_eq!(r.half2full_width(100), 3);
}

#[test]
fn width_round_trip_never_grows() {
    let r = Row::from("a日b本c");
    let mut last = 0;
    for n in 0..8 {
        let back = r.half2full_width(r.full2half_width(0, n));
        assert!(back <= n);
        assert!(back >= last);
        last = back;
    }
}

#[test]
fn trim_string_turns_tab_into_space() {
    let r = Row::from("a\tb");
    assert_eq!(r.trim_string(0, 10), "a b\u{1b}[39m");
}

#[test]
fn trim_string_clips_to_area() {
    let r = Row::from("日本a");
    assert_eq!(r.trim_string(0, 3), "日\u{1b}[39m");
    assert_eq!(r.trim_string(1, 10), "本a\u{1b}[39m");
    assert_eq!(r.trim_string(3, 10), "");
}

#[test]
fn trim_string_marks_tag_runs() {
    let opts = HighlightingOptions::new(true, false, false, false, vec![], vec![]);
    let mut r = Row::from("a 12");
    r.highlight(&opts, None, false);
    assert_eq!(
        r.trim_string(0, 10),
        "a \u{1b}[38;2;220;163;163m12\u{1b}[39m"
    );
}

#[test]
fn highlight_keyword_and_number() {
    let opts = HighlightingOptions::new(true, false, false, false, vec!["let".to_string()], vec![]);
    let mut r = Row::from("let x = 42;");
    let open = r.highlight(&opts, None, false);
    assert!(!open);
    let n = Type::Normal;
    let k = Type::PrimaryKeywords;
    let d = Type::Number;
    assert_eq!(r.highlighting(), &vec![k, k, k, n, n, n, n, n, d, d, n]);
}

#[test]
fn keyword_inside_word_is_not_matched() {
    let opts = HighlightingOptions::new(false, false, false, false, vec!["let".to_string()], vec![]);
    let mut r = Row::from("letter");
    r.highlight(&opts, None, false);
    assert!(r.highlighting().iter().all(|t| *t == Type::Normal));
}

#[test]
fn longest_keyword_wins() {
    let opts = HighlightingOptions::new(
        false,
        false,
        false,
        false,
        vec!["x".to_string(), "x.y".to_string()],
        vec![],
    );
    let mut r = Row::from("x.y z");
    r.highlight(&opts, None, false);
    let k = Type::PrimaryKeywords;
    assert_eq!(r.highlighting(), &vec![k, k, k, Type::Normal, Type::Normal]);
}

#[test]
fn secondary_keywords_follow_primary() {
    let opts = HighlightingOptions::new(
        false,
        false,
        false,
        false,
        vec!["fn".to_string()],
        vec!["u8".to_string()],
    );
    let mut r = Row::from("fn u8");
    r.highlight(&opts, None, false);
    let p = Type::PrimaryKeywords;
    let s = Type::SecondaryKeywords;
    assert_eq!(r.highlighting(), &vec![p, p, Type::Normal, s, s]);
}

#[test]
fn line_comment_covers_rest_of_line() {
    let opts = HighlightingOptions::new(false, false, false, true, vec![], vec![]);
    let mut r = Row::from("a // b");
    let open = r.highlight(&opts, None, false);
    assert!(!open);
    let c = Type::Comment;
    assert_eq!(r.highlighting(), &vec![Type::Normal, Type::Normal, c, c, c, c]);
}

#[test]
fn carried_comment_closes_or_stays_open() {
    let opts = HighlightingOptions::new(false, false, false, true, vec![], vec![]);
    let mut r = Row::from("a */b");
    let open = r.highlight(&opts, None, true);
    assert!(!open);
    let c = Type::Comment;
    assert_eq!(r.highlighting(), &vec![c, c, c, c, Type::Normal]);
    let mut s = Row::from("still");
    assert!(s.highlight(&opts, None, true));
    assert!(s.highlighting().iter().all(|t| *t == Type::Comment));
}

#[test]
fn string_escape_keeps_quote_inside() {
    let opts = HighlightingOptions::new(false, true, false, false, vec![], vec![]);
    let mut r = Row::from(r#""a\"b" c"#);
    r.highlight(&opts, None, false);
    let s = Type::String;
    let n = Type::Normal;
    assert_eq!(r.highlighting(), &vec![s, s, s, s, s, s, n, n]);
}

#[test]
fn unterminated_string_runs_to_end() {
    let opts = HighlightingOptions::new(false, true, false, false, vec![], vec![]);
    let mut r = Row::from("x \"ab");
    r.highlight(&opts, None, false);
    let s = Type::String;
    assert_eq!(r.highlighting(), &vec![Type::Normal, Type::Normal, s, s, s]);
}

#[test]
fn character_literals() {
    let opts = HighlightingOptions::new(false, false, true, false, vec![], vec![]);
    let mut r = Row::from(r"'a' '\n' 'ab'");
    r.highlight(&opts, None, false);
    let c = Type::Character;
    let n = Type::Normal;
    assert_eq!(
        r.highlighting(),
        &vec![c, c, c, n, c, c, c, c, n, n, n, n, n]
    );
}

#[test]
fn numbers_take_one_decimal_point() {
    let opts = HighlightingOptions::new(true, false, false, false, vec![], vec![]);
    let mut r = Row::from("1.2.3 a1");
    r.highlight(&opts, None, false);
    let d = Type::Number;
    let n = Type::Normal;
    assert_eq!(r.highlighting(), &vec![d, d, d, n, d, n, n, n]);
}

#[test]
fn search_word_overrides_other_tags() {
    let opts = HighlightingOptions::new(true, false, false, false, vec![], vec![]);
    let mut r = Row::from("12 ab 12");
    r.highlight(&opts, Some("12"), false);
    let m = Type::Match;
    let n = Type::Normal;
    assert_eq!(r.highlighting(), &vec![m, m, n, n, n, n, m, m]);
}

#[test]
fn empty_search_word_marks_nothing() {
    let opts = HighlightingOptions::default();
    let mut r = Row::from("ab");
    r.highlight(&opts, Some(""), false);
    assert_eq!(r.highlighting(), &vec![Type::Normal, Type::Normal]);
}

#[test]
fn highlighting_twice_gives_same_tags() {
    let opts = HighlightingOptions::new(true, true, true, true, vec!["if".to_string()], vec![]);
    let mut r = Row::from("if x == \"s\" { 3 } // c");
    let a = r.highlight(&opts, Some("x"), false);
    let first = r.highlighting().clone();
    let b = r.highlight(&opts, Some("x"), false);
    assert_eq!(a, b);
    assert_eq!(&first, r.highlighting());
}

#[test]
fn colors_of_tags() {
    assert_eq!(Type::Number.to_color(), (220, 163, 163));
    assert_eq!(Type::Match.to_color(), (38, 139, 210));
    assert_eq!(Type::Normal.to_color(), (255, 255, 255));
}
