use deci::{Document, FileType, HighlightingOptions, Position, SearchDirection, Type};

fn row_text(d: &Document, y: usize) -> String {
    String::from_utf8(d.row(y).unwrap().as_bytes().to_vec()).unwrap()
}

#[test]
fn open_splits_on_line_feeds() {
    let d = Document::from_contents("notes.txt", "one\ntwo\n\nfour");
    assert_eq!(d.len(), 4);
    assert_eq!(row_text(&d, 0), "one");
    assert_eq!(row_text(&d, 2), "");
    assert_eq!(row_text(&d, 3), "four");
    assert!(!d.is_dirty());
    assert_eq!(d.file_name.as_deref(), Some("notes.txt"));
    assert_eq!(d.file_type(), "No filetype");
}

#[test]
fn open_keeps_carriage_returns() {
    let d = Document::from_contents("a.txt", "a\r\nb\r\n");
    assert_eq!(d.len(), 2);
    assert_eq!(row_text(&d, 0), "a\r");
    assert_eq!(d.contents(), "a\r\nb\r\n");
}

#[test]
fn save_after_open_round_trips() {
    for c in ["", "\n", "a\n", "one\ntwo\n\n", "日本\ne\u{301}\n"] {
        let d = Document::from_contents("f.txt", c);
        assert_eq!(d.contents(), c);
    }
}

#[test]
fn save_adds_final_line_feed() {
    let d = Document::from_contents("f.txt", "a\nb");
    assert_eq!(d.contents(), "a\nb\n");
}

#[test]
fn empty_document_has_no_rows() {
    let d = Document::default();
    assert!(d.is_empty());
    assert_eq!(d.len(), 0);
    assert!(d.row(0).is_none());
    assert!(d.file_name.is_none());
}

#[test]
fn typing_into_empty_document_adds_row() {
    let mut d = Document::default();
    d.insert(&Position { x: 0, y: 0 }, 'a');
    assert_eq!(d.len(), 1);
    assert_eq!(row_text(&d, 0), "a");
    assert!(d.is_dirty());
}

#[test]
fn insert_beyond_last_row_is_noop() {
    let mut d = Document::default();
    d.insert(&Position { x: 0, y: 1 }, 'a');
    assert_eq!(d.len(), 0);
    assert!(!d.is_dirty());
}

#[test]
fn insert_into_row() {
    let mut d = Document::from_contents("f.txt", "ac\n");
    d.insert(&Position { x: 1, y: 0 }, 'b');
    assert_eq!(row_text(&d, 0), "abc");
    assert!(d.is_dirty());
}

#[test]
fn newline_splits_row() {
    let mut d = Document::from_contents("f.txt", "abcd\nz\n");
    d.insert(&Position { x: 2, y: 0 }, '\n');
    assert_eq!(d.len(), 3);
    assert_eq!(row_text(&d, 0), "ab");
    assert_eq!(row_text(&d, 1), "cd");
    assert_eq!(row_text(&d, 2), "z");
}

#[test]
fn newline_after_last_row_adds_empty_row() {
    let mut d = Document::from_contents("f.txt", "a\n");
    d.insert(&Position { x: 0, y: 1 }, '\n');
    assert_eq!(d.len(), 2);
    assert_eq!(row_text(&d, 1), "");
}

#[test]
fn delete_at_end_of_last_row_is_noop() {
    let mut d = Document::from_contents("f.txt", "a\n");
    d.delete(&Position { x: 3, y: 0 });
    assert_eq!(d.len(), 1);
    assert_eq!(row_text(&d, 0), "a");
}

#[test]
fn delete_at_end_of_row_joins_next() {
    let mut d = Document::from_contents("f.txt", "a\nb\n");
    d.delete(&Position { x: 1, y: 0 });
    assert_eq!(d.len(), 1);
    assert_eq!(row_text(&d, 0), "ab");
    assert_eq!(d.row(0).unwrap().len(), 2);
    assert!(d.is_dirty());
}

#[test]
fn delete_inside_row() {
    let mut d = Document::from_contents("f.txt", "abc\n");
    d.delete(&Position { x: 1, y: 0 });
    assert_eq!(row_text(&d, 0), "ac");
}

#[test]
fn delete_out_of_range_is_noop() {
    let mut d = Document::from_contents("f.txt", "abc\n");
    d.delete(&Position { x: 0, y: 1 });
    assert_eq!(row_text(&d, 0), "abc");
    assert!(!d.is_dirty());
}

#[test]
fn find_forward_across_rows() {
    let d = Document::from_contents("f.txt", "abc\nxx abc\n");
    assert_eq!(
        d.find("abc", &Position { x: 0, y: 0 }, SearchDirection::Forward),
        Some(Position { x: 0, y: 0 })
    );
    assert_eq!(
        d.find("abc", &Position { x: 1, y: 0 }, SearchDirection::Forward),
        Some(Position { x: 3, y: 1 })
    );
    assert_eq!(
        d.find("abc", &Position { x: 4, y: 1 }, SearchDirection::Forward),
        None
    );
}

#[test]
fn find_backward_across_rows() {
    let d = Document::from_contents("f.txt", "abc\nxx abc\nq\n");
    assert_eq!(
        d.find("abc", &Position { x: 1, y: 2 }, SearchDirection::Backward),
        Some(Position { x: 3, y: 1 })
    );
    assert_eq!(
        d.find("abc", &Position { x: 3, y: 1 }, SearchDirection::Backward),
        Some(Position { x: 0, y: 0 })
    );
}

#[test]
fn find_backward_without_match() {
    let d = Document::from_contents("f.txt", "abc\ndef\n");
    assert_eq!(
        d.find("hello", &Position { x: 0, y: 0 }, SearchDirection::Backward),
        None
    );
    assert_eq!(
        d.find("hello", &Position { x: 3, y: 1 }, SearchDirection::Backward),
        None
    );
}

#[test]
fn find_empty_query_in_document() {
    let d = Document::from_contents("f.txt", "abc\ndef\n");
    assert_eq!(d.find("", &Position { x: 0, y: 0 }, SearchDirection::Forward), None);
    assert_eq!(d.find("", &Position { x: 2, y: 1 }, SearchDirection::Backward), None);
}

#[test]
fn successive_forward_finds_advance() {
    let d = Document::from_contents("f.txt", "ab ab\nab\n");
    let mut at = Position { x: 0, y: 0 };
    let mut found = Vec::new();
    while let Some(p) = d.find("ab", &at, SearchDirection::Forward) {
        found.push(p);
        at = Position { x: p.x + 2, y: p.y };
        assert!(found.len() <= 3);
    }
    assert_eq!(
        found,
        vec![
            Position { x: 0, y: 0 },
            Position { x: 3, y: 0 },
            Position { x: 0, y: 1 }
        ]
    );
}

#[test]
fn rust_file_type() {
    let f = FileType::from("main.rs");
    assert_eq!(f.name(), "Rust");
    let o = f.highlighting_options();
    assert!(o.numbers() && o.strings() && o.characters() && o.comments());
    let g = FileType::from("main.rs.txt");
    assert_eq!(g.name(), "No filetype");
    assert!(!g.highlighting_options().numbers());
}

#[test]
fn rust_document_is_highlighted_on_open() {
    let d = Document::from_contents("x.rs", "// start of comment\nstill commented\n");
    assert_eq!(d.file_type(), "Rust");
    assert!(d.row(0).unwrap().highlighting().iter().all(|t| *t == Type::Comment));
    assert!(d.row(1).unwrap().highlighting().iter().all(|t| *t == Type::Normal));
}

#[test]
fn line_comment_does_not_continue() {
    let opts = HighlightingOptions::new(false, false, false, true, vec![], vec![]);
    let mut first = deci::Row::from("// start of comment");
    let open = first.highlight(&opts, None, false);
    assert!(!open);
    assert!(first.highlighting().iter().all(|t| *t == Type::Comment));
    let mut second = deci::Row::from("still commented");
    second.highlight(&opts, None, open);
    assert!(second.highlighting().iter().all(|t| *t == Type::Normal));
}

#[test]
fn highlight_marks_search_word_in_every_row() {
    let mut d = Document::from_contents("f.txt", "ab\nxab\n");
    d.highlight(Some("ab"));
    let m = Type::Match;
    assert_eq!(d.row(0).unwrap().highlighting(), &vec![m, m]);
    assert_eq!(d.row(1).unwrap().highlighting(), &vec![Type::Normal, m, m]);
    d.highlight(None);
    assert_eq!(d.row(0).unwrap().highlighting(), &vec![Type::Normal, Type::Normal]);
}

#[test]
fn edited_row_is_highlighted() {
    let mut d = Document::from_contents("x.rs", "1\n");
    d.insert(&Position { x: 1, y: 0 }, '2');
    assert_eq!(d.row(0).unwrap().highlighting(), &vec![Type::Number, Type::Number]);
}

#[test]
fn mark_saved_clears_dirty() {
    let mut d = Document::from_contents("f.txt", "a\n");
    d.insert(&Position { x: 0, y: 0 }, 'b');
    assert!(d.is_dirty());
    d.file_name = Some("g.rs".to_string());
    d.mark_saved();
    assert!(!d.is_dirty());
    assert_eq!(d.file_type(), "Rust");
}

#[test]
fn mark_saved_without_name_does_nothing() {
    let mut d = Document::default();
    d.insert(&Position { x: 0, y: 0 }, 'a');
    d.mark_saved();
    assert!(d.is_dirty());
}

#[test]
fn delete_past_end_of_row_joins_next() {
    let mut d = Document::from_contents("f.txt", "a\nb\n");
    d.delete(&Position { x: 3, y: 0 });
    assert_eq!(d.len(), 1);
    assert_eq!(row_text(&d, 0), "ab");
    assert_eq!(d.row(0).unwrap().len(), 2);
}

#[test]
fn insert_then_delete_restores_document() {
    let original = ["ab", "日本", ""];
    for y in 0..3 {
        for x in 0..=original[y].chars().count() {
            for c in ['z', '\n'] {
                let mut d = Document::from_contents("f.txt", "ab\n日本\n\n");
                d.insert(&Position { x, y }, c);
                d.delete(&Position { x, y });
                assert_eq!(d.len(), 3);
                for (i, text) in original.iter().enumerate() {
                    assert_eq!(row_text(&d, i), *text);
                    assert_eq!(d.row(i).unwrap().len(), text.chars().count());
                }
            }
        }
    }
}
