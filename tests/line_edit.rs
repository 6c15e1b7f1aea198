use std::path::PathBuf;

use line_edit::{Change, EditError, File, LineAwareFile};

fn buffer(lines: &[&str]) -> LineAwareFile {
    LineAwareFile::from_lines(lines.iter().map(|l| l.to_string()).collect())
}

fn lines_of(b: &LineAwareFile) -> Vec<&str> {
    b.contents.iter().map(|l| l.as_str()).collect()
}

#[test]
fn parse_splits_on_terminators() {
    let b = LineAwareFile::parse("a\nb\nc");
    assert_eq!(lines_of(&b), vec!["a", "b", "c"]);
    assert_eq!(b.len(), 3);
}

#[test]
fn parse_keeps_trailing_empty_line() {
    let b = LineAwareFile::parse("a\nb\n");
    assert_eq!(lines_of(&b), vec!["a", "b", ""]);
}

#[test]
fn parse_empty_text_is_one_empty_line() {
    let b = LineAwareFile::parse("");
    assert_eq!(lines_of(&b), vec![""]);
    assert_eq!(b.to_text(), "");
}

#[test]
fn parse_keeps_carriage_returns_and_unicode() {
    let b = LineAwareFile::parse("é\r\n\nü");
    assert_eq!(lines_of(&b), vec!["é\r", "", "ü"]);
}

#[test]
fn round_trip_text() {
    for s in ["", "a", "a\nb", "a\n\nb\n", "\n", "héllo\nwörld"] {
        assert_eq!(LineAwareFile::parse(s).to_text(), s);
    }
}

#[test]
fn round_trip_lines() {
    let b = buffer(&["x", "", "y"]);
    let again = LineAwareFile::parse(&b.to_text());
    assert_eq!(lines_of(&again), vec!["x", "", "y"]);
}

#[test]
fn to_text_joins_without_trailing_terminator() {
    assert_eq!(buffer(&["a", "b", "c"]).to_text(), "a\nb\nc");
    assert_eq!(LineAwareFile::new().to_text(), "");
}

#[test]
fn to_text_twice_is_identical() {
    let b = buffer(&["one", "two"]);
    let first = b.to_text();
    let second = b.to_text();
    assert_eq!(first, second);
    assert_eq!(first, "one\ntwo");
}

#[test]
fn new_buffer_is_empty() {
    assert_eq!(LineAwareFile::new().len(), 0);
}

#[test]
fn get_finds_lines_and_refuses_others() {
    let b = buffer(&["a", "b"]);
    assert_eq!(b.get(1).unwrap(), "b");
    assert_eq!(b.get(2), Err(EditError::LineNotFound));
}

#[test]
fn dense_indexing_after_apply() {
    let b = buffer(&["a", "b", "c"]);
    let changes = vec![
        Change::Delete { at: 0 },
        Change::Insert { at: 1, content: "n".to_string() },
    ];
    let r = b.apply(&changes).unwrap();
    assert_eq!(r.len(), 3);
    for i in 0..r.len() {
        assert!(r.get(i).is_ok());
    }
    assert_eq!(r.get(3), Err(EditError::LineNotFound));
    assert_eq!(lines_of(&r), vec!["n", "b", "c"]);
}

#[test]
fn inserts_keep_batch_order_before_the_line() {
    let b = buffer(&["a", "b", "c"]);
    let changes = vec![
        Change::Insert { at: 2, content: "X".to_string() },
        Change::Insert { at: 2, content: "Y".to_string() },
    ];
    let r = b.apply(&changes).unwrap();
    assert_eq!(lines_of(&r), vec!["a", "b", "X", "Y", "c"]);
}

#[test]
fn insert_at_len_appends() {
    let b = buffer(&["a"]);
    let changes = vec![Change::Insert { at: 1, content: "z".to_string() }];
    assert_eq!(lines_of(&b.apply(&changes).unwrap()), vec!["a", "z"]);
}

#[test]
fn insert_into_empty_buffer() {
    let b = LineAwareFile::new();
    let changes = vec![Change::Insert { at: 0, content: "only".to_string() }];
    assert_eq!(lines_of(&b.apply(&changes).unwrap()), vec!["only"]);
}

#[test]
fn insert_beyond_len_is_refused() {
    let b = buffer(&["a"]);
    let changes = vec![Change::Insert { at: 2, content: "z".to_string() }];
    assert_eq!(b.apply(&changes).err(), Some(EditError::LineNotFound));
}

#[test]
fn delete_removes_the_line() {
    let b = buffer(&["a", "b", "c"]);
    let r = b.apply(&vec![Change::Delete { at: 1 }]).unwrap();
    assert_eq!(lines_of(&r), vec!["a", "c"]);
}

#[test]
fn replace_swaps_the_line() {
    let b = buffer(&["a", "b"]);
    let changes = vec![Change::Replace { at: 0, content: "z".to_string() }];
    assert_eq!(lines_of(&b.apply(&changes).unwrap()), vec!["z", "b"]);
}

#[test]
fn indices_address_the_lines_before_the_batch() {
    let b = buffer(&["a", "b", "c", "d"]);
    let changes = vec![
        Change::Delete { at: 0 },
        Change::Insert { at: 0, content: "new".to_string() },
        Change::Replace { at: 3, content: "D".to_string() },
        Change::Delete { at: 2 },
        Change::Insert { at: 4, content: "end".to_string() },
    ];
    let r = b.apply(&changes).unwrap();
    assert_eq!(lines_of(&r), vec!["new", "b", "D", "end"]);
}

#[test]
fn empty_batch_keeps_the_lines() {
    let b = buffer(&["a", "b"]);
    assert_eq!(lines_of(&b.apply(&vec![]).unwrap()), vec!["a", "b"]);
}

#[test]
fn failed_batch_leaves_buffer_unchanged() {
    let b = buffer(&["a", "b"]);
    let changes = vec![Change::Delete { at: 0 }, Change::Delete { at: 5 }];
    assert_eq!(b.apply(&changes).err(), Some(EditError::LineNotFound));
    assert_eq!(lines_of(&b), vec!["a", "b"]);
}

#[test]
fn replace_out_of_range_is_refused() {
    let b = buffer(&["a", "b"]);
    let changes = vec![Change::Replace { at: 2, content: "z".to_string() }];
    assert_eq!(b.apply(&changes).err(), Some(EditError::LineNotFound));
}

#[test]
fn delete_and_replace_of_one_line_conflict() {
    for lines in [vec!["a"], vec!["a", "b", "c"]] {
        let b = buffer(&lines);
        let changes = vec![
            Change::Delete { at: 0 },
            Change::Replace { at: 0, content: "z".to_string() },
        ];
        assert_eq!(b.apply(&changes).err(), Some(EditError::ConflictingChange));
    }
}

#[test]
fn two_replaces_of_one_line_conflict() {
    let b = buffer(&["a", "b"]);
    let changes = vec![
        Change::Replace { at: 1, content: "x".to_string() },
        Change::Replace { at: 1, content: "y".to_string() },
    ];
    assert_eq!(b.apply(&changes).err(), Some(EditError::ConflictingChange));
}

#[test]
fn two_deletes_of_one_line_delete_it_once() {
    let b = buffer(&["a", "b"]);
    let changes = vec![Change::Delete { at: 1 }, Change::Delete { at: 1 }];
    assert_eq!(lines_of(&b.apply(&changes).unwrap()), vec!["a"]);
}

#[test]
fn multi_line_content_is_refused() {
    let b = buffer(&["a", "b"]);
    let changes = vec![Change::Insert { at: 0, content: "x\ny".to_string() }];
    assert_eq!(b.apply(&changes).err(), Some(EditError::InvalidContent));
    let changes = vec![Change::Replace { at: 1, content: "\n".to_string() }];
    assert_eq!(b.apply(&changes).err(), Some(EditError::InvalidContent));
}

#[test]
fn range_is_checked_before_content_and_conflicts() {
    let b = buffer(&["a"]);
    let changes = vec![
        Change::Replace { at: 0, content: "x\ny".to_string() },
        Change::Delete { at: 0 },
        Change::Delete { at: 9 },
    ];
    assert_eq!(b.apply(&changes).err(), Some(EditError::LineNotFound));
    let changes = vec![
        Change::Replace { at: 0, content: "x\ny".to_string() },
        Change::Delete { at: 0 },
    ];
    assert_eq!(b.apply(&changes).err(), Some(EditError::InvalidContent));
}

#[test]
fn file_keeps_its_path_and_applies_changes() {
    let path = PathBuf::from("notes/todo.txt");
    let file = File::new(&path);
    assert_eq!(file.path(), &path);
    let b = LineAwareFile::parse("a\nb");
    let r = file
        .apply_changes(&b, &vec![Change::Replace { at: 1, content: "c".to_string() }])
        .unwrap();
    assert_eq!(r.to_text(), "a\nc");
}
