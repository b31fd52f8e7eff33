use bagr::io::{LineReader, TagLineReader};

fn all_lines(mut reader: LineReader) -> Vec<String> {
    let mut lines = Vec::new();
    while let Some(line) = reader.next_line() {
        if let Ok(line) = line {
            lines.push(line);
        }
    }
    lines
}

fn all_tag_lines(mut reader: TagLineReader) -> Vec<String> {
    let mut lines = Vec::new();
    while let Some(line) = reader.next_tag_line() {
        if let Ok(line) = line {
            lines.push(line);
        }
    }
    lines
}

#[test]
fn read_lines_with_different_endings_no_endline() {
    let input = "line 1\rline 2\r\rline 3\r\nline 4\nline 5\rline 6\r\nline 7\n\rline 8";
    let reader = LineReader::new(input.as_bytes().to_vec());

    let lines: Vec<String> = all_lines(reader);

    assert_eq!(
        vec![
            "line 1", "line 2", "", "line 3", "line 4", "line 5", "line 6", "line 7", "",
            "line 8"
        ],
        lines
    );
}

#[test]
fn read_lines_with_different_endings() {
    let input = "\r\nline 1\rline 2\r\nline 3\n";
    let reader = LineReader::new(input.as_bytes().to_vec());

    let lines: Vec<String> = all_lines(reader);

    assert_eq!(vec!["", "line 1", "line 2", "line 3"], lines);
}

#[test]
fn read_multi_line_tags() {
    let input =
        "tag-1: normal tag\ntag-2: 1\r 2\n\t3\r\ntag-3:\t4\n   5\n  \n \t 6\ntag-4: end";
    let reader = TagLineReader::new(input.as_bytes().to_vec());

    let lines: Vec<String> = all_tag_lines(reader);

    assert_eq!(
        vec![
            "tag-1: normal tag",
            "tag-2: 1 2 3",
            "tag-3:\t4 5  6",
            "tag-4: end"
        ],
        lines
    );
}

#[test]
fn lone_carriage_return_ends_an_empty_line() {
    let lines = all_lines(LineReader::new(b"\r".to_vec()));
    assert_eq!(vec![""], lines);
}

#[test]
fn empty_input_has_no_lines() {
    assert!(all_lines(LineReader::new(Vec::new())).is_empty());
    assert!(all_tag_lines(TagLineReader::new(Vec::new())).is_empty());
}

#[test]
fn invalid_utf8_is_reported_for_its_line() {
    let mut reader = LineReader::new(vec![b'a', b'\n', 0xff, b'\r', b'b']);
    assert_eq!("a", reader.next_line().unwrap().unwrap());
    match reader.next_line() {
        Some(Err(bagr::Error::InvalidString { .. })) => {}
        other => panic!("unexpected {:?}", other),
    }
    assert_eq!("b", reader.next_line().unwrap().unwrap());
    assert!(reader.next_line().is_none());
}

#[test]
fn tag_reading_stops_at_an_undecodable_line() {
    let mut reader = TagLineReader::new(b"a: 1\nb: 2\n\xff\nc: 3\n".to_vec());
    assert_eq!("a: 1", reader.next_tag_line().unwrap().unwrap());
    assert!(matches!(reader.next_tag_line(), Some(Err(bagr::Error::InvalidString { .. }))));
    assert!(reader.next_tag_line().is_none());
}

#[test]
fn tag_lines_count_non_continuation_lines() {
    let input = " leading\nlabel: a\n b\n\tc\nother: d\n";
    let lines = all_tag_lines(TagLineReader::new(input.as_bytes().to_vec()));
    assert_eq!(vec![" leading", "label: a b c", "other: d"], lines);
}
