use ray_tracer::mesh_text::{parse_index, parse_record, resolve_face, split_words, LoadError, Record, Span};

fn words_of(line: &str) -> Vec<&str> {
    let spans = split_words(line.as_bytes(), 0);
    spans.iter().map(|s| &line[s.start..s.end]).collect()
}

#[test]
fn words_split_on_whitespace() {
    assert_eq!(words_of("  a bb\tccc \r\n d"), vec!["a", "bb", "ccc", "d"]);
    assert_eq!(words_of(""), Vec::<&str>::new());
    assert_eq!(words_of(" \t "), Vec::<&str>::new());
    assert_eq!(words_of("one"), vec!["one"]);
    let line = "v 1 22";
    assert_eq!(split_words(line.as_bytes(), 2), vec![Span { start: 2, end: 3 }, Span { start: 4, end: 6 }]);
}

#[test]
fn index_words() {
    assert_eq!(parse_index(b"0"), Some(0));
    assert_eq!(parse_index(b"42"), Some(42));
    assert_eq!(parse_index(b"+7"), Some(7));
    assert_eq!(parse_index(b"007"), Some(7));
    assert_eq!(parse_index(b"+"), None);
    assert_eq!(parse_index(b""), None);
    assert_eq!(parse_index(b"-1"), None);
    assert_eq!(parse_index(b"1/2"), None);
    assert_eq!(parse_index(b"3.0"), None);
    assert_eq!(parse_index(b"18446744073709551615"), Some(usize::MAX));
    assert_eq!(parse_index(b"18446744073709551616"), None);
    assert_eq!(parse_index(b"99999999999999999999999"), None);
}

#[test]
fn vertex_record() {
    let line = "v 0.5 -1.25 3";
    match parse_record(line.as_bytes()) {
        Ok(Record::Vertex(spans)) => {
            let words: Vec<&str> = spans.iter().map(|s| &line[s.start..s.end]).collect();
            assert_eq!(words, vec!["0.5", "-1.25", "3"]);
        }
        other => panic!("unexpected {:?}", other),
    }
}

#[test]
fn face_records() {
    assert!(matches!(parse_record(b"f 1 2 3"), Ok(Record::Face(1, 2, 3))));
    assert!(matches!(parse_record(b"f  4\t5 6 "), Ok(Record::Face(4, 5, 6))));
    assert!(matches!(parse_record(b"f 1 x 2 3"), Ok(Record::Face(1, 2, 3))));
    assert!(matches!(parse_record(b"f +1 2 3"), Ok(Record::Face(1, 2, 3))));
    assert!(matches!(parse_record(b"f 1 2"), Err(LoadError::FaceArity)));
    assert!(matches!(parse_record(b"f 1 2 3 4"), Err(LoadError::FaceArity)));
    assert!(matches!(parse_record(b"f 1 2 99999999999999999999999"), Err(LoadError::FaceArity)));
}

#[test]
fn malformed_records() {
    assert!(matches!(parse_record(b""), Err(LoadError::MissingSeparator)));
    assert!(matches!(parse_record(b"v"), Err(LoadError::MissingSeparator)));
    assert!(matches!(parse_record(b"vt 0.1 0.2"), Err(LoadError::UnknownRecord)));
    assert!(matches!(parse_record(b"# comment"), Err(LoadError::UnknownRecord)));
    assert!(matches!(parse_record(b" v 1 2 3"), Err(LoadError::UnknownRecord)));
}

#[test]
fn face_indices_resolve() {
    assert_eq!(resolve_face(3, 1, 2, 3), Ok((0, 1, 2)));
    assert_eq!(resolve_face(3, 3, 3, 1), Ok((2, 2, 0)));
    assert_eq!(resolve_face(3, 0, 1, 2), Err(LoadError::IndexOutOfRange));
    assert_eq!(resolve_face(3, 1, 4, 2), Err(LoadError::IndexOutOfRange));
    assert_eq!(resolve_face(0, 1, 1, 1), Err(LoadError::IndexOutOfRange));
}
