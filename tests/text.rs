use polars_chunked::{AppendError, ChunkIterator, Utf8Chunked, Utf8ChunkedBuilder, MAX_OFFSET};

fn drain_text(a: &Utf8Chunked) -> Vec<Option<String>> {
    let mut it = a.iter();
    let mut out = Vec::new();
    while let Some(v) = it.next_str() {
        out.push(v.map(|s| s.to_string()));
    }
    out
}

#[test]
fn text_values_round_trip() {
    let a = Utf8Chunked::from_str_values(&["a", "bc", "", "déjà"]).unwrap();
    assert_eq!(a.len(), 4);
    assert_eq!(a.name(), "");
    assert_eq!(
        drain_text(&a),
        vec![
            Some("a".to_string()),
            Some("bc".to_string()),
            Some(String::new()),
            Some("déjà".to_string())
        ]
    );
}

#[test]
fn text_builder_keeps_nulls_and_order() {
    let mut b = Utf8ChunkedBuilder::new("words", 4);
    assert_eq!(b.append_value("x"), Ok(()));
    b.append_null();
    assert_eq!(b.append_value("yz"), Ok(()));
    let a = b.finish();
    assert_eq!(a.name(), "words");
    assert_eq!(a.n_chunks(), 1);
    assert_eq!(drain_text(&a), vec![Some("x".to_string()), None, Some("yz".to_string())]);
}

#[test]
fn text_iteration_terminates_idempotently() {
    let a = Utf8Chunked::from_str_values(&[]).unwrap();
    let mut it = a.iter();
    for _ in 0..3 {
        assert_eq!(it.next_str(), None);
    }
}

#[test]
fn text_offset_overflow_is_reported() {
    let bytes = vec![0u8; MAX_OFFSET];
    let big = std::str::from_utf8(&bytes).unwrap();
    let mut b = Utf8ChunkedBuilder::new("big", 0);
    assert_eq!(b.append_value("ab"), Ok(()));
    assert_eq!(b.append_value(big), Err(AppendError::OffsetOverflow));
    assert_eq!(b.append_value("c"), Ok(()));
    let a = b.finish();
    assert_eq!(drain_text(&a), vec![Some("ab".to_string()), Some("c".to_string())]);
    assert_eq!(Utf8Chunked::from_str_values(&["ab", big]).unwrap_err(), AppendError::OffsetOverflow);
}
