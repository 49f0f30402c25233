use index_executor::plan::Thing;

fn thing(tb: &str, id: &str) -> Thing {
    Thing { tb: tb.to_string(), id: id.to_string() }
}

#[test]
fn key_of_a_document() {
    assert_eq!(thing("person", "tobie").document_key(), Ok(b"\x01\x06person\x05tobie".to_vec()));
    assert_eq!(thing("", "").document_key(), Ok(vec![1, 0, 0]));
    assert_eq!(thing("t", "\u{e9}\u{20ac}").document_key(), Ok(b"\x01\x01t\x05\xc3\xa9\xe2\x82\xac".to_vec()));
}

#[test]
fn key_with_long_texts() {
    let long = "a".repeat(250);
    let key = thing("t", &long).document_key().unwrap();
    assert_eq!(key[..4], [1, 1, b't', 250]);
    let longer = "a".repeat(251);
    let key = thing("t", &longer).document_key().unwrap();
    assert_eq!(key[..6], [1, 1, b't', 251, 251, 0]);
    assert_eq!(key.len(), 6 + 251);
    let longest = "a".repeat(0x1_0203);
    let key = thing("t", &longest).document_key().unwrap();
    assert_eq!(key[..8], [1, 1, b't', 252, 3, 2, 1, 0]);
    assert_eq!(key.len(), 8 + 0x1_0203);
}

#[test]
fn records_have_different_keys() {
    assert_ne!(thing("ab", "c").document_key(), thing("a", "bc").document_key());
    assert_ne!(thing("a", "").document_key(), thing("", "a").document_key());
    assert_eq!(thing("a", "b").document_key(), thing("a", "b").document_key());
}
