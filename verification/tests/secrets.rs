use kettd::ai::{base64_decode, base64_encode, InMemoryKeeper, SecretsKeeper};

#[test]
fn in_memory_keeper_crud() {
    let mut k = InMemoryKeeper::new();
    k.save("test", "hello").unwrap();
    assert_eq!(k.load("test"), Some("hello".into()));
    k.delete("test").unwrap();
    assert_eq!(k.load("test"), None);
}

#[test]
fn in_memory_keeper_overwrite() {
    let mut k = InMemoryKeeper::new();
    k.save("key", "v1").unwrap();
    k.save("key", "v2").unwrap();
    assert_eq!(k.load("key"), Some("v2".into()));
}

#[test]
fn base64_round_trip() {
    let original = b"Hello, world! 1234567890";
    let encoded = base64_encode(original);
    let decoded = base64_decode(&encoded).unwrap();
    assert_eq!(decoded, original);
}

#[test]
fn base64_empty() {
    let encoded = base64_encode(b"");
    let decoded = base64_decode(&encoded).unwrap();
    assert!(decoded.is_empty());
}

#[test]
fn base64_encode_pads_short_groups() {
    assert_eq!(base64_encode(b"A"), "QQ==");
    assert_eq!(base64_encode(b"AB"), "QUI=");
    assert_eq!(base64_encode(b"ABC"), "QUJD");
}

#[test]
fn base64_decode_of_padded_group_keeps_only_whole_groups() {
    // A short last group yields one byte per digit past the first, from the
    // high bits of what was read: "QQ==" gives one zero byte.
    assert_eq!(base64_decode("QQ==").unwrap(), vec![0u8]);
    assert_eq!(base64_decode(" QUJD\n").unwrap(), b"ABC".to_vec());
}

#[test]
fn base64_decode_rejects_foreign_characters() {
    assert_eq!(base64_decode("QU*D"), Err("invalid base64".to_string()));
    assert!(base64_decode("QUJé").is_err());
}

#[test]
fn keeper_delete_of_missing_key_is_fine() {
    let mut k = InMemoryKeeper::new();
    assert!(k.delete("none").is_ok());
    k.save("a", "1").unwrap();
    k.save("b", "2").unwrap();
    k.delete("a").unwrap();
    assert_eq!(k.load("a"), None);
    assert_eq!(k.load("b"), Some("2".into()));
}
