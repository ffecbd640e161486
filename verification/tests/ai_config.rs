use kettd::ai::{
    connection_target, get_ai_status_cmd, mask_key, set_ai_config_cmd, AiConfig, AiConfigPatch, InMemoryKeeper,
    SecretsKeeper,
};

#[test]
fn set_then_get_round_trip() {
    let mut keeper = InMemoryKeeper::new();
    let patch = AiConfigPatch {
        base_url: Some("https://api.test.com".into()),
        model: Some("m1".into()),
        api_key: Some("sk-test1234".into()),
        enabled: Some(true),
        ..Default::default()
    };
    let status = set_ai_config_cmd(&mut keeper, patch).unwrap();
    assert!(status.enabled);
    assert!(status.chat.configured);
    assert_eq!(status.key_mask, Some("sk-***1234".into()));

    let status2 = get_ai_status_cmd(&keeper);
    assert!(status2.chat.configured);
    assert_eq!(status2.chat.model, Some("m1".into()));
}

#[test]
fn mask_key_empty_returns_none() {
    assert_eq!(mask_key(""), None);
}

#[test]
fn mask_key_short() {
    assert_eq!(mask_key("ab"), Some("**".into()));
}

#[test]
fn mask_key_normal() {
    assert_eq!(mask_key("sk-1234567890"), Some("sk-***7890".into()));
}

#[test]
fn patch_preserves_unset_fields() {
    let mut keeper = InMemoryKeeper::new();
    set_ai_config_cmd(&mut keeper, AiConfigPatch {
        base_url: Some("https://a.com".into()),
        model: Some("m1".into()),
        api_key: Some("k1".into()),
        enabled: Some(true),
        ..Default::default()
    })
    .unwrap();
    set_ai_config_cmd(&mut keeper, AiConfigPatch { model: Some("m2".into()), ..Default::default() }).unwrap();
    let status = get_ai_status_cmd(&keeper);
    assert_eq!(status.chat.model, Some("m2".into()));
    assert_eq!(status.chat.base_url, Some("https://a.com".into()));
    assert!(status.enabled);
}

#[test]
fn mask_key_multibyte_suffix_on_boundary() {
    // "abcdé": 'é' takes two bytes, so the last four bytes are "cdé".
    assert_eq!(mask_key("abcdé"), Some("sk-***cdé".into()));
}

#[test]
fn stored_config_is_compact_json_with_its_names_sorted() {
    let mut keeper = InMemoryKeeper::new();
    set_ai_config_cmd(&mut keeper, AiConfigPatch { model: Some("m\"1".into()), ..Default::default() }).unwrap();
    assert_eq!(
        keeper.load("ai_config").unwrap(),
        "{\"api_key\":\"\",\"base_url\":\"\",\"embedding_api_key\":\"\",\"embedding_base_url\":\"\",\"embedding_model\":\"\",\"enabled\":false,\"model\":\"m\\\"1\"}"
    );
}

#[test]
fn unreadable_stored_config_reads_as_empty() {
    let mut keeper = InMemoryKeeper::new();
    keeper.save("ai_config", "{\"model\":\"x\"}").unwrap();
    let status = get_ai_status_cmd(&keeper);
    assert_eq!(status.chat.model, None);
    assert!(!status.enabled);
}

#[test]
fn connection_target_checks_track_and_completeness() {
    let mut config = AiConfig::default();
    let unknown = connection_target(&config, "other").unwrap_err();
    assert!(!unknown.ok);
    assert_eq!(unknown.message, "未知 track: other");
    let missing = connection_target(&config, "chat").unwrap_err();
    assert_eq!(missing.message, "chat 轨未配置完整");
    config.base_url = "https://a.com//".into();
    config.model = "m".into();
    config.api_key = "k".into();
    let (url, model, key) = connection_target(&config, "chat").unwrap();
    assert_eq!(url, "https://a.com/chat/completions");
    assert_eq!((model.as_str(), key.as_str()), ("m", "k"));
}

#[test]
fn a_config_written_in_field_order_reads_back_the_same() {
    let mut keeper = InMemoryKeeper::new();
    keeper
        .save(
            "ai_config",
            "{\"base_url\":\"https://a.com\",\"model\":\"m1\",\"api_key\":\"k1234\",\"embedding_base_url\":\"\",\"embedding_model\":\"\",\"embedding_api_key\":\"\",\"enabled\":true}",
        )
        .unwrap();
    let status = get_ai_status_cmd(&keeper);
    assert_eq!(status.chat.model.as_deref(), Some("m1"));
    assert_eq!(status.chat.base_url.as_deref(), Some("https://a.com"));
    assert!(status.chat.configured && status.enabled);
    assert_eq!(status.key_mask.as_deref(), Some("sk-***1234"));
}

#[test]
fn quotes_and_line_breaks_in_a_saved_value_come_back_unchanged() {
    let mut keeper = InMemoryKeeper::new();
    let model = "a \"quoted\"\nmodel\\name";
    set_ai_config_cmd(&mut keeper, AiConfigPatch { model: Some(model.into()), ..Default::default() }).unwrap();
    let status = get_ai_status_cmd(&keeper);
    assert_eq!(status.chat.model.as_deref(), Some(model));
}
