use kettd::kb::{create, delete, normalized_tags, search, update};
use kettd::models::KbItem;

fn item(id: &str, title: &str, body: &str, tags: &[&str], updated: &str) -> KbItem {
    KbItem {
        id: id.to_string(),
        title: title.to_string(),
        body_md: body.to_string(),
        tags: tags.iter().map(|t| t.to_string()).collect(),
        created_at: updated.to_string(),
        updated_at: updated.to_string(),
    }
}

#[test]
fn create_rejects_blank_title_and_normalizes_tags() {
    let mut items = Vec::new();
    assert!(create(&mut items, "k1".into(), "   ", "body", vec![], "t").is_err());
    let made = create(
        &mut items,
        "k1".into(),
        " Rust 教程 ",
        "  body  ",
        vec!["rust".to_string(), " rust ".to_string(), String::new(), "笔记".to_string()],
        "t1",
    )
    .unwrap();
    assert_eq!(made.title, "Rust 教程");
    assert_eq!(made.tags, vec!["rust", "笔记"], "去空白/去重/去空项");
}

#[test]
fn update_touches_only_given_fields_and_stamps() {
    let mut items = vec![item("k1", "旧题", "旧文", &["a"], "2026-09-01T09:00")];
    let updated = update(&mut items, "k1", Some("新题"), None, None, "2026-09-06T10:00").unwrap();
    assert_eq!(updated.title, "新题");
    assert_eq!(updated.body_md, "旧文", "未给的字段不动");
    assert_eq!(updated.updated_at, "2026-09-06T10:00");
    assert!(update(&mut items, "missing", Some("x"), None, None, "t").is_err());
}

#[test]
fn delete_reports_missing_and_removes() {
    let mut items = vec![item("k1", "t", "b", &[], "t")];
    assert!(delete(&mut items, "nope").is_err());
    assert!(delete(&mut items, "k1").unwrap());
    assert!(items.is_empty());
}

#[test]
fn search_ranks_title_over_body_and_is_case_insensitive() {
    let items = vec![
        item("k1", "周报模板", "随便写写 rust", &[], "2026-09-01T09:00"),
        item("k2", "Rust 入门", "安装 rustup", &["rust"], "2026-09-02T09:00"),
        item("k3", "购物清单", "牛奶 鸡蛋", &[], "2026-09-03T09:00"),
    ];
    let hits = search(&items, "RUST");
    assert_eq!(hits.first().unwrap(), "k2", "title+tag 双命中排最前");
    assert!(hits.contains(&"k1".to_string()), "body 命中也入选");
    assert!(!hits.contains(&"k3".to_string()), "无关条目不入选");
}

#[test]
fn search_empty_query_returns_all_recency_first() {
    let items = vec![item("k1", "a", "", &[], "2026-09-01T09:00"), item("k2", "b", "", &[], "2026-09-06T09:00")];
    assert_eq!(search(&items, "  "), vec!["k2".to_string(), "k1".to_string()]);
}

#[test]
fn create_refuses_beyond_the_item_limit() {
    let mut items: Vec<KbItem> = (0..5000).map(|i| item(&format!("k{}", i), "t", "", &[], "t")).collect();
    let err = create(&mut items, "x".into(), "title", "", vec![], "t").unwrap_err();
    assert_eq!(err, "知识条目已达上限，请先清理不需要的条目");
    assert_eq!(items.len(), 5000);
}

#[test]
fn update_rejects_blank_title_without_change() {
    let mut items = vec![item("k1", "旧题", "旧文", &[], "t0")];
    assert_eq!(update(&mut items, "k1", Some("  "), Some("新文"), None, "t1").unwrap_err(), "标题不能为空");
    assert_eq!(items[0].body_md, "旧文");
    assert_eq!(items[0].updated_at, "t0");
}

#[test]
fn delete_removes_every_item_with_the_id() {
    let mut items = vec![item("k1", "a", "", &[], "t"), item("k2", "b", "", &[], "t"), item("k1", "c", "", &[], "t")];
    assert!(delete(&mut items, "k1").unwrap());
    assert_eq!(items.len(), 1);
    assert_eq!(items[0].id, "k2");
}

#[test]
fn search_ties_keep_their_order() {
    let items = vec![item("k1", "x", "", &[], "t"), item("k2", "x", "", &[], "t")];
    assert_eq!(search(&items, "x"), vec!["k1".to_string(), "k2".to_string()]);
}

#[test]
fn tags_are_trimmed_deduped_in_first_order() {
    let tags = normalized_tags(vec![" b".into(), "a".into(), "b ".into(), " ".into()]);
    assert_eq!(tags, vec!["b".to_string(), "a".to_string()]);
}

#[test]
fn a_tag_hit_weighs_more_than_a_body_hit() {
    let items = vec![
        item("a", "x", "rust", &["rust"], "2026-09-01T09:00"),
        item("b", "rust", "", &[], "2026-09-02T09:00"),
    ];
    assert_eq!(search(&items, "rust"), vec!["a".to_string(), "b".to_string()]);
}
