use kettd::embedding::chunk_item;
use kettd::models::KbItem;

fn make_item(id: &str, title: &str, body: &str) -> KbItem {
    KbItem {
        id: id.to_string(),
        title: title.to_string(),
        body_md: body.to_string(),
        tags: vec![],
        created_at: "2026-01-01T00:00".to_string(),
        updated_at: "2026-01-01T00:00".to_string(),
    }
}

#[test]
fn chunk_item_splits_paragraphs() {
    let item = make_item("k1", "Title", "para1\n\npara2\n\npara3");
    let chunks = chunk_item(&item);
    assert!(chunks.len() >= 2, "should have title + at least one body chunk");
    assert_eq!(chunks[0].0, 0, "first chunk is title");
    assert_eq!(chunks[0].1, "Title");
}

#[test]
fn chunk_item_empty_body() {
    let item = make_item("k1", "Title", "");
    let chunks = chunk_item(&item);
    assert_eq!(chunks.len(), 1, "only title chunk");
}

#[test]
fn chunk_item_long_paragraph_splits() {
    let long_body = "word ".repeat(200);
    let item = make_item("k1", "T", &long_body);
    let chunks = chunk_item(&item);
    assert!(chunks.len() >= 2, "long paragraph should split");
}

#[test]
fn chunk_item_cuts_before_passing_six_hundred_bytes() {
    let a = "a".repeat(400);
    let b = "b".repeat(300);
    let body = format!("{}\n\n{}\n\nc", a, b);
    let chunks = chunk_item(&make_item("k", "  ", &body));
    assert_eq!(chunks.len(), 2);
    assert_eq!(chunks[0], (0, a.clone()));
    assert_eq!(chunks[1], (1, format!("{}\n\nc", b)));
}

#[test]
fn a_long_paragraph_is_cut_into_runs_of_six_hundred_characters() {
    let body = "字".repeat(1000);
    let chunks = chunk_item(&make_item("k", "T", &body));
    assert_eq!(chunks.len(), 3);
    assert_eq!(chunks[1], (1, "字".repeat(600)));
    assert_eq!(chunks[2], (2, "字".repeat(400)));
    assert!(chunks.iter().skip(1).all(|c| c.1.chars().count() <= 800));
}
