use libai_store::Document;

#[test]
fn test_document_creation() {
    let doc = Document::new(
        "test-id".to_string(),
        "test.pdf".to_string(),
        "/path/to/test.pdf".to_string(),
        5,
    );

    assert_eq!(doc.id, "test-id");
    assert_eq!(doc.name, "test.pdf");
    assert_eq!(doc.page_count, 5);
    assert!(!doc.is_indexed);
    assert!(doc.created_at > 0);
}

#[test]
fn test_document_mark_as_indexed() {
    let mut doc = Document::new(
        "test-id".to_string(),
        "test.pdf".to_string(),
        "/path/to/test.pdf".to_string(),
        5,
    );

    assert!(!doc.is_indexed);
    doc.mark_as_indexed();
    assert!(doc.is_indexed);
}
