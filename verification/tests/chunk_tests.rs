use libai_store::Chunk;

#[test]
fn test_chunk_creation() {
    let chunk = Chunk::new(
        "chunk-1".to_string(),
        "doc-123".to_string(),
        "Este es un texto de prueba".to_string(),
        0,
        1,
    );

    assert_eq!(chunk.id, "chunk-1");
    assert_eq!(chunk.document_id, "doc-123");
    assert_eq!(chunk.text, "Este es un texto de prueba");
    assert_eq!(chunk.index, 0);
    assert_eq!(chunk.page_number, 1);
    assert_eq!(chunk.char_count, 26);
    assert!(chunk.metadata.is_none());
}

#[test]
fn test_chunk_with_metadata() {
    let chunk = Chunk::new(
        "chunk-1".to_string(),
        "doc-123".to_string(),
        "Texto".to_string(),
        0,
        1,
    )
    .with_metadata(r#"{"key": "value"}"#.to_string());

    assert!(chunk.metadata.is_some());
    assert_eq!(chunk.metadata.unwrap(), r#"{"key": "value"}"#);
}

#[test]
fn test_chunk_is_empty() {
    let empty_chunk = Chunk::new(
        "chunk-1".to_string(),
        "doc-123".to_string(),
        "   ".to_string(),
        0,
        1,
    );

    let non_empty_chunk = Chunk::new(
        "chunk-2".to_string(),
        "doc-123".to_string(),
        "Texto con contenido".to_string(),
        0,
        1,
    );

    assert!(empty_chunk.is_empty());
    assert!(!non_empty_chunk.is_empty());
}

#[test]
fn test_chunk_is_empty_on_empty_text() {
    let chunk = Chunk::new(
        "chunk-1".to_string(),
        "doc-123".to_string(),
        String::new(),
        0,
        1,
    );
    assert!(chunk.is_empty());
    assert_eq!(chunk.char_count, 0);
}

#[test]
fn test_chunk_char_count() {
    let chunk1 = Chunk::new(
        "chunk-1".to_string(),
        "doc-1".to_string(),
        "Hola".to_string(),
        0,
        1,
    );
    assert_eq!(chunk1.char_count, 4);

    let chunk2 = Chunk::new(
        "chunk-2".to_string(),
        "doc-1".to_string(),
        "Este es un texto más largo con múltiples palabras".to_string(),
        0,
        1,
    );
    assert_eq!(chunk2.char_count, 49);

    let chunk3 = Chunk::new(
        "chunk-3".to_string(),
        "doc-1".to_string(),
        "Hola ñoño".to_string(),
        0,
        1,
    );
    assert_eq!(chunk3.char_count, 9);
}
