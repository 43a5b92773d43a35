use libai_store::codec::{
    deserialize_chunk, deserialize_document, serialize_chunk, serialize_document,
};
use libai_store::{Chunk, Document};

fn contains_subslice(haystack: &[u8], needle: &[u8]) -> bool {
    if needle.is_empty() {
        return true;
    }
    if haystack.len() < needle.len() {
        return false;
    }
    (0..=haystack.len() - needle.len()).any(|i| &haystack[i..i + needle.len()] == needle)
}

#[test]
fn test_chunk_serialization() {
    let chunk = Chunk::new(
        "chunk-1".to_string(),
        "doc-123".to_string(),
        "Texto del chunk".to_string(),
        5,
        2,
    );

    let bytes = serialize_chunk(&chunk);
    assert!(contains_subslice(&bytes, b"chunk-1"));
    assert!(contains_subslice(&bytes, b"doc-123"));
    assert!(contains_subslice(&bytes, b"Texto del chunk"));

    let chunk_deserialized = deserialize_chunk(&bytes).expect("Debe deserializar correctamente");

    assert_eq!(chunk.id, chunk_deserialized.id);
    assert_eq!(chunk.document_id, chunk_deserialized.document_id);
    assert_eq!(chunk.text, chunk_deserialized.text);
}

#[test]
fn test_chunk_roundtrip() {
    let original = Chunk::new(
        "chunk-123".to_string(),
        "doc-456".to_string(),
        "Contenido del chunk con texto más largo".to_string(),
        10,
        5,
    )
    .with_metadata(r#"{"extra": "data"}"#.to_string());

    let bytes = serialize_chunk(&original);
    let restored = deserialize_chunk(&bytes).unwrap();

    assert_eq!(original.id, restored.id);
    assert_eq!(original.document_id, restored.document_id);
    assert_eq!(original.text, restored.text);
    assert_eq!(original.index, restored.index);
    assert_eq!(original.page_number, restored.page_number);
    assert_eq!(original.char_count, restored.char_count);
    assert_eq!(original.metadata, restored.metadata);
}

#[test]
fn test_document_serialization() {
    let doc = Document::new(
        "test-id".to_string(),
        "test.pdf".to_string(),
        "/path/to/test.pdf".to_string(),
        5,
    );

    let bytes = serialize_document(&doc);
    assert!(contains_subslice(&bytes, b"test-id"));
    assert!(contains_subslice(&bytes, b"test.pdf"));

    let doc_deserialized = deserialize_document(&bytes).expect("Debe deserializar correctamente");

    assert_eq!(doc.id, doc_deserialized.id);
    assert_eq!(doc.name, doc_deserialized.name);
    assert_eq!(doc.page_count, doc_deserialized.page_count);
}

#[test]
fn test_document_roundtrip() {
    let original = Document::new(
        "doc-123".to_string(),
        "documento.pdf".to_string(),
        "/ruta/documento.pdf".to_string(),
        10,
    );

    let bytes = serialize_document(&original);
    let restored = deserialize_document(&bytes).unwrap();

    assert_eq!(original.id, restored.id);
    assert_eq!(original.name, restored.name);
    assert_eq!(original.file_path, restored.file_path);
    assert_eq!(original.page_count, restored.page_count);
    assert_eq!(original.created_at, restored.created_at);
    assert_eq!(original.is_indexed, restored.is_indexed);
}

#[test]
fn test_document_roundtrip_empty_strings() {
    let original = Document::new(String::new(), String::new(), String::new(), 0);
    let bytes = serialize_document(&original);
    let restored = deserialize_document(&bytes).unwrap();
    assert_eq!(original.id, restored.id);
    assert_eq!(original.name, restored.name);
    assert_eq!(original.file_path, restored.file_path);
    assert_eq!(original.page_count, restored.page_count);
}

#[test]
fn test_chunk_roundtrip_unicode_and_no_metadata() {
    let original = Chunk::new(
        "chunk-ñ".to_string(),
        "doc-ü".to_string(),
        "Hola ñoño — 日本語".to_string(),
        3,
        7,
    );
    let bytes = serialize_chunk(&original);
    let restored = deserialize_chunk(&bytes).unwrap();
    assert_eq!(original.id, restored.id);
    assert_eq!(original.document_id, restored.document_id);
    assert_eq!(original.text, restored.text);
    assert_eq!(original.metadata, restored.metadata);
}

#[test]
fn test_deserialize_rejects_garbage() {
    assert!(deserialize_document(&[1, 2, 3]).is_none());
    assert!(deserialize_document(&[]).is_none());
    assert!(deserialize_chunk(&[255, 255, 255, 255, 255, 255, 255, 255]).is_none());
}

#[test]
fn test_deserialize_rejects_trailing_bytes() {
    let doc = Document::new("a".to_string(), "b".to_string(), "c".to_string(), 1);
    let mut bytes = serialize_document(&doc);
    bytes.push(0);
    assert!(deserialize_document(&bytes).is_none());
}
