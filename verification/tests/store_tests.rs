use libai_store::{
    delete_document, get_all_documents, get_db_path, get_document, init_db, insert_document,
    Document, Store,
};

const TEST_APP: &str = "libai_store_test";

/// Opens a store under its own subdirectory and removes any records a
/// previous run may have left behind.
fn fresh_store(subdir: &str) -> Store {
    let mut store = init_db(Some(TEST_APP), Some(subdir)).expect("store should open");
    let existing = get_all_documents(&store).expect("listing should succeed");
    for d in existing {
        delete_document(&mut store, &d.id).expect("cleanup delete should succeed");
    }
    store
}

#[test]
fn test_insert_and_get_document_minimal() {
    let mut db = fresh_store("insert_get");

    let doc = Document::new(
        "doc-1".to_string(),
        "prueba.pdf".to_string(),
        "/tmp/prueba.pdf".to_string(),
        5,
    );

    assert!(insert_document(&mut db, &doc).is_ok());

    let got = get_document(&db, &doc.id).unwrap();
    assert!(got.is_some());
    let got_doc = got.unwrap();
    assert_eq!(got_doc.id, doc.id);
    assert_eq!(got_doc.name, doc.name);
    assert_eq!(got_doc.file_path, doc.file_path);
    assert_eq!(got_doc.page_count, doc.page_count);
    assert_eq!(got_doc.created_at, doc.created_at);
    assert_eq!(got_doc.is_indexed, doc.is_indexed);
}

#[test]
fn test_get_never_inserted_returns_none() {
    let db = fresh_store("get_absent");
    let got = get_document(&db, "never-inserted").expect("absence is not an error");
    assert!(got.is_none());
}

#[test]
fn test_delete_then_get_returns_none() {
    let mut db = fresh_store("delete_get");
    let doc = Document::new(
        "doc-del".to_string(),
        "a.pdf".to_string(),
        "/tmp/a.pdf".to_string(),
        1,
    );
    insert_document(&mut db, &doc).unwrap();
    assert!(get_document(&db, "doc-del").unwrap().is_some());

    delete_document(&mut db, "doc-del").unwrap();
    assert!(get_document(&db, "doc-del").unwrap().is_none());
}

#[test]
fn test_delete_absent_is_ok() {
    let mut db = fresh_store("delete_absent");
    assert!(delete_document(&mut db, "no-such-id").is_ok());
}

#[test]
fn test_insert_overwrites_whole_record() {
    let mut db = fresh_store("overwrite");
    let first = Document::new(
        "doc-ow".to_string(),
        "old.pdf".to_string(),
        "/tmp/old.pdf".to_string(),
        3,
    );
    insert_document(&mut db, &first).unwrap();

    let second = Document::new(
        "doc-ow".to_string(),
        "new.pdf".to_string(),
        "/tmp/new.pdf".to_string(),
        9,
    );
    insert_document(&mut db, &second).unwrap();

    let got = get_document(&db, "doc-ow").unwrap().unwrap();
    assert_eq!(got.name, "new.pdf");
    assert_eq!(got.file_path, "/tmp/new.pdf");
    assert_eq!(got.page_count, 9);
    assert_eq!(got.created_at, second.created_at);
}

#[test]
fn test_get_all_documents() {
    let mut db = fresh_store("get_all");

    let d1 = Document::new(
        "d1".to_string(),
        "a.pdf".to_string(),
        "/tmp/a.pdf".to_string(),
        1,
    );
    let d2 = Document::new(
        "d2".to_string(),
        "b.pdf".to_string(),
        "/tmp/b.pdf".to_string(),
        1,
    );

    insert_document(&mut db, &d1).unwrap();
    insert_document(&mut db, &d2).unwrap();

    let all = get_all_documents(&db).unwrap();
    let ids: Vec<String> = all.into_iter().map(|d| d.id).collect();
    assert!(ids.contains(&"d1".to_string()));
    assert!(ids.contains(&"d2".to_string()));
}

#[test]
fn test_get_all_counts_distinct_inserts() {
    let mut db = fresh_store("get_all_count");
    let ids = ["n1", "n2", "n3", "n4"];
    for id in ids {
        let d = Document::new(
            id.to_string(),
            format!("{}.pdf", id),
            format!("/tmp/{}.pdf", id),
            1,
        );
        insert_document(&mut db, &d).unwrap();
    }
    let all = get_all_documents(&db).unwrap();
    assert_eq!(all.len(), 4);
    let mut got: Vec<String> = all.into_iter().map(|d| d.id).collect();
    got.sort();
    assert_eq!(got, vec!["n1", "n2", "n3", "n4"]);
}

#[test]
fn test_multiple_db_instances() {
    // sled forbids a second open of the same path, but its handles clone
    // cheaply: both clones observe one consistent store.
    let path = get_db_path(Some(TEST_APP), Some("multi"));
    let db1 = sled::open(&path).unwrap();
    let db2 = db1.clone();

    db1.insert(b"shared_key", b"shared_value").unwrap();

    let value = db2.get(b"shared_key").unwrap();
    assert!(value.is_some());
    assert_eq!(value.unwrap().as_ref(), b"shared_value");
}

#[test]
fn test_second_open_of_locked_path_fails() {
    let _db = fresh_store("locked");
    let second = init_db(Some(TEST_APP), Some("locked"));
    assert!(second.is_err());
}

#[test]
fn test_durability_across_reopen() {
    let doc = Document::new(
        "doc-durable".to_string(),
        "keep.pdf".to_string(),
        "/tmp/keep.pdf".to_string(),
        2,
    );
    {
        let mut db = fresh_store("reopen");
        insert_document(&mut db, &doc).unwrap();
    }
    let db = init_db(Some(TEST_APP), Some("reopen")).unwrap();
    let got = get_document(&db, "doc-durable").unwrap();
    assert!(got.is_some());
    let got = got.unwrap();
    assert_eq!(got.name, "keep.pdf");
    assert_eq!(got.created_at, doc.created_at);
}

#[test]
fn test_document_lifecycle_scenario() {
    let mut db = fresh_store("scenario");
    let mut doc = Document::new(
        "doc-1".to_string(),
        "test.pdf".to_string(),
        "/tmp/test.pdf".to_string(),
        5,
    );
    assert!(!doc.is_indexed);

    insert_document(&mut db, &doc).unwrap();
    let got = get_document(&db, "doc-1").unwrap().unwrap();
    assert_eq!(got.id, doc.id);
    assert_eq!(got.name, doc.name);
    assert_eq!(got.file_path, doc.file_path);
    assert_eq!(got.page_count, doc.page_count);
    assert!(!got.is_indexed);

    doc.mark_as_indexed();
    insert_document(&mut db, &doc).unwrap();
    let got = get_document(&db, "doc-1").unwrap().unwrap();
    assert!(got.is_indexed);

    delete_document(&mut db, "doc-1").unwrap();
    assert!(get_document(&db, "doc-1").unwrap().is_none());
}
