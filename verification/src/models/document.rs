use vstd::prelude::*;

verus! {

/// Mathematical value of a `Document`: the fields as contracts see them.
pub struct DocumentModel {
    pub id: Seq<char>,
    pub name: Seq<char>,
    pub file_path: Seq<char>,
    pub page_count: usize,
    pub created_at: u64,
    pub is_indexed: bool,
}

/// One ingested source file, keyed by `id` in the store.
pub struct Document {
    /// Unique identifier, assigned by the caller; the sole storage key.
    pub id: String,
    /// Original display name of the source file.
    pub name: String,
    /// Absolute path of the source file at ingestion time.
    pub file_path: String,
    /// Number of pages in the source.
    pub page_count: usize,
    /// Unix timestamp (seconds) set once at construction.
    pub created_at: u64,
    /// Whether downstream indexing has completed; starts `false`.
    pub is_indexed: bool,
}

impl View for Document {
    type V = DocumentModel;

    open spec fn view(&self) -> DocumentModel {
        DocumentModel {
            id: self.id@,
            name: self.name@,
            file_path: self.file_path@,
            page_count: self.page_count,
            created_at: self.created_at,
            is_indexed: self.is_indexed,
        }
    }
}

/// Relies on std::time::SystemTime::now for the wall-clock reading:
/// seconds since the Unix epoch, or 0 if the clock reads earlier than it.
#[verifier::external_body]
fn now_unix_secs() -> u64 {
    match std::time::SystemTime::now().duration_since(std::time::UNIX_EPOCH) {
        Ok(d) => d.as_secs(),
        Err(_) => 0,
    }
}

impl Document {
    /// Builds a fresh, not yet indexed document stamped with the current time.
    pub fn new(id: String, name: String, file_path: String, page_count: usize) -> (r: Document)
        ensures
            r@.id == id@,
            r@.name == name@,
            r@.file_path == file_path@,
            r@.page_count == page_count,
            !r@.is_indexed,
    {
        let created_at = now_unix_secs();
        Document { id, name, file_path, page_count, created_at, is_indexed: false }
    }

    /// Flips the indexed flag to `true`; every other field is kept.
    pub fn mark_as_indexed(&mut self)
        ensures
            final(self)@ == (DocumentModel { is_indexed: true, ..old(self)@ }),
    {
        self.is_indexed = true;
    }
}

} // verus!
