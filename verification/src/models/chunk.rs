use vstd::prelude::*;
use vstd::string::StrSliceExecFns;

verus! {

/// Mathematical value of a `Chunk`: the fields as contracts see them.
pub struct ChunkModel {
    pub id: Seq<char>,
    pub document_id: Seq<char>,
    pub text: Seq<char>,
    pub index: usize,
    pub page_number: usize,
    pub char_count: usize,
    pub metadata: Option<Seq<char>>,
}

/// A text fragment derived from a stored document.
pub struct Chunk {
    /// Unique identifier of the chunk.
    pub id: String,
    /// Identifier of the document this chunk belongs to.
    pub document_id: String,
    /// Textual content of the chunk.
    pub text: String,
    /// Zero-based position of the chunk within its document.
    pub index: usize,
    /// Source page the chunk begins on.
    pub page_number: usize,
    /// Number of Unicode scalar values in `text`, fixed at construction.
    pub char_count: usize,
    /// Optional extra payload attached to the chunk; absent by default.
    pub metadata: Option<String>,
}

impl View for Chunk {
    type V = ChunkModel;

    open spec fn view(&self) -> ChunkModel {
        ChunkModel {
            id: self.id@,
            document_id: self.document_id@,
            text: self.text@,
            index: self.index,
            page_number: self.page_number,
            char_count: self.char_count,
            metadata: match self.metadata {
                Some(m) => Some(m@),
                None => None,
            },
        }
    }
}

/// The characters `char::is_whitespace` accepts: the Unicode `White_Space` set.
pub open spec fn is_whitespace_char(c: char) -> bool {
    let u = c as u32;
    u == 0x20 || (0x09 <= u && u <= 0x0D) || u == 0x85 || u == 0xA0 || u == 0x1680
        || (0x2000 <= u && u <= 0x200A) || u == 0x2028 || u == 0x2029 || u == 0x202F
        || u == 0x205F || u == 0x3000
}

/// Whether every character of `s` is whitespace; true of the empty string.
pub open spec fn all_whitespace(s: Seq<char>) -> bool {
    forall|i: int| 0 <= i < s.len() ==> is_whitespace_char(#[trigger] s[i])
}

/// Relies on char::is_whitespace: true exactly on the Unicode `White_Space` set.
pub assume_specification[ char::is_whitespace ](c: char) -> (r: bool)
    ensures
        r == is_whitespace_char(c),
;

impl Chunk {
    /// Builds a chunk whose `char_count` is the Unicode scalar count of `text`,
    /// with no metadata attached.
    pub fn new(
        id: String,
        document_id: String,
        text: String,
        index: usize,
        page_number: usize,
    ) -> (r: Chunk)
        ensures
            r@.id == id@,
            r@.document_id == document_id@,
            r@.text == text@,
            r@.index == index,
            r@.page_number == page_number,
            r@.char_count == text@.len(),
            r@.metadata is None,
    {
        let char_count = text.as_str().unicode_len();
        Chunk { id, document_id, text, index, page_number, char_count, metadata: None }
    }

    /// Attaches metadata; every other field is kept.
    pub fn with_metadata(self, metadata: String) -> (r: Chunk)
        ensures
            r@ == (ChunkModel { metadata: Some(metadata@), ..self@ }),
    {
        Chunk { metadata: Some(metadata), ..self }
    }

    /// True exactly when the text holds nothing but whitespace.
    pub fn is_empty(&self) -> (r: bool)
        ensures
            r == all_whitespace(self.text@),
    {
        let n = self.text.as_str().unicode_len();
        let mut i: usize = 0;
        while i < n
            invariant
                n == self.text@.len(),
                i <= n,
                forall|j: int| 0 <= j < i ==> is_whitespace_char(#[trigger] self.text@[j]),
            decreases n - i,
        {
            if !self.text.as_str().get_char(i).is_whitespace() {
                return false;
            }
            i = i + 1;
        }
        true
    }
}

} // verus!
