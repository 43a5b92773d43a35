use vstd::prelude::*;
use vstd::bytes::{
    lemma_auto_spec_u64_to_from_le_bytes, spec_u64_from_le_bytes, spec_u64_to_le_bytes,
    u64_from_le_bytes, u64_to_le_bytes,
};
use vstd::slice::{slice_index_get, slice_subrange, slice_to_vec};
use vstd::string::StrSliceExecFns;
use vstd::utf8::{
    decode_utf8, encode_utf8, encode_utf8_decode_utf8, encode_utf8_valid_utf8, valid_utf8,
};

use crate::models::chunk::{Chunk, ChunkModel};
use crate::models::document::{Document, DocumentModel};

verus! {

// ---------------------------------------------------------------------------
// The binary form of an entity: every field in declaration order.
//   u64        -> 8 bytes, little endian
//   string     -> u64 byte length, then the UTF-8 bytes
//   bool       -> one byte, 0 or 1
//   option str -> one tag byte (0 absent, 1 present), then the string if present
// A record must consume its bytes exactly; trailing bytes make it invalid.
// ---------------------------------------------------------------------------
pub open spec fn enc_u64(x: u64) -> Seq<u8> {
    spec_u64_to_le_bytes(x)
}

pub open spec fn enc_str(s: Seq<char>) -> Seq<u8> {
    enc_u64(encode_utf8(s).len() as u64) + encode_utf8(s)
}

pub open spec fn enc_bool(b: bool) -> Seq<u8> {
    seq![if b { 1u8 } else { 0u8 }]
}

pub open spec fn enc_opt_str(m: Option<Seq<char>>) -> Seq<u8> {
    match m {
        None => seq![0u8],
        Some(s) => seq![1u8] + enc_str(s),
    }
}

/// Whether the UTF-8 form of `s` is short enough for its length field.
/// Every string held by an in-memory entity satisfies this.
pub open spec fn str_encodable(s: Seq<char>) -> bool {
    encode_utf8(s).len() <= u64::MAX
}

pub open spec fn doc_encodable(m: DocumentModel) -> bool {
    str_encodable(m.id) && str_encodable(m.name) && str_encodable(m.file_path)
}

pub open spec fn chunk_encodable(m: ChunkModel) -> bool {
    str_encodable(m.id) && str_encodable(m.document_id) && str_encodable(m.text)
        && (m.metadata matches Some(s) ==> str_encodable(s))
}

pub open spec fn spec_enc_document(m: DocumentModel) -> Seq<u8> {
    enc_str(m.id) + enc_str(m.name) + enc_str(m.file_path) + enc_u64(m.page_count as u64)
        + enc_u64(m.created_at) + enc_bool(m.is_indexed)
}

pub open spec fn spec_enc_chunk(m: ChunkModel) -> Seq<u8> {
    enc_str(m.id) + enc_str(m.document_id) + enc_str(m.text) + enc_u64(m.index as u64)
        + enc_u64(m.page_number as u64) + enc_u64(m.char_count as u64) + enc_opt_str(m.metadata)
}

// ---------------------------------------------------------------------------
// The decoder, stated over byte sequences: each piece yields its value and
// the position just past it, or nothing if the bytes do not fit the form.
// ---------------------------------------------------------------------------
pub open spec fn dec_u64_at(b: Seq<u8>, i: int) -> Option<(u64, int)> {
    if 0 <= i && i + 8 <= b.len() {
        Some((spec_u64_from_le_bytes(b.subrange(i, i + 8)), i + 8))
    } else {
        None
    }
}

pub open spec fn dec_str_at(b: Seq<u8>, i: int) -> Option<(Seq<char>, int)> {
    match dec_u64_at(b, i) {
        Some((n, j)) => if j + n <= b.len() && valid_utf8(b.subrange(j, j + n)) {
            Some((decode_utf8(b.subrange(j, j + n)), j + n))
        } else {
            None
        },
        None => None,
    }
}

pub open spec fn dec_bool_at(b: Seq<u8>, i: int) -> Option<(bool, int)> {
    if 0 <= i && i < b.len() && (b[i] == 0 || b[i] == 1) {
        Some((b[i] == 1, i + 1))
    } else {
        None
    }
}

pub open spec fn dec_opt_str_at(b: Seq<u8>, i: int) -> Option<(Option<Seq<char>>, int)> {
    if 0 <= i && i < b.len() {
        if b[i] == 0 {
            Some((None, i + 1))
        } else if b[i] == 1 {
            match dec_str_at(b, i + 1) {
                Some((s, j)) => Some((Some(s), j)),
                None => None,
            }
        } else {
            None
        }
    } else {
        None
    }
}

pub open spec fn spec_dec_document(b: Seq<u8>) -> Option<DocumentModel> {
    match dec_str_at(b, 0) {
        Some((id, i1)) => match dec_str_at(b, i1) {
            Some((name, i2)) => match dec_str_at(b, i2) {
                Some((file_path, i3)) => match dec_u64_at(b, i3) {
                    Some((pc, i4)) => match dec_u64_at(b, i4) {
                        Some((ca, i5)) => match dec_bool_at(b, i5) {
                            Some((ix, i6)) => if i6 == b.len() && pc <= usize::MAX as u64 {
                                Some(DocumentModel {
                                    id,
                                    name,
                                    file_path,
                                    page_count: pc as usize,
                                    created_at: ca,
                                    is_indexed: ix,
                                })
                            } else {
                                None
                            },
                            None => None,
                        },
                        None => None,
                    },
                    None => None,
                },
                None => None,
            },
            None => None,
        },
        None => None,
    }
}

pub open spec fn spec_dec_chunk(b: Seq<u8>) -> Option<ChunkModel> {
    match dec_str_at(b, 0) {
        Some((id, i1)) => match dec_str_at(b, i1) {
            Some((document_id, i2)) => match dec_str_at(b, i2) {
                Some((text, i3)) => match dec_u64_at(b, i3) {
                    Some((index, i4)) => match dec_u64_at(b, i4) {
                        Some((page_number, i5)) => match dec_u64_at(b, i5) {
                            Some((char_count, i6)) => match dec_opt_str_at(b, i6) {
                                Some((metadata, i7)) => if i7 == b.len()
                                    && index <= usize::MAX as u64
                                    && page_number <= usize::MAX as u64
                                    && char_count <= usize::MAX as u64 {
                                    Some(ChunkModel {
                                        id,
                                        document_id,
                                        text,
                                        index: index as usize,
                                        page_number: page_number as usize,
                                        char_count: char_count as usize,
                                        metadata,
                                    })
                                } else {
                                    None
                                },
                                None => None,
                            },
                            None => None,
                        },
                        None => None,
                    },
                    None => None,
                },
                None => None,
            },
            None => None,
        },
        None => None,
    }
}

// ---------------------------------------------------------------------------
// Encoding
// ---------------------------------------------------------------------------
fn push_u64(out: &mut Vec<u8>, x: u64)
    ensures
        final(out)@ == old(out)@ + enc_u64(x),
{
    let mut bs = u64_to_le_bytes(x);
    out.append(&mut bs);
}

fn push_str(out: &mut Vec<u8>, s: &str)
    ensures
        final(out)@ == old(out)@ + enc_str(s@),
        str_encodable(s@),
{
    let mut bs = s.as_bytes_vec();
    let n = bs.len() as u64;
    push_u64(out, n);
    out.append(&mut bs);
    proof {
        assert(out@ =~= old(out)@ + enc_str(s@));
    }
}

fn push_bool(out: &mut Vec<u8>, b: bool)
    ensures
        final(out)@ == old(out)@ + enc_bool(b),
{
    out.push(if b { 1 } else { 0 });
    proof {
        assert(out@ =~= old(out)@ + enc_bool(b));
    }
}

fn push_opt_str(out: &mut Vec<u8>, m: &Option<String>)
    ensures
        final(out)@ == old(out)@ + enc_opt_str(match *m {
            Some(s) => Some(s@),
            None => None,
        }),
        (*m matches Some(s) ==> str_encodable(s@)),
{
    match m {
        None => {
            out.push(0);
            proof {
                assert(out@ =~= old(out)@ + enc_opt_str(None));
            }
        },
        Some(s) => {
            out.push(1);
            push_str(out, s.as_str());
            proof {
                assert(out@ =~= old(out)@ + enc_opt_str(Some(s@)));
            }
        },
    }
}

/// Turns a document into its binary form, exactly `spec_enc_document` of it.
pub fn serialize_document(d: &Document) -> (r: Vec<u8>)
    ensures
        r@ == spec_enc_document(d@),
        doc_encodable(d@),
{
    let mut out: Vec<u8> = Vec::new();
    push_str(&mut out, d.id.as_str());
    push_str(&mut out, d.name.as_str());
    push_str(&mut out, d.file_path.as_str());
    push_u64(&mut out, d.page_count as u64);
    push_u64(&mut out, d.created_at);
    push_bool(&mut out, d.is_indexed);
    proof {
        assert(out@ =~= spec_enc_document(d@));
    }
    out
}

/// Turns a chunk into its binary form, exactly `spec_enc_chunk` of it.
pub fn serialize_chunk(c: &Chunk) -> (r: Vec<u8>)
    ensures
        r@ == spec_enc_chunk(c@),
        chunk_encodable(c@),
{
    let mut out: Vec<u8> = Vec::new();
    push_str(&mut out, c.id.as_str());
    push_str(&mut out, c.document_id.as_str());
    push_str(&mut out, c.text.as_str());
    push_u64(&mut out, c.index as u64);
    push_u64(&mut out, c.page_number as u64);
    push_u64(&mut out, c.char_count as u64);
    push_opt_str(&mut out, &c.metadata);
    proof {
        assert(out@ =~= spec_enc_chunk(c@));
    }
    out
}

// ---------------------------------------------------------------------------
// Decoding
// ---------------------------------------------------------------------------
/// Relies on String::from_utf8: succeeds exactly on valid UTF-8 and yields
/// the decoded characters.
#[verifier::external_body]
fn string_from_utf8(v: Vec<u8>) -> (r: Option<String>)
    ensures
        r matches Some(s) ==> valid_utf8(v@) && s@ == decode_utf8(v@),
        valid_utf8(v@) ==> r is Some,
{
    String::from_utf8(v).ok()
}

fn read_u64(b: &[u8], pos: usize) -> (r: Option<(u64, usize)>)
    ensures
        match dec_u64_at(b@, pos as int) {
            Some((x, j)) => r matches Some(p) && p.0 == x && p.1 as int == j,
            None => r is None,
        },
{
    if pos <= b.len() && b.len() - pos >= 8 {
        let s = slice_subrange(b, pos, pos + 8);
        Some((u64_from_le_bytes(s), pos + 8))
    } else {
        None
    }
}

fn read_string(b: &[u8], pos: usize) -> (r: Option<(String, usize)>)
    ensures
        match dec_str_at(b@, pos as int) {
            Some((s, j)) => r matches Some(p) && p.0@ == s && p.1 as int == j,
            None => r is None,
        },
{
    match read_u64(b, pos) {
        None => None,
        Some((n, j)) => {
            if n <= (b.len() - j) as u64 {
                let n_us = n as usize;
                let s = slice_subrange(b, j, j + n_us);
                let v = slice_to_vec(s);
                match string_from_utf8(v) {
                    Some(st) => Some((st, j + n_us)),
                    None => None,
                }
            } else {
                None
            }
        },
    }
}

fn read_bool(b: &[u8], pos: usize) -> (r: Option<(bool, usize)>)
    ensures
        match dec_bool_at(b@, pos as int) {
            Some((x, j)) => r matches Some(p) && p.0 == x && p.1 as int == j,
            None => r is None,
        },
{
    if pos < b.len() {
        let t = *slice_index_get(b, pos);
        if t == 0 || t == 1 {
            Some((t == 1, pos + 1))
        } else {
            None
        }
    } else {
        None
    }
}

fn read_opt_string(b: &[u8], pos: usize) -> (r: Option<(Option<String>, usize)>)
    ensures
        match dec_opt_str_at(b@, pos as int) {
            Some((m, j)) => r matches Some(p) && (match p.0 {
                Some(s) => m matches Some(mm) && s@ == mm,
                None => m is None,
            }) && p.1 as int == j,
            None => r is None,
        },
{
    if pos < b.len() {
        let t = *slice_index_get(b, pos);
        if t == 0 {
            Some((None, pos + 1))
        } else if t == 1 {
            match read_string(b, pos + 1) {
                Some((s, j)) => Some((Some(s), j)),
                None => None,
            }
        } else {
            None
        }
    } else {
        None
    }
}

/// Reads a document back from its binary form: the result is exactly what
/// `spec_dec_document` says of the bytes, so together with
/// `serialize_document` every document round-trips unchanged.
pub fn deserialize_document(b: &[u8]) -> (r: Option<Document>)
    ensures
        match spec_dec_document(b@) {
            Some(m) => r matches Some(d) && d@ == m,
            None => r is None,
        },
{
    match read_string(b, 0) {
        None => None,
        Some((id, i1)) => match read_string(b, i1) {
            None => None,
            Some((name, i2)) => match read_string(b, i2) {
                None => None,
                Some((file_path, i3)) => match read_u64(b, i3) {
                    None => None,
                    Some((pc, i4)) => match read_u64(b, i4) {
                        None => None,
                        Some((ca, i5)) => match read_bool(b, i5) {
                            None => None,
                            Some((ix, i6)) => {
                                if i6 == b.len() && pc <= usize::MAX as u64 {
                                    Some(Document {
                                        id,
                                        name,
                                        file_path,
                                        page_count: pc as usize,
                                        created_at: ca,
                                        is_indexed: ix,
                                    })
                                } else {
                                    None
                                }
                            },
                        },
                    },
                },
            },
        },
    }
}

/// Reads a chunk back from its binary form; the counterpart of
/// `serialize_chunk`, exact per `spec_dec_chunk`.
pub fn deserialize_chunk(b: &[u8]) -> (r: Option<Chunk>)
    ensures
        match spec_dec_chunk(b@) {
            Some(m) => r matches Some(c) && c@ == m,
            None => r is None,
        },
{
    match read_string(b, 0) {
        None => None,
        Some((id, i1)) => match read_string(b, i1) {
            None => None,
            Some((document_id, i2)) => match read_string(b, i2) {
                None => None,
                Some((text, i3)) => match read_u64(b, i3) {
                    None => None,
                    Some((index, i4)) => match read_u64(b, i4) {
                        None => None,
                        Some((page_number, i5)) => match read_u64(b, i5) {
                            None => None,
                            Some((char_count, i6)) => match read_opt_string(b, i6) {
                                None => None,
                                Some((metadata, i7)) => {
                                    if i7 == b.len()
                                        && index <= usize::MAX as u64
                                        && page_number <= usize::MAX as u64
                                        && char_count <= usize::MAX as u64 {
                                        Some(Chunk {
                                            id,
                                            document_id,
                                            text,
                                            index: index as usize,
                                            page_number: page_number as usize,
                                            char_count: char_count as usize,
                                            metadata,
                                        })
                                    } else {
                                        None
                                    }
                                },
                            },
                        },
                    },
                },
            },
        },
    }
}

// ---------------------------------------------------------------------------
// Round-trip laws
// ---------------------------------------------------------------------------
proof fn lemma_subrange_of_concat_at(b: Seq<u8>, i: int, e: Seq<u8>, a: int, c: int)
    requires
        0 <= i,
        i + e.len() <= b.len(),
        b.subrange(i, i + e.len()) == e,
        0 <= a <= c <= e.len(),
    ensures
        b.subrange(i + a, i + c) == e.subrange(a, c),
{
    assert forall|t: int| 0 <= t < c - a implies b.subrange(i + a, i + c)[t] == e.subrange(a, c)[t] by {
        assert(e[a + t] == b.subrange(i, i + e.len())[a + t]);
    }
    assert(b.subrange(i + a, i + c) =~= e.subrange(a, c));
}

proof fn lemma_dec_u64_prefix(b: Seq<u8>, i: int, x: u64)
    requires
        0 <= i,
        i + 8 <= b.len(),
        b.subrange(i, i + 8) == enc_u64(x),
    ensures
        dec_u64_at(b, i) == Some((x, i + 8)),
{
    lemma_auto_spec_u64_to_from_le_bytes();
}

proof fn lemma_dec_str_prefix(b: Seq<u8>, i: int, s: Seq<char>)
    requires
        0 <= i,
        str_encodable(s),
        i + enc_str(s).len() <= b.len(),
        b.subrange(i, i + enc_str(s).len() as int) == enc_str(s),
    ensures
        dec_str_at(b, i) == Some((s, i + enc_str(s).len() as int)),
{
    lemma_auto_spec_u64_to_from_le_bytes();
    let u = encode_utf8(s);
    let n = u.len() as u64;
    let e = enc_str(s);
    assert(e == enc_u64(n) + u);
    assert(e.len() == 8 + u.len());
    lemma_subrange_of_concat_at(b, i, e, 0, 8);
    assert(e.subrange(0, 8) =~= enc_u64(n));
    lemma_dec_u64_prefix(b, i, n);
    lemma_subrange_of_concat_at(b, i, e, 8, e.len() as int);
    assert(e.subrange(8, e.len() as int) =~= u);
    assert(b.subrange(i + 8, i + 8 + n as int) == u);
    encode_utf8_valid_utf8(s);
    encode_utf8_decode_utf8(s);
}

proof fn lemma_dec_bool_prefix(b: Seq<u8>, i: int, x: bool)
    requires
        0 <= i,
        i + 1 <= b.len(),
        b.subrange(i, i + 1) == enc_bool(x),
    ensures
        dec_bool_at(b, i) == Some((x, i + 1)),
{
    assert(b[i] == b.subrange(i, i + 1)[0]);
}

proof fn lemma_dec_opt_str_prefix(b: Seq<u8>, i: int, m: Option<Seq<char>>)
    requires
        0 <= i,
        (m matches Some(s) ==> str_encodable(s)),
        i + enc_opt_str(m).len() <= b.len(),
        b.subrange(i, i + enc_opt_str(m).len() as int) == enc_opt_str(m),
    ensures
        dec_opt_str_at(b, i) == Some((m, i + enc_opt_str(m).len() as int)),
{
    let e = enc_opt_str(m);
    assert(b[i] == b.subrange(i, i + e.len() as int)[0]);
    match m {
        None => {
            assert(b[i] == 0);
        },
        Some(s) => {
            assert(b[i] == 1);
            lemma_subrange_of_concat_at(b, i, e, 1, e.len() as int);
            assert(e.subrange(1, e.len() as int) =~= enc_str(s));
            lemma_dec_str_prefix(b, i + 1, s);
        },
    }
}

/// Round trip for documents: decoding an encoded document yields it back,
/// field for field.
pub proof fn lemma_document_round_trip(m: DocumentModel)
    requires
        doc_encodable(m),
    ensures
        spec_dec_document(spec_enc_document(m)) == Some(m),
{
    let e1 = enc_str(m.id);
    let e2 = enc_str(m.name);
    let e3 = enc_str(m.file_path);
    let e4 = enc_u64(m.page_count as u64);
    let e5 = enc_u64(m.created_at);
    let e6 = enc_bool(m.is_indexed);
    let b = spec_enc_document(m);
    lemma_auto_spec_u64_to_from_le_bytes();
    let o1 = e1.len() as int;
    let o2 = o1 + e2.len();
    let o3 = o2 + e3.len();
    let o4 = o3 + e4.len();
    let o5 = o4 + e5.len();
    let o6 = o5 + e6.len();
    assert(b.len() == o6);
    assert(b.subrange(0, o1) =~= e1);
    assert(b.subrange(o1, o2) =~= e2);
    assert(b.subrange(o2, o3) =~= e3);
    assert(b.subrange(o3, o4) =~= e4);
    assert(b.subrange(o4, o5) =~= e5);
    assert(b.subrange(o5, o6) =~= e6);
    lemma_dec_str_prefix(b, 0, m.id);
    lemma_dec_str_prefix(b, o1, m.name);
    lemma_dec_str_prefix(b, o2, m.file_path);
    lemma_dec_u64_prefix(b, o3, m.page_count as u64);
    lemma_dec_u64_prefix(b, o4, m.created_at);
    lemma_dec_bool_prefix(b, o5, m.is_indexed);
}

/// Round trip for chunks, metadata present or absent.
pub proof fn lemma_chunk_round_trip(m: ChunkModel)
    requires
        chunk_encodable(m),
    ensures
        spec_dec_chunk(spec_enc_chunk(m)) == Some(m),
{
    let e1 = enc_str(m.id);
    let e2 = enc_str(m.document_id);
    let e3 = enc_str(m.text);
    let e4 = enc_u64(m.index as u64);
    let e5 = enc_u64(m.page_number as u64);
    let e6 = enc_u64(m.char_count as u64);
    let e7 = enc_opt_str(m.metadata);
    let b = spec_enc_chunk(m);
    lemma_auto_spec_u64_to_from_le_bytes();
    let o1 = e1.len() as int;
    let o2 = o1 + e2.len();
    let o3 = o2 + e3.len();
    let o4 = o3 + e4.len();
    let o5 = o4 + e5.len();
    let o6 = o5 + e6.len();
    let o7 = o6 + e7.len();
    assert(b.len() == o7);
    assert(b.subrange(0, o1) =~= e1);
    assert(b.subrange(o1, o2) =~= e2);
    assert(b.subrange(o2, o3) =~= e3);
    assert(b.subrange(o3, o4) =~= e4);
    assert(b.subrange(o4, o5) =~= e5);
    assert(b.subrange(o5, o6) =~= e6);
    assert(b.subrange(o6, o7) =~= e7);
    lemma_dec_str_prefix(b, 0, m.id);
    lemma_dec_str_prefix(b, o1, m.document_id);
    lemma_dec_str_prefix(b, o2, m.text);
    lemma_dec_u64_prefix(b, o3, m.index as u64);
    lemma_dec_u64_prefix(b, o4, m.page_number as u64);
    lemma_dec_u64_prefix(b, o5, m.char_count as u64);
    lemma_dec_opt_str_prefix(b, o6, m.metadata);
}

/// No two documents share an encoding.
pub proof fn lemma_document_encoding_injective(m1: DocumentModel, m2: DocumentModel)
    requires
        doc_encodable(m1),
        doc_encodable(m2),
        spec_enc_document(m1) == spec_enc_document(m2),
    ensures
        m1 == m2,
{
    lemma_document_round_trip(m1);
    lemma_document_round_trip(m2);
}

/// No two chunks share an encoding.
pub proof fn lemma_chunk_encoding_injective(m1: ChunkModel, m2: ChunkModel)
    requires
        chunk_encodable(m1),
        chunk_encodable(m2),
        spec_enc_chunk(m1) == spec_enc_chunk(m2),
    ensures
        m1 == m2,
{
    lemma_chunk_round_trip(m1);
    lemma_chunk_round_trip(m2);
}

} // verus!
