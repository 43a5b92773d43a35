use vstd::prelude::*;
use vstd::seq_lib::seq_to_set_is_finite;
use vstd::string::StringExecFns;
use vstd::utf8::{encode_utf8, encode_utf8_decode_utf8};

use crate::codec::{
    doc_encodable, serialize_document, deserialize_document, spec_dec_document,
    spec_enc_document, lemma_document_round_trip,
};
use crate::models::document::{Document, DocumentModel};

verus! {

/// Failure to open the store or its documents namespace.
#[derive(Debug)]
pub enum StoreError {
    Open(String),
}

/// Failure of a repository operation.
#[derive(Debug)]
pub enum RepoError {
    /// The entity could not be encoded.
    Serialize(String),
    /// Stored bytes do not fit the entity's binary form.
    Deserialize(String),
    /// The underlying engine failed.
    Store(String),
}

// ---------------------------------------------------------------------------
// Storage location resolution
// ---------------------------------------------------------------------------
/// The application name used when the caller passes none.
pub fn default_app_name() -> (r: &'static str)
    ensures
        r@ == "libAi"@,
{
    "libAi"
}

/// A path with one more component appended.
pub open spec fn spec_join(base: Seq<char>, name: Seq<char>) -> Seq<char> {
    base + "/"@ + name
}

/// The application name a caller's argument stands for.
pub open spec fn spec_app_name(app_name: Option<&str>) -> Seq<char> {
    match app_name {
        Some(a) => a@,
        None => "libAi"@,
    }
}

/// The store subdirectory a caller's argument stands for.
pub open spec fn spec_db_subdir(db_subdir: Option<&str>) -> Seq<char> {
    match db_subdir {
        Some(s) => s@,
        None => "sled_db"@,
    }
}

/// Relies on dirs::data_local_dir for the platform's local data directory.
/// The value depends on the host environment, so nothing is promised of it.
#[verifier::external_body]
fn data_local_dir_string() -> Option<String> {
    dirs::data_local_dir().map(|p| p.to_string_lossy().into_owned())
}

/// Relies on dirs::data_dir for the platform's roaming data directory.
/// The value depends on the host environment, so nothing is promised of it.
#[verifier::external_body]
fn data_dir_string() -> Option<String> {
    dirs::data_dir().map(|p| p.to_string_lossy().into_owned())
}

/// The application's data directory under a given base, or under the current
/// working directory (".") when the platform offers no base.
pub fn db_dir_from_base(base: Option<String>, app_name: Option<&str>) -> (r: String)
    ensures
        r@ == spec_join(
            match base {
                Some(b) => b@,
                None => "."@,
            },
            spec_app_name(app_name),
        ),
{
    let name: &str = match app_name {
        Some(a) => a,
        None => default_app_name(),
    };
    let b: String = match base {
        Some(b) => b,
        None => String::from_str("."),
    };
    b.concat("/").concat(name)
}

/// The directory that holds all of the application's data, placed in the
/// platform's local data directory (falling back to the roaming one, then to
/// the current working directory).
pub fn get_db_dir(app_name: Option<&str>) -> (r: String)
    ensures
        exists|base: Seq<char>| r@ == spec_join(base, spec_app_name(app_name)),
{
    let base = match data_local_dir_string() {
        Some(b) => Some(b),
        None => data_dir_string(),
    };
    let ghost base_seq: Seq<char> = match &base {
        Some(b) => b@,
        None => "."@,
    };
    let r = db_dir_from_base(base, app_name);
    proof {
        assert(r@ == spec_join(base_seq, spec_app_name(app_name)));
    }
    r
}

/// The directory of the embedded store itself: the application's data
/// directory with the store subdirectory appended. Pure computation; the
/// directory is not created here.
pub fn get_db_path(app_name: Option<&str>, db_subdir: Option<&str>) -> (r: String)
    ensures
        exists|base: Seq<char>| r@ == spec_join(
            spec_join(base, spec_app_name(app_name)),
            spec_db_subdir(db_subdir),
        ),
{
    let dir = get_db_dir(app_name);
    let ghost base_seq = choose|base: Seq<char>| dir@ == spec_join(base, spec_app_name(app_name));
    let sub: &str = match db_subdir {
        Some(s) => s,
        None => "sled_db",
    };
    let r = dir.concat("/").concat(sub);
    proof {
        assert(r@ == spec_join(spec_join(base_seq, spec_app_name(app_name)), spec_db_subdir(db_subdir)));
    }
    r
}

// ---------------------------------------------------------------------------
// The storage handle
// ---------------------------------------------------------------------------
#[verifier::external_type_specification]
#[verifier::external_body]
pub struct ExDb(sled::Db);

#[verifier::external_type_specification]
#[verifier::external_body]
pub struct ExTree(sled::Tree);

/// The full contents of a tree: its key-to-value entries, both as raw bytes.
pub uninterp spec fn tree_entries(t: sled::Tree) -> Map<Seq<u8>, Seq<u8>>;

/// The open storage handle: the engine instance and its documents tree.
pub struct Store {
    #[allow(dead_code)]
    db: sled::Db,
    tree: sled::Tree,
}

impl Store {
    /// The current contents of the documents namespace.
    pub closed spec fn entries(&self) -> Map<Seq<u8>, Seq<u8>> {
        tree_entries(self.tree)
    }
}

/// Relies on sled::open: opens the store at `path`, creating its files and
/// directories when absent; fails when the path is locked by another process
/// or its files are corrupt.
#[verifier::external_body]
fn sled_open(path: &str) -> Result<sled::Db, String> {
    sled::open(path).map_err(|e| format!("failed to open sled db: {}", e))
}

/// Relies on sled::Db::open_tree: opens the named tree inside the store.
#[verifier::external_body]
fn db_open_tree(db: &sled::Db, name: &str) -> Result<sled::Tree, String> {
    db.open_tree(name).map_err(|e| format!("failed to open documents tree: {}", e))
}

/// Relies on sled::Tree::insert: afterwards the tree maps the key to the
/// value; a failed call leaves the entry as it was or already written.
#[verifier::external_body]
fn tree_insert(t: &mut sled::Tree, key: &str, value: &[u8]) -> (r: Result<(), String>)
    ensures
        r is Ok ==> tree_entries(*final(t)) == tree_entries(*old(t)).insert(
            encode_utf8(key@),
            value@,
        ),
        r is Err ==> tree_entries(*final(t)) == tree_entries(*old(t)) || tree_entries(*final(t))
            == tree_entries(*old(t)).insert(encode_utf8(key@), value@),
{
    match t.insert(key.as_bytes(), value) {
        Ok(_) => Ok(()),
        Err(e) => Err(format!("sled insert error: {}", e)),
    }
}

/// Relies on sled::Tree::get: hands back the bytes stored under the key, or
/// nothing when the key is absent.
#[verifier::external_body]
fn tree_get(t: &sled::Tree, key: &str) -> (r: Result<Option<Vec<u8>>, String>)
    ensures
        r matches Ok(Some(v)) ==> tree_entries(*t).contains_key(encode_utf8(key@)) && v@
            == tree_entries(*t)[encode_utf8(key@)],
        r matches Ok(None) ==> !tree_entries(*t).contains_key(encode_utf8(key@)),
{
    match t.get(key.as_bytes()) {
        Ok(Some(v)) => Ok(Some(v.to_vec())),
        Ok(None) => Ok(None),
        Err(e) => Err(format!("sled get error: {}", e)),
    }
}

/// Relies on sled::Tree::remove: afterwards the key is absent; a failed call
/// leaves the entry as it was or already removed.
#[verifier::external_body]
fn tree_remove(t: &mut sled::Tree, key: &str) -> (r: Result<(), String>)
    ensures
        r is Ok ==> tree_entries(*final(t)) == tree_entries(*old(t)).remove(encode_utf8(key@)),
        r is Err ==> tree_entries(*final(t)) == tree_entries(*old(t)) || tree_entries(*final(t))
            == tree_entries(*old(t)).remove(encode_utf8(key@)),
{
    match t.remove(key.as_bytes()) {
        Ok(_) => Ok(()),
        Err(e) => Err(format!("sled remove error: {}", e)),
    }
}

/// Relies on sled::Tree::flush: forces buffered writes to durable storage;
/// the logical contents are untouched.
#[verifier::external_body]
fn tree_flush(t: &sled::Tree) -> Result<usize, String> {
    t.flush().map_err(|e| format!("flush error: {}", e))
}

/// Relies on sled::Tree::iter: yields every entry exactly once, in sled's own
/// order; the witnessed keys state the one-to-one match with the contents.
#[verifier::external_body]
fn tree_values(t: &sled::Tree) -> (r: Result<Vec<Vec<u8>>, String>)
    ensures
        r matches Ok(vs) ==> exists|keys: Seq<Seq<u8>>|
            keys.no_duplicates() && keys.len() == vs@.len() && (forall|i: int|
                0 <= i < keys.len() ==> #[trigger] tree_entries(*t).contains_pair(
                    keys[i],
                    vs@[i]@,
                )) && (forall|k: Seq<u8>|
                #[trigger] tree_entries(*t).dom().contains(k) ==> keys.contains(k)),
{
    let mut out = Vec::new();
    for item in t.iter() {
        match item {
            Ok((_k, v)) => out.push(v.to_vec()),
            Err(e) => return Err(format!("sled iter error: {}", e)),
        }
    }
    Ok(out)
}

/// Opens the store under the resolved directory (creating it when absent)
/// together with its "documents" namespace.
pub fn init_db(app_name: Option<&str>, db_subdir: Option<&str>) -> Result<Store, StoreError> {
    let path = get_db_path(app_name, db_subdir);
    let db = match sled_open(path.as_str()) {
        Ok(d) => d,
        Err(e) => {
            return Err(StoreError::Open(e));
        },
    };
    let tree = match db_open_tree(&db, "documents") {
        Ok(t) => t,
        Err(e) => {
            return Err(StoreError::Open(e));
        },
    };
    Ok(Store { db, tree })
}

// ---------------------------------------------------------------------------
// The document repository
// ---------------------------------------------------------------------------
/// Writes the document's binary form under its id, overwriting any prior
/// record with that id, and flushes before returning success.
pub fn insert_document(db: &mut Store, doc: &Document) -> (r: Result<(), RepoError>)
    ensures
        doc_encodable(doc@),
        r is Ok ==> final(db).entries() == old(db).entries().insert(
            encode_utf8(doc.id@),
            spec_enc_document(doc@),
        ),
        final(db).entries() == old(db).entries() || final(db).entries() == old(
            db,
        ).entries().insert(encode_utf8(doc.id@), spec_enc_document(doc@)),
        r matches Err(e) ==> e is Store,
{
    let bytes = serialize_document(doc);
    match tree_insert(&mut db.tree, doc.id.as_str(), bytes.as_slice()) {
        Ok(()) => {},
        Err(e) => {
            return Err(RepoError::Store(e));
        },
    }
    match tree_flush(&db.tree) {
        Ok(_) => Ok(()),
        Err(e) => Err(RepoError::Store(e)),
    }
}

/// Looks the id up: absence is `Ok(None)`, a stored record is decoded and
/// returned, and bytes that do not decode are a `Deserialize` error.
pub fn get_document(db: &Store, id: &str) -> (r: Result<Option<Document>, RepoError>)
    ensures
        r matches Ok(Some(d)) ==> db.entries().contains_key(encode_utf8(id@))
            && spec_dec_document(db.entries()[encode_utf8(id@)]) == Some(d@),
        r matches Ok(None) ==> !db.entries().contains_key(encode_utf8(id@)),
        !db.entries().contains_key(encode_utf8(id@)) ==> (r matches Ok(None) || (r matches Err(e)
            && e is Store)),
        db.entries().contains_key(encode_utf8(id@)) && spec_dec_document(
            db.entries()[encode_utf8(id@)],
        ) is Some ==> ((r matches Err(e) && e is Store) || (r matches Ok(Some(d)) && Some(d@)
            == spec_dec_document(db.entries()[encode_utf8(id@)]))),
        db.entries().contains_key(encode_utf8(id@)) && spec_dec_document(
            db.entries()[encode_utf8(id@)],
        ) is None ==> r is Err,
        r matches Err(e) ==> e is Store || e is Deserialize,
        r matches Err(e) && e is Deserialize ==> db.entries().contains_key(encode_utf8(id@))
            && spec_dec_document(db.entries()[encode_utf8(id@)]) is None,
{
    match tree_get(&db.tree, id) {
        Err(e) => Err(RepoError::Store(e)),
        Ok(None) => Ok(None),
        Ok(Some(bytes)) => match deserialize_document(bytes.as_slice()) {
            Some(d) => Ok(Some(d)),
            None => Err(
                RepoError::Deserialize(
                    String::from_str("stored bytes do not decode to a document"),
                ),
            ),
        },
    }
}

/// Decodes every record in the documents namespace, in the store's own
/// iteration order; the first undecodable record aborts the listing.
pub fn get_all_documents(db: &Store) -> (r: Result<Vec<Document>, RepoError>)
    ensures
        r matches Ok(ds) ==> exists|keys: Seq<Seq<u8>>|
            keys.no_duplicates() && keys.len() == ds@.len() && (forall|i: int|
                0 <= i < keys.len() ==> #[trigger] db.entries().contains_key(keys[i])
                    && spec_dec_document(db.entries()[keys[i]]) == Some(ds@[i]@)) && (forall|
                k: Seq<u8>,
            |
                #[trigger] db.entries().dom().contains(k) ==> keys.contains(k)),
        r matches Err(e) ==> e is Store || e is Deserialize,
        r matches Err(e) && e is Deserialize ==> exists|k: Seq<u8>|
            db.entries().dom().contains(k) && spec_dec_document(#[trigger] db.entries()[k])
                is None,
{
    let values = match tree_values(&db.tree) {
        Ok(v) => v,
        Err(e) => {
            return Err(RepoError::Store(e));
        },
    };
    let ghost keys: Seq<Seq<u8>> = choose|keys: Seq<Seq<u8>>|
        keys.no_duplicates() && keys.len() == values@.len() && (forall|i: int|
            0 <= i < keys.len() ==> #[trigger] tree_entries(db.tree).contains_pair(
                keys[i],
                values@[i]@,
            )) && (forall|k: Seq<u8>|
            #[trigger] tree_entries(db.tree).dom().contains(k) ==> keys.contains(k));
    let mut out: Vec<Document> = Vec::new();
    let mut idx: usize = 0;
    while idx < values.len()
        invariant
            idx <= values.len(),
            out@.len() == idx,
            keys.no_duplicates(),
            keys.len() == values@.len(),
            forall|i: int|
                0 <= i < keys.len() ==> #[trigger] tree_entries(db.tree).contains_pair(
                    keys[i],
                    values@[i]@,
                ),
            forall|k: Seq<u8>|
                #[trigger] tree_entries(db.tree).dom().contains(k) ==> keys.contains(k),
            forall|i: int|
                0 <= i < idx ==> spec_dec_document(values@[i]@) == Some(#[trigger] out@[i]@),
        decreases values.len() - idx,
    {
        match deserialize_document(values[idx].as_slice()) {
            Some(d) => out.push(d),
            None => {
                proof {
                    assert(tree_entries(db.tree).contains_pair(keys[idx as int], values@[idx as int]@));
                    assert(db.entries().dom().contains(keys[idx as int]) && spec_dec_document(
                        db.entries()[keys[idx as int]],
                    ) is None);
                }
                return Err(
                    RepoError::Deserialize(
                        String::from_str("stored bytes do not decode to a document"),
                    ),
                );
            },
        }
        idx = idx + 1;
    }
    proof {
        assert forall|i: int| 0 <= i < keys.len() implies #[trigger] db.entries().contains_key(
            keys[i],
        ) && spec_dec_document(db.entries()[keys[i]]) == Some(out@[i]@) by {
            assert(tree_entries(db.tree).contains_pair(keys[i], values@[i]@));
        }
    }
    Ok(out)
}

/// Removes the record under the id if present — removing an absent id is a
/// successful no-op — and flushes before returning success.
pub fn delete_document(db: &mut Store, id: &str) -> (r: Result<(), RepoError>)
    ensures
        r is Ok ==> final(db).entries() == old(db).entries().remove(encode_utf8(id@)),
        final(db).entries() == old(db).entries() || final(db).entries() == old(
            db,
        ).entries().remove(encode_utf8(id@)),
        r matches Err(e) ==> e is Store,
{
    match tree_remove(&mut db.tree, id) {
        Ok(()) => {},
        Err(e) => {
            return Err(RepoError::Store(e));
        },
    }
    match tree_flush(&db.tree) {
        Ok(_) => Ok(()),
        Err(e) => Err(RepoError::Store(e)),
    }
}

// ---------------------------------------------------------------------------
// Laws of the repository
// ---------------------------------------------------------------------------
/// A stored document is found again: after an insert, the entry under the
/// document's id decodes to exactly the inserted value.
pub proof fn lemma_insert_then_get(entries: Map<Seq<u8>, Seq<u8>>, m: DocumentModel)
    requires
        doc_encodable(m),
    ensures
        ({
            let after = entries.insert(encode_utf8(m.id), spec_enc_document(m));
            after.contains_key(encode_utf8(m.id)) && spec_dec_document(after[encode_utf8(m.id)])
                == Some(m)
        }),
{
    lemma_document_round_trip(m);
}

/// An insert under an existing id replaces the record wholly: afterwards the
/// entry is the new document's encoding and decodes to it, with no trace of
/// the prior record.
pub proof fn lemma_insert_overwrites(
    entries: Map<Seq<u8>, Seq<u8>>,
    m_prior: DocumentModel,
    m_new: DocumentModel,
)
    requires
        doc_encodable(m_new),
        m_prior.id == m_new.id,
        entries.contains_key(encode_utf8(m_prior.id)),
    ensures
        ({
            let after = entries.insert(encode_utf8(m_new.id), spec_enc_document(m_new));
            after[encode_utf8(m_new.id)] == spec_enc_document(m_new) && spec_dec_document(
                after[encode_utf8(m_new.id)],
            ) == Some(m_new)
        }),
{
    lemma_document_round_trip(m_new);
}

/// After a delete the id is gone: a lookup in the resulting contents finds
/// nothing under it.
pub proof fn lemma_delete_then_get(entries: Map<Seq<u8>, Seq<u8>>, id: Seq<char>)
    ensures
        !entries.remove(encode_utf8(id)).contains_key(encode_utf8(id)),
{
}

/// Distinct ids address distinct entries: storage keys collide only for
/// equal ids.
pub proof fn lemma_key_injective(id1: Seq<char>, id2: Seq<char>)
    requires
        encode_utf8(id1) == encode_utf8(id2),
    ensures
        id1 == id2,
{
    encode_utf8_decode_utf8(id1);
    encode_utf8_decode_utf8(id2);
}

/// One stored entry as the repository writes it: bytes that decode to a
/// document whose id is the entry's own key.
pub open spec fn entry_well_formed(k: Seq<u8>, v: Seq<u8>) -> bool {
    &&& spec_dec_document(v) matches Some(m)
    &&& encode_utf8((spec_dec_document(v)->Some_0).id) == k
}

/// Contents in which every record was written by the repository: each entry
/// decodes to a document keyed by its own id. An empty store satisfies this,
/// and `insert_document` and `delete_document` preserve it.
pub open spec fn store_well_formed(entries: Map<Seq<u8>, Seq<u8>>) -> bool {
    forall|k: Seq<u8>|
        #[trigger] entries.dom().contains(k) ==> entry_well_formed(k, entries[k])
}

/// An insert keeps the store well formed: the new entry decodes to the
/// inserted document under its id, and the rest is untouched.
pub proof fn lemma_insert_preserves_well_formed(entries: Map<Seq<u8>, Seq<u8>>, m: DocumentModel)
    requires
        store_well_formed(entries),
        doc_encodable(m),
    ensures
        store_well_formed(entries.insert(encode_utf8(m.id), spec_enc_document(m))),
{
    lemma_document_round_trip(m);
    let after = entries.insert(encode_utf8(m.id), spec_enc_document(m));
    assert forall|k: Seq<u8>| #[trigger] after.dom().contains(k) implies entry_well_formed(
        k,
        after[k],
    ) by {
        if k != encode_utf8(m.id) {
            assert(entries.dom().contains(k));
        }
    }
}

/// A delete keeps the store well formed.
pub proof fn lemma_delete_preserves_well_formed(entries: Map<Seq<u8>, Seq<u8>>, id: Seq<char>)
    requires
        store_well_formed(entries),
    ensures
        store_well_formed(entries.remove(encode_utf8(id))),
{
    let after = entries.remove(encode_utf8(id));
    assert forall|k: Seq<u8>| #[trigger] after.dom().contains(k) implies entry_well_formed(
        k,
        after[k],
    ) by {
        assert(entries.dom().contains(k));
    }
}

/// In a well-formed store, a listing's documents carry pairwise distinct ids
/// whose storage keys are exactly the stored keys: the identifier set of the
/// listing equals the identifier set of the contents.
pub proof fn lemma_listing_ids(
    entries: Map<Seq<u8>, Seq<u8>>,
    keys: Seq<Seq<u8>>,
    models: Seq<DocumentModel>,
)
    requires
        store_well_formed(entries),
        keys.no_duplicates(),
        keys.len() == models.len(),
        forall|i: int|
            0 <= i < keys.len() ==> entries.dom().contains(#[trigger] keys[i])
                && spec_dec_document(entries[keys[i]]) == Some(models[i]),
        forall|k: Seq<u8>| #[trigger] entries.dom().contains(k) ==> keys.contains(k),
    ensures
        forall|i: int| 0 <= i < models.len() ==> encode_utf8(#[trigger] models[i].id) == keys[i],
        forall|i: int, j: int|
            0 <= i < j < models.len() ==> #[trigger] models[i].id != #[trigger] models[j].id,
        forall|i: int|
            0 <= i < models.len() ==> entries.dom().contains(encode_utf8(#[trigger] models[i].id)),
        forall|k: Seq<u8>|
            #[trigger] entries.dom().contains(k) ==> exists|i: int|
                0 <= i < models.len() && encode_utf8(models[i].id) == k,
{
    assert forall|i: int| 0 <= i < models.len() implies encode_utf8(#[trigger] models[i].id)
        == keys[i] by {
        assert(entry_well_formed(keys[i], entries[keys[i]]));
    }
    assert forall|i: int, j: int| 0 <= i < j < models.len() implies #[trigger] models[i].id
        != #[trigger] models[j].id by {
        if models[i].id == models[j].id {
            assert(keys[i] == keys[j]);
        }
    }
    assert forall|k: Seq<u8>| #[trigger] entries.dom().contains(k) implies exists|i: int|
        0 <= i < models.len() && encode_utf8(models[i].id) == k by {
        let i = choose|i: int| 0 <= i < keys.len() && keys[i] == k;
        assert(0 <= i < models.len() && encode_utf8(models[i].id) == k);
    }
}

/// A listing is exact: a duplicate-free key sequence that lies within the
/// contents and covers them enumerates exactly one entry per stored record.
pub proof fn lemma_listing_exact(entries: Map<Seq<u8>, Seq<u8>>, keys: Seq<Seq<u8>>)
    requires
        keys.no_duplicates(),
        forall|i: int| 0 <= i < keys.len() ==> entries.dom().contains(#[trigger] keys[i]),
        forall|k: Seq<u8>| #[trigger] entries.dom().contains(k) ==> keys.contains(k),
    ensures
        entries.dom() =~= keys.to_set(),
        entries.dom().finite(),
        entries.dom().len() == keys.len(),
{
    assert forall|k: Seq<u8>| #[trigger] keys.to_set().contains(k) implies entries.dom().contains(
        k,
    ) by {
        let i = choose|i: int| 0 <= i < keys.len() && keys[i] == k;
        assert(entries.dom().contains(keys[i]));
    }
    assert(entries.dom() =~= keys.to_set());
    broadcast use seq_to_set_is_finite;

    keys.unique_seq_to_set();
}

} // verus!
