//! The document store: writes checked against the claimed revision and the
//! owning identity, reads, deletes, and the eviction that reconciliation
//! performs. A document `d` is stored under the key `d`, its metadata under
//! `d_meta`, both as UTF-8 JSON text.
use crate::body::{
    body_text, lemma_merge_lookup, lemma_remove_member_lookup, merge_members, remove_member,
    unique_keys, canonical_json, canonical_text, find_member, lemma_set_member_lookup, json_string, json_string_text, member, members_to_text, members_view, merge_json_values,
    merged, null_text, object_text, parse_body, parsed_body, remove_field, set_member, set_member_value,
    without_member, Body, BodyView, Members,
};
use crate::error::DatabaseError;
use crate::identity::{ConfirmedIdentities, DataWrapper, DbEntry, Did};
use crate::keyspace::{
    bytes_view, keyspace_contents, keyspace_get, keyspace_insert_both, keyspace_remove_both, stored,
    utf8_text,
};
use crate::revision::{
    current_generation, decimal, decimal_text, generate_rev, lemma_rev_generation_round_trip,
    parse_generation, rev_generation, rev_text,
};
use vstd::prelude::*;
use vstd::string::*;
use vstd::utf8::*;

verus! {

pub open spec fn rev_key() -> Seq<char> {
    seq!['_', 'r', 'e', 'v']
}

pub open spec fn id_key() -> Seq<char> {
    seq!['i', 'd']
}

pub open spec fn did_key() -> Seq<char> {
    seq!['_', 'd', 'i', 'd']
}

pub open spec fn accessible_key() -> Seq<char> {
    seq!['_', 'a', 'c', 'c', 'e', 's', 's', 'i', 'b', 'l', 'e']
}

pub open spec fn created_at_key() -> Seq<char> {
    seq!['c', 'r', 'e', 'a', 't', 'e', 'd', '_', 'a', 't']
}

pub open spec fn updated_at_key() -> Seq<char> {
    seq!['u', 'p', 'd', 'a', 't', 'e', 'd', '_', 'a', 't']
}

pub open spec fn true_text() -> Seq<char> {
    seq!['t', 'r', 'u', 'e']
}

pub open spec fn meta_suffix() -> Seq<char> {
    seq!['_', 'm', 'e', 't', 'a']
}

/// A revision identifier as a JSON string: its characters need no escape.
pub open spec fn quoted(rev: Seq<char>) -> Seq<char> {
    seq!['"'] + rev + seq!['"']
}

pub open spec fn doc_key(doc_id: Seq<char>) -> Seq<u8> {
    encode_utf8(doc_id)
}

pub open spec fn meta_key(doc_id: Seq<char>) -> Seq<u8> {
    encode_utf8(doc_id + meta_suffix())
}

/// The body that stored bytes hold, when they are UTF-8 JSON.
pub open spec fn stored_body(bytes: Seq<u8>) -> Option<BodyView> {
    if valid_utf8(bytes) {
        parsed_body(decode_utf8(bytes))
    } else {
        None
    }
}

pub open spec fn body_member(b: BodyView, k: Seq<char>) -> Option<Seq<char>> {
    match b {
        BodyView::Object(m) => member(m, k),
        BodyView::Other(_) => None,
    }
}

/// The revision that a write claims: the `_rev` member of the incoming
/// object, unless it is absent or null (a create).
pub open spec fn claimed_rev(incoming: BodyView) -> Option<Seq<char>> {
    match body_member(incoming, rev_key()) {
        Some(t) => if t == null_text() {
            None
        } else {
            Some(t)
        },
        None => None,
    }
}

/// The members of a new document before its revision is attached: the
/// incoming object (null counts as empty) with `id` set to the document id.
pub open spec fn created_members(incoming: BodyView, doc_id: Seq<char>) -> Option<Members> {
    match incoming {
        BodyView::Object(m) => Some(set_member(m, id_key(), json_string(doc_id))),
        BodyView::Other(t) => if t == null_text() {
            Some(set_member(Seq::empty(), id_key(), json_string(doc_id)))
        } else {
            None
        },
    }
}

/// Metadata of a new document.
pub open spec fn fresh_metadata(did: Seq<char>, rev: Seq<char>, now: u64) -> Members {
    seq![
        (accessible_key(), true_text()),
        (did_key(), json_string(did)),
        (rev_key(), quoted(rev)),
        (created_at_key(), decimal(now as nat)),
        (updated_at_key(), decimal(now as nat)),
    ]
}

/// A planned write: the new revision, the document text, the metadata text.
pub type WriteView = (Seq<char>, Seq<char>, Seq<char>);

pub open spec fn create_outcome(doc_id: Seq<char>, did: Seq<char>, incoming: BodyView, now: u64) -> Result<WriteView, DatabaseError> {
    match created_members(incoming, doc_id) {
        None => Err(DatabaseError::SerializationError),
        Some(m) => match canonical_json(object_text(m)) {
            None => Err(DatabaseError::SerializationError),
            Some(c) => {
                let rev = rev_text(1, c);
                Ok(
                    (
                        rev,
                        object_text(set_member(m, rev_key(), quoted(rev))),
                        object_text(fresh_metadata(did, rev, now)),
                    ),
                )
            },
        },
    }
}

pub open spec fn update_outcome(
    doc: BodyView,
    meta: Members,
    claimed: Seq<char>,
    did: Seq<char>,
    incoming: BodyView,
    now: u64,
) -> Result<WriteView, DatabaseError> {
    if member(meta, did_key()) != Some(json_string(did)) {
        Err(DatabaseError::OwnershipConflict)
    } else {
        match current_generation(encode_utf8(claimed)) {
            None => Err(DatabaseError::RevisionParseError),
            Some(g) => match without_member(merged(doc, incoming), rev_key()).0 {
                BodyView::Object(m) => match canonical_json(object_text(m)) {
                    None => Err(DatabaseError::SerializationError),
                    Some(c) => {
                    let rev = rev_text(g as nat + 1, c);
                    Ok(
                        (
                            rev,
                            object_text(set_member(m, rev_key(), quoted(rev))),
                            object_text(
                                set_member(
                                    set_member(meta, rev_key(), quoted(rev)),
                                    updated_at_key(),
                                    decimal(now as nat),
                                ),
                            ),
                        ),
                    )
                    },
                },
                BodyView::Other(_) => Err(DatabaseError::SerializationError),
            },
        }
    }
}

/// What a write of `incoming` as document `doc_id` by `did` comes to, given
/// the stored document and metadata bytes.
pub open spec fn put_outcome(
    doc: Option<Seq<u8>>,
    meta: Option<Seq<u8>>,
    doc_id: Seq<char>,
    did: Seq<char>,
    incoming: BodyView,
    now: u64,
) -> Result<WriteView, DatabaseError> {
    match claimed_rev(incoming) {
        None => if doc is Some {
            Err(DatabaseError::Conflict)
        } else {
            create_outcome(doc_id, did, incoming, now)
        },
        Some(c) => match (doc, meta) {
            (Some(d), Some(mb)) => match stored_body(d) {
                None => Err(DatabaseError::SerializationError),
                Some(dv) => if body_member(dv, rev_key()) != Some(c) {
                    Err(DatabaseError::UpdateConflict)
                } else {
                    match stored_body(mb) {
                        Some(BodyView::Object(mm)) => update_outcome(dv, mm, c, did, incoming, now),
                        _ => Err(DatabaseError::SerializationError),
                    }
                },
            },
            _ => Err(DatabaseError::NotFound),
        },
    }
}

/// The texts to store for a write.
pub struct WritePlan {
    pub rev: String,
    pub document: String,
    pub metadata: String,
}

pub open spec fn plan_view(r: Result<WritePlan, DatabaseError>) -> Result<WriteView, DatabaseError> {
    match r {
        Ok(p) => Ok((p.rev@, p.document@, p.metadata@)),
        Err(e) => Err(e),
    }
}

fn text_of(s: &str) -> (r: String)
    ensures
        r@ == s@,
{
    s.to_owned()
}

fn quote_rev(rev: &String) -> (r: String)
    ensures
        r@ == quoted(rev@),
{
    let mut t = String::new();
    proof {
        reveal_strlit("\"");
    }
    t.append("\"");
    t.append(rev.as_str());
    t.append("\"");
    assert(t@ =~= quoted(rev@));
    t
}

fn read_body(bytes: Vec<u8>) -> (r: Option<Body>)
    ensures
        match r {
            Some(b) => stored_body(bytes@) == Some(b@),
            None => stored_body(bytes@) is None,
        },
{
    match utf8_text(bytes.as_slice()) {
        Some(t) => parse_body(t.as_str()),
        None => None,
    }
}

fn claimed_revision(incoming: &Body) -> (r: Option<String>)
    ensures
        match r {
            Some(t) => claimed_rev(incoming@) == Some(t@),
            None => claimed_rev(incoming@) is None,
        },
{
    proof {
        reveal_strlit("_rev");
        reveal_strlit("null");
    }
    match incoming.field("_rev") {
        Some(t) => {
            assert("_rev"@ =~= rev_key());
            if t == text_of("null") {
                assert("null"@ =~= null_text());
                None
            } else {
                assert("null"@ =~= null_text());
                Some(t)
            }
        },
        None => {
            assert("_rev"@ =~= rev_key());
            None
        },
    }
}

fn key_text(s: &str, Ghost(k): Ghost<Seq<char>>) -> (r: String)
    requires
        s@ == k,
    ensures
        r@ == k,
{
    s.to_owned()
}

fn plan_create(doc_id: &str, did: &Did, incoming: Body, now: u64) -> (r: Result<WritePlan, DatabaseError>)
    ensures
        plan_view(r) == create_outcome(doc_id@, did@, incoming@, now),
{
    proof {
        reveal_strlit("null");
        reveal_strlit("id");
        reveal_strlit("_rev");
        reveal_strlit("_accessible");
        reveal_strlit("true");
        reveal_strlit("_did");
        reveal_strlit("created_at");
        reveal_strlit("updated_at");
        assert("id"@ =~= id_key());
        assert("_rev"@ =~= rev_key());
        assert("_accessible"@ =~= accessible_key());
        assert("true"@ =~= true_text());
        assert("_did"@ =~= did_key());
        assert("created_at"@ =~= created_at_key());
        assert("updated_at"@ =~= updated_at_key());
    }
    let mut m = match incoming {
        Body::Object(m) => m,
        Body::Other(t) => {
            if t == text_of("null") {
                assert("null"@ =~= null_text());
                let e: Vec<(String, String)> = Vec::new();
                assert(members_view(e@) =~= Seq::empty());
                e
            } else {
                assert("null"@ =~= null_text());
                return Err(DatabaseError::SerializationError);
            }
        },
    };
    set_member_value(&mut m, key_text("id", Ghost(id_key())), json_string_text(doc_id));
    let ghost created = members_view(m@);
    let text = members_to_text(&m);
    let canonical = match canonical_text(text.as_str()) {
        Some(c) => c,
        None => {
            return Err(DatabaseError::SerializationError);
        },
    };
    let rev = generate_rev(1, canonical.as_str());
    set_member_value(&mut m, key_text("_rev", Ghost(rev_key())), quote_rev(&rev));
    let document = members_to_text(&m);
    let mut meta: Vec<(String, String)> = Vec::new();
    meta.push((key_text("_accessible", Ghost(accessible_key())), key_text("true", Ghost(true_text()))));
    meta.push((key_text("_did", Ghost(did_key())), json_string_text(did.0.as_str())));
    meta.push((key_text("_rev", Ghost(rev_key())), quote_rev(&rev)));
    meta.push((key_text("created_at", Ghost(created_at_key())), decimal_text(now)));
    meta.push((key_text("updated_at", Ghost(updated_at_key())), decimal_text(now)));
    assert(members_view(meta@) =~= fresh_metadata(did@, rev@, now));
    let metadata = members_to_text(&meta);
    assert(created_members(incoming@, doc_id@) == Some(created));
    Ok(WritePlan { rev, document, metadata })
}


fn plan_update(
    doc: Body,
    meta: Vec<(String, String)>,
    claimed: String,
    did: &Did,
    incoming: Body,
    now: u64,
) -> (r: Result<WritePlan, DatabaseError>)
    requires
        incoming@ is Object,
    ensures
        plan_view(r) == update_outcome(doc@, members_view(meta@), claimed@, did@, incoming@, now),
{
    proof {
        reveal_strlit("_rev");
        reveal_strlit("_did");
        reveal_strlit("updated_at");
        assert("_rev"@ =~= rev_key());
        assert("_did"@ =~= did_key());
        assert("updated_at"@ =~= updated_at_key());
    }
    let owner = json_string_text(did.0.as_str());
    match find_member(&meta, &key_text("_did", Ghost(did_key()))) {
        Some(i) => {
            if !(meta[i].1 == owner) {
                return Err(DatabaseError::OwnershipConflict);
            }
        },
        None => {
            return Err(DatabaseError::OwnershipConflict);
        },
    }
    let g = match parse_generation(claimed.as_str()) {
        Some(g) => g,
        None => {
            return Err(DatabaseError::RevisionParseError);
        },
    };
    let (body, _) = remove_field(merge_json_values(doc, incoming), "_rev");
    let mut m = match body {
        Body::Object(m) => m,
        Body::Other(_) => {
            return Err(DatabaseError::SerializationError);
        },
    };
    let text = members_to_text(&m);
    let canonical = match canonical_text(text.as_str()) {
        Some(c) => c,
        None => {
            return Err(DatabaseError::SerializationError);
        },
    };
    let rev = generate_rev(g + 1, canonical.as_str());
    set_member_value(&mut m, key_text("_rev", Ghost(rev_key())), quote_rev(&rev));
    let document = members_to_text(&m);
    let mut meta = meta;
    set_member_value(&mut meta, key_text("_rev", Ghost(rev_key())), quote_rev(&rev));
    set_member_value(&mut meta, key_text("updated_at", Ghost(updated_at_key())), decimal_text(now));
    let metadata = members_to_text(&meta);
    Ok(WritePlan { rev, document, metadata })
}

/// Decides a write from the stored document and metadata bytes (`None`
/// where the key holds nothing): with no claimed revision a create, which
/// fails with `Conflict` over an existing document; else an update, which
/// needs both records (`NotFound`), the claimed revision to be the stored
/// one (`UpdateConflict`), and then `did` to own the document
/// (`OwnershipConflict`). Returns the new revision, whose hash is taken
/// over the canonical text of the body, and the texts to store.
pub fn plan_write(
    stored_doc: Option<Vec<u8>>,
    stored_meta: Option<Vec<u8>>,
    doc_id: &str,
    did: &Did,
    incoming: Body,
    now: u64,
) -> (r: Result<WritePlan, DatabaseError>)
    ensures
        plan_view(r) == put_outcome(
            bytes_view(stored_doc),
            bytes_view(stored_meta),
            doc_id@,
            did@,
            incoming@,
            now,
        ),
{
    match claimed_revision(&incoming) {
        None => {
            if stored_doc.is_some() {
                return Err(DatabaseError::Conflict);
            }
            plan_create(doc_id, did, incoming, now)
        },
        Some(c) => {
            match (stored_doc, stored_meta) {
                (Some(d), Some(mb)) => {
                    let dv = match read_body(d) {
                        Some(dv) => dv,
                        None => {
                            return Err(DatabaseError::SerializationError);
                        },
                    };
                    proof {
                        reveal_strlit("_rev");
                        assert("_rev"@ =~= rev_key());
                    }
                    match dv.field("_rev") {
                        Some(t) => {
                            if !(t == c) {
                                return Err(DatabaseError::UpdateConflict);
                            }
                        },
                        None => {
                            return Err(DatabaseError::UpdateConflict);
                        },
                    }
                    match read_body(mb) {
                        Some(Body::Object(mm)) => plan_update(dv, mm, c, did, incoming, now),
                        _ => Err(DatabaseError::SerializationError),
                    }
                },
                _ => Err(DatabaseError::NotFound),
            }
        },
    }
}

fn meta_id_of(doc_id: &str) -> (r: String)
    ensures
        r@ == doc_id@ + meta_suffix(),
{
    proof {
        reveal_strlit("_meta");
    }
    let r = doc_id.to_owned().concat("_meta");
    assert(r@ =~= doc_id@ + meta_suffix());
    r
}

/// A successful write: the new revision, and the entry to queue for
/// reconciliation of the writer's identity (`DidQueue::enqueue`).
pub struct WriteReceipt {
    pub rev: String,
    pub entry: DbEntry,
}

/// Writes document `doc_id` of database `db_name` on behalf of `did`. What
/// is written, or which error comes, is `put_outcome` of the records stored
/// before (decided by `plan_write`); on success the receipt holds the new
/// revision and the entry that queues the identity for reconciliation,
/// which the caller enqueues under its queue lock. When the outcome is an
/// error nothing has changed.
pub fn update_document(
    db: &mut sled::Db,
    db_name: &str,
    doc_id: &str,
    did: Did,
    data_wrapper: DataWrapper<Body>,
    now: u64,
) -> (r: Result<WriteReceipt, DatabaseError>)
    ensures
        ({
            let before = keyspace_contents(*old(db));
            let outcome = put_outcome(
                stored(before, doc_key(doc_id@)),
                stored(before, meta_key(doc_id@)),
                doc_id@,
                did@,
                data_wrapper.data@,
                now,
            );
            match r {
                Ok(receipt) => outcome matches Ok(w) && receipt.rev@ == w.0 && keyspace_contents(
                    *final(db),
                ) == before.insert(doc_key(doc_id@), encode_utf8(w.1)).insert(
                    meta_key(doc_id@),
                    encode_utf8(w.2),
                ) && receipt.entry@ == (did@, db_name@, doc_id@),
                Err(DatabaseError::StorageIOError) => outcome is Err ==> keyspace_contents(
                    *final(db),
                ) == before,
                Err(e) => outcome == Err::<WriteView, DatabaseError>(e) && keyspace_contents(
                    *final(db),
                ) == before,
            }
        }),
{
    let dk = doc_id.as_bytes();
    let meta_id = meta_id_of(doc_id);
    let mk = meta_id.as_str().as_bytes();
    let stored_doc = match keyspace_get(db, dk) {
        Ok(v) => v,
        Err(_) => {
            return Err(DatabaseError::StorageIOError);
        },
    };
    let stored_meta = match keyspace_get(db, mk) {
        Ok(v) => v,
        Err(_) => {
            return Err(DatabaseError::StorageIOError);
        },
    };
    let plan = match plan_write(stored_doc, stored_meta, doc_id, &did, data_wrapper.data, now) {
        Ok(p) => p,
        Err(e) => {
            return Err(e);
        },
    };
    match keyspace_insert_both(
        db,
        dk,
        plan.document.as_str().as_bytes(),
        mk,
        plan.metadata.as_str().as_bytes(),
    ) {
        Ok(()) => {},
        Err(_) => {
            return Err(DatabaseError::StorageIOError);
        },
    }
    Ok(WriteReceipt {
        rev: plan.rev,
        entry: DbEntry { did, db_name: text_of(db_name), doc_id: text_of(doc_id) },
    })
}


/// What reading a document comes to, given the bytes stored under its key.
pub open spec fn fetch_outcome(doc: Option<Seq<u8>>) -> Result<Seq<char>, DatabaseError> {
    match doc {
        None => Err(DatabaseError::NotFound),
        Some(b) => if valid_utf8(b) {
            Ok(decode_utf8(b))
        } else {
            Err(DatabaseError::SerializationError)
        },
    }
}

pub open spec fn text_view(r: Result<String, DatabaseError>) -> Result<Seq<char>, DatabaseError> {
    match r {
        Ok(t) => Ok(t@),
        Err(e) => Err(e),
    }
}

/// The text of a document, given the bytes stored under its key (see
/// `fetch_outcome`).
pub fn document_text(stored: Option<Vec<u8>>) -> (r: Result<String, DatabaseError>)
    ensures
        text_view(r) == fetch_outcome(bytes_view(stored)),
{
    match stored {
        Some(bytes) => match utf8_text(bytes.as_slice()) {
            Some(t) => Ok(t),
            None => Err(DatabaseError::SerializationError),
        },
        None => Err(DatabaseError::NotFound),
    }
}

/// Reads document `doc_id`: its stored JSON text, verbatim (see
/// `document_text`).
pub fn fetch_document(db: &sled::Db, doc_id: &str) -> (r: Result<String, DatabaseError>)
    ensures
        r != Err::<String, DatabaseError>(DatabaseError::StorageIOError) ==> text_view(r)
            == fetch_outcome(stored(keyspace_contents(*db), doc_key(doc_id@))),
{
    match keyspace_get(db, doc_id.as_bytes()) {
        Ok(stored) => document_text(stored),
        Err(_) => Err(DatabaseError::StorageIOError),
    }
}

/// The keyspace after document `doc_id` and its metadata are removed.
pub open spec fn without_document(m: Map<Seq<u8>, Seq<u8>>, doc_id: Seq<char>) -> Map<Seq<u8>, Seq<u8>> {
    m.remove(doc_key(doc_id)).remove(meta_key(doc_id))
}

/// Both the document and its metadata are stored.
pub open spec fn document_present(m: Map<Seq<u8>, Seq<u8>>, doc_id: Seq<char>) -> bool {
    m.contains_key(doc_key(doc_id)) && m.contains_key(meta_key(doc_id))
}

/// Whether a document can be removed, given the bytes stored under its key
/// and under its metadata's key: both must be there, else `NotFound`.
pub fn document_removal_check(doc: &Option<Vec<u8>>, meta: &Option<Vec<u8>>) -> (r: Result<(), DatabaseError>)
    ensures
        r == (if doc is Some && meta is Some {
            Ok::<(), DatabaseError>(())
        } else {
            Err(DatabaseError::NotFound)
        }),
{
    if doc.is_some() && meta.is_some() {
        Ok(())
    } else {
        Err(DatabaseError::NotFound)
    }
}

/// Removes document `doc_id` and its metadata. When either is missing it
/// fails with `NotFound` and removes nothing (see `document_removal_check`).
pub fn delete_document(db: &mut sled::Db, doc_id: &str) -> (r: Result<(), DatabaseError>)
    ensures
        ({
            let before = keyspace_contents(*old(db));
            match r {
                Ok(()) => document_present(before, doc_id@) && keyspace_contents(*final(db))
                    == without_document(before, doc_id@),
                Err(DatabaseError::StorageIOError) => true,
                Err(e) => e == DatabaseError::NotFound && !document_present(before, doc_id@)
                    && keyspace_contents(*final(db)) == before,
            }
        }),
        !document_present(keyspace_contents(*old(db)), doc_id@) ==> keyspace_contents(*final(db))
            == keyspace_contents(*old(db)),
{
    let dk = doc_id.as_bytes();
    let meta_id = meta_id_of(doc_id);
    let mk = meta_id.as_str().as_bytes();
    let stored_doc = match keyspace_get(db, dk) {
        Ok(v) => v,
        Err(_) => {
            return Err(DatabaseError::StorageIOError);
        },
    };
    let stored_meta = match keyspace_get(db, mk) {
        Ok(v) => v,
        Err(_) => {
            return Err(DatabaseError::StorageIOError);
        },
    };
    if let Err(e) = document_removal_check(&stored_doc, &stored_meta) {
        return Err(e);
    }
    match keyspace_remove_both(db, dk, mk) {
        Ok(()) => Ok(()),
        Err(_) => Err(DatabaseError::StorageIOError),
    }
}

/// The ledger's answer on whether an identity is registered.
#[derive(Debug, Clone, Copy, PartialEq, Eq, Structural)]
pub enum LedgerAnswer {
    Registered,
    NotRegistered,
    /// The query itself failed.
    Unreachable,
}

/// What one reconciliation step did with a queued write.
#[derive(Debug, Clone, Copy)]
pub enum Reconciliation {
    /// The identity is registered and is now recorded as confirmed.
    Confirm,
    /// The identity is not registered: its document was evicted, with this result.
    Evicted(Result<(), DatabaseError>),
    /// The ledger could not be asked: the entry is dropped for this cycle.
    Dropped,
}

/// Settles a queued write whose identity is not yet confirmed (see
/// `DidQueue::take_unconfirmed`), given the ledger's answer: a registered
/// identity is recorded as confirmed, the document
/// of an unregistered one is evicted with its metadata, and an entry is
/// dropped when the ledger could not be reached.
pub fn reconcile_entry(
    db: &mut sled::Db,
    confirmed: &mut ConfirmedIdentities,
    entry: &DbEntry,
    answer: LedgerAnswer,
) -> (r: Reconciliation)
    ensures
        final(confirmed)@ == (if answer == LedgerAnswer::Registered {
            old(confirmed)@.insert(entry.did@)
        } else {
            old(confirmed)@
        }),
        answer == LedgerAnswer::Registered ==> r == Reconciliation::Confirm && keyspace_contents(
            *final(db),
        ) == keyspace_contents(*old(db)),
        answer == LedgerAnswer::Unreachable ==> r == Reconciliation::Dropped && keyspace_contents(
            *final(db),
        ) == keyspace_contents(*old(db)),
        answer == LedgerAnswer::NotRegistered ==> (r matches Reconciliation::Evicted(res) && match res {
            Ok(()) => keyspace_contents(*final(db)) == without_document(
                keyspace_contents(*old(db)),
                entry.doc_id@,
            ),
            Err(DatabaseError::StorageIOError) => true,
            Err(e) => e == DatabaseError::NotFound && keyspace_contents(*final(db))
                == keyspace_contents(*old(db)),
        }),
{
    match answer {
        LedgerAnswer::Registered => {
            confirmed.insert(&entry.did);
            Reconciliation::Confirm
        },
        LedgerAnswer::Unreachable => Reconciliation::Dropped,
        LedgerAnswer::NotRegistered => Reconciliation::Evicted(
            delete_document(db, entry.doc_id.as_str()),
        ),
    }
}


pub proof fn lemma_keys_distinct(doc_id: Seq<char>)
    ensures
        doc_key(doc_id) != meta_key(doc_id),
{
    broadcast use encode_utf8_decode_utf8;

    if doc_key(doc_id) == meta_key(doc_id) {
        assert(decode_utf8(doc_key(doc_id)) == decode_utf8(meta_key(doc_id)));
        assert((doc_id + meta_suffix()).len() != doc_id.len());
    }
}

/// Create, then read: the document read back is the incoming object with
/// `id` set to the document id and `_rev` set to a generation-1 revision of
/// that content's canonical text (which reads back as generation 1); every
/// other member reads as it came. The incoming values must be JSON.
pub proof fn lemma_create_then_get(
    m: Map<Seq<u8>, Seq<u8>>,
    doc_id: Seq<char>,
    did: Seq<char>,
    incoming: Members,
    now: u64,
    q: Seq<char>,
)
    requires
        !m.contains_key(doc_key(doc_id)),
        claimed_rev(BodyView::Object(incoming)) is None,
        canonical_json(object_text(set_member(incoming, id_key(), json_string(doc_id)))) is Some,
    ensures
        ({
            let outcome = put_outcome(
                stored(m, doc_key(doc_id)),
                stored(m, meta_key(doc_id)),
                doc_id,
                did,
                BodyView::Object(incoming),
                now,
            );
            let with_id = set_member(incoming, id_key(), json_string(doc_id));
            let rev = rev_text(1, canonical_json(object_text(with_id))->Some_0);
            let doc = set_member(with_id, rev_key(), quoted(rev));
            let after = m.insert(doc_key(doc_id), encode_utf8(object_text(doc))).insert(
                meta_key(doc_id),
                encode_utf8(object_text(fresh_metadata(did, rev, now))),
            );
            &&& outcome == Ok::<WriteView, DatabaseError>(
                (rev, object_text(doc), object_text(fresh_metadata(did, rev, now))),
            )
            &&& fetch_outcome(stored(after, doc_key(doc_id))) == Ok::<Seq<char>, DatabaseError>(
                object_text(doc),
            )
            &&& member(doc, id_key()) == Some(json_string(doc_id))
            &&& member(doc, rev_key()) == Some(quoted(rev))
            &&& rev_generation(encode_utf8(quoted(rev))) == Some(1nat)
            &&& (q != id_key() && q != rev_key() ==> member(doc, q) == member(incoming, q))
        }),
{
    broadcast use encode_utf8_decode_utf8, encode_utf8_valid_utf8;

    lemma_keys_distinct(doc_id);
    let with_id = set_member(incoming, id_key(), json_string(doc_id));
    let rev = rev_text(1, canonical_json(object_text(with_id))->Some_0);
    lemma_set_member_lookup(with_id, rev_key(), quoted(rev), id_key());
    lemma_set_member_lookup(with_id, rev_key(), quoted(rev), rev_key());
    lemma_set_member_lookup(with_id, rev_key(), quoted(rev), q);
    lemma_set_member_lookup(incoming, id_key(), json_string(doc_id), q);
    lemma_set_member_lookup(incoming, id_key(), json_string(doc_id), id_key());
    lemma_rev_generation_round_trip(1, canonical_json(object_text(with_id))->Some_0);
    assert(quoted(rev) =~= seq!['"'] + rev + seq!['"']);
}

/// A write that claims no revision over an existing document fails with
/// `Conflict`.
pub proof fn lemma_duplicate_create(
    m: Map<Seq<u8>, Seq<u8>>,
    doc_id: Seq<char>,
    did: Seq<char>,
    incoming: BodyView,
    now: u64,
)
    requires
        m.contains_key(doc_key(doc_id)),
        claimed_rev(incoming) is None,
    ensures
        put_outcome(stored(m, doc_key(doc_id)), stored(m, meta_key(doc_id)), doc_id, did, incoming, now)
            == Err::<WriteView, DatabaseError>(DatabaseError::Conflict),
{
}

/// An update whose claimed revision is not the stored one fails with
/// `UpdateConflict`, whoever writes and whatever the metadata holds (and
/// `update_document` then leaves the keyspace as it was).
pub proof fn lemma_stale_update(
    doc: Seq<u8>,
    meta: Seq<u8>,
    doc_id: Seq<char>,
    did: Seq<char>,
    incoming: BodyView,
    now: u64,
)
    requires
        claimed_rev(incoming) is Some,
        stored_body(doc) matches Some(dv) && body_member(dv, rev_key()) != claimed_rev(incoming),
    ensures
        put_outcome(Some(doc), Some(meta), doc_id, did, incoming, now) == Err::<WriteView, DatabaseError>(
            DatabaseError::UpdateConflict,
        ),
{
}

/// An update with the current revision by someone other than the recorded
/// owner fails with `OwnershipConflict`.
pub proof fn lemma_foreign_update(
    doc: Seq<u8>,
    meta: Seq<u8>,
    doc_id: Seq<char>,
    did: Seq<char>,
    incoming: BodyView,
    now: u64,
)
    requires
        claimed_rev(incoming) is Some,
        stored_body(doc) matches Some(dv) && body_member(dv, rev_key()) == claimed_rev(incoming),
        stored_body(meta) matches Some(BodyView::Object(mm)) && member(mm, did_key()) != Some(
            json_string(did),
        ),
    ensures
        put_outcome(Some(doc), Some(meta), doc_id, did, incoming, now) == Err::<WriteView, DatabaseError>(
            DatabaseError::OwnershipConflict,
        ),
{
}

/// A successful update raises the generation by exactly one: the new
/// revision is `<g + 1>-<hash>`, where `g` is the generation of the stored
/// revision it replaced and the hash is taken over the canonical text of
/// the merged body without its revision; written as a JSON string it reads
/// back as `g + 1`.
pub proof fn lemma_update_generation(
    doc: Seq<u8>,
    meta: Seq<u8>,
    doc_id: Seq<char>,
    did: Seq<char>,
    incoming: BodyView,
    now: u64,
)
    requires
        claimed_rev(incoming) is Some,
        put_outcome(Some(doc), Some(meta), doc_id, did, incoming, now) is Ok,
    ensures
        ({
            let w = put_outcome(Some(doc), Some(meta), doc_id, did, incoming, now)->Ok_0;
            let c = claimed_rev(incoming)->Some_0;
            stored_body(doc) matches Some(dv) && body_member(dv, rev_key()) == Some(c) && (
            current_generation(encode_utf8(c)) matches Some(g) && w.0 == rev_text(
                g as nat + 1,
                canonical_json(body_text(without_member(merged(dv, incoming), rev_key()).0))->Some_0,
            ) && rev_generation(encode_utf8(quoted(w.0))) == Some(g as nat + 1))
        }),
{
    let c = claimed_rev(incoming)->Some_0;
    let dv = stored_body(doc)->Some_0;
    let g = current_generation(encode_utf8(c))->Some_0;
    let body = canonical_json(body_text(without_member(merged(dv, incoming), rev_key()).0))->Some_0;
    lemma_rev_generation_round_trip(g as nat + 1, body);
    assert(quoted(rev_text(g as nat + 1, body)) =~= seq!['"'] + rev_text(g as nat + 1, body) + seq!['"']);
}

/// Eviction, then read: neither the document nor its metadata is left, and
/// reading the document fails with `NotFound`.
pub proof fn lemma_eviction_then_read(m: Map<Seq<u8>, Seq<u8>>, doc_id: Seq<char>)
    ensures
        !without_document(m, doc_id).contains_key(doc_key(doc_id)),
        !without_document(m, doc_id).contains_key(meta_key(doc_id)),
        fetch_outcome(stored(without_document(m, doc_id), doc_key(doc_id))) == Err::<
            Seq<char>,
            DatabaseError,
        >(DatabaseError::NotFound),
{
}


/// An update stores the merge: the stored document is the existing object
/// merged with the incoming one, without the incoming `_rev`, and with the
/// new revision as `_rev`. So each other key reads the incoming value where
/// the incoming object has that key and the existing value otherwise.
pub proof fn lemma_update_stores_merge(
    doc: Seq<u8>,
    meta: Seq<u8>,
    doc_id: Seq<char>,
    did: Seq<char>,
    existing: Members,
    incoming: Members,
    now: u64,
    q: Seq<char>,
)
    requires
        claimed_rev(BodyView::Object(incoming)) is Some,
        stored_body(doc) == Some(BodyView::Object(existing)),
        unique_keys(incoming),
        put_outcome(Some(doc), Some(meta), doc_id, did, BodyView::Object(incoming), now) is Ok,
        q != rev_key(),
    ensures
        ({
            let w = put_outcome(Some(doc), Some(meta), doc_id, did, BodyView::Object(incoming), now)->Ok_0;
            let stored = set_member(
                remove_member(merge_members(existing, incoming), rev_key()),
                rev_key(),
                quoted(w.0),
            );
            &&& w.1 == object_text(stored)
            &&& member(stored, rev_key()) == Some(quoted(w.0))
            &&& member(stored, q) == (if member(incoming, q) is Some {
                member(incoming, q)
            } else {
                member(existing, q)
            })
        }),
{
    let w = put_outcome(Some(doc), Some(meta), doc_id, did, BodyView::Object(incoming), now)->Ok_0;
    let m = remove_member(merge_members(existing, incoming), rev_key());
    lemma_set_member_lookup(m, rev_key(), quoted(w.0), rev_key());
    lemma_set_member_lookup(m, rev_key(), quoted(w.0), q);
    lemma_remove_member_lookup(merge_members(existing, incoming), rev_key(), q);
    lemma_merge_lookup(existing, incoming, q);
}

} // verus!
