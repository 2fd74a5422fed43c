//! The keyspace engine: sled, an ordered key -> bytes store. Its contents are
//! modelled as a map; a handle is taken `&mut` wherever a call writes, so the
//! model follows every change made through it. sled writes through shared
//! handles (its clones share one tree), so the model holds only while no
//! other handle to the same keyspace writes during a call: callers keep one
//! handle per keyspace and use it under a lock.
use vstd::prelude::*;
use vstd::utf8::*;

verus! {

#[verifier::external_type_specification]
#[verifier::external_body]
pub struct ExDb(sled::Db);

#[verifier::external_type_specification]
#[verifier::external_body]
pub struct ExSledError(sled::Error);

/// The key/value pairs that a keyspace holds.
pub uninterp spec fn keyspace_contents(db: sled::Db) -> Map<Seq<u8>, Seq<u8>>;

/// The value that `m` holds under `k`.
pub open spec fn stored(m: Map<Seq<u8>, Seq<u8>>, k: Seq<u8>) -> Option<Seq<u8>> {
    if m.contains_key(k) {
        Some(m[k])
    } else {
        None
    }
}

pub open spec fn bytes_view(v: Option<Vec<u8>>) -> Option<Seq<u8>> {
    match v {
        Some(b) => Some(b@),
        None => None,
    }
}

/// Relies on sled::Tree::get: the value stored under `key`, if any.
#[verifier::external_body]
pub(crate) fn keyspace_get(db: &sled::Db, key: &[u8]) -> (r: Result<Option<Vec<u8>>, sled::Error>)
    ensures
        r matches Ok(v) ==> bytes_view(v) == stored(keyspace_contents(*db), key@),
{
    db.get(key).map(|v| v.map(|v| v.to_vec()))
}

/// Relies on sled::Tree::insert: once it succeeds `key` holds `value`, and
/// no other key changed.
#[verifier::external_body]
pub(crate) fn keyspace_insert(db: &mut sled::Db, key: &[u8], value: &[u8]) -> (r: Result<(), sled::Error>)
    ensures
        r is Ok ==> keyspace_contents(*final(db)) == keyspace_contents(*old(db)).insert(key@, value@),
{
    db.insert(key, value).map(|_| ())
}

/// Relies on sled::Tree::remove: once it succeeds `key` holds nothing, no
/// other key changed, and the value it held is returned.
#[verifier::external_body]
pub(crate) fn keyspace_remove(db: &mut sled::Db, key: &[u8]) -> (r: Result<Option<Vec<u8>>, sled::Error>)
    ensures
        r matches Ok(v) ==> bytes_view(v) == stored(keyspace_contents(*old(db)), key@)
            && keyspace_contents(*final(db)) == keyspace_contents(*old(db)).remove(key@),
{
    db.remove(key).map(|v| v.map(|v| v.to_vec()))
}

/// `a` comes before `b` in byte-wise lexicographic order.
pub open spec fn bytes_less(a: Seq<u8>, b: Seq<u8>) -> bool {
    exists|i: int|
        0 <= i <= a.len() && i <= b.len() && a.subrange(0, i) == b.subrange(0, i) && ((i == a.len()
            && i < b.len()) || (i < a.len() && i < b.len() && a[i] < b[i]))
}

pub proof fn lemma_bytes_less_distinct(a: Seq<u8>, b: Seq<u8>)
    requires
        bytes_less(a, b),
    ensures
        a != b,
{
}

/// Relies on sled::Tree::iter and Iter::keys, collected into a `Result`:
/// the first read that fails ends the listing with its error (a failing read
/// does not move the iterator, so reading on could repeat it forever).
/// Otherwise every key that the keyspace holds, in strictly ascending
/// order, as each read moves the iterator's lower bound past the key it
/// returned.
#[verifier::external_body]
pub(crate) fn keyspace_keys(db: &sled::Db) -> (r: Result<Vec<Vec<u8>>, sled::Error>)
    ensures
        r matches Ok(keys) ==> {
            &&& forall|i: int|
                0 <= i < keys@.len() ==> keyspace_contents(*db).contains_key(#[trigger] keys@[i]@)
            &&& forall|i: int, j: int|
                0 <= i < j < keys@.len() ==> bytes_less(#[trigger] keys@[i]@, #[trigger] keys@[j]@)
            &&& forall|k: Seq<u8>|
                #[trigger] keyspace_contents(*db).contains_key(k) ==> exists|i: int|
                    0 <= i < keys@.len() && #[trigger] keys@[i]@ == k
        },
{
    db.iter().keys().map(|k| k.map(|k| k.to_vec())).collect()
}

/// Relies on sled::Batch and Tree::apply_batch: once it succeeds `k1` holds
/// `v1`, `k2` holds `v2`, and no other key changed. The two writes go to
/// the log as one batch, which recovery after a crash restores whole or
/// not at all; when the call itself fails, the first write may already
/// stand, so nothing is said of the contents then.
#[verifier::external_body]
pub(crate) fn keyspace_insert_both(
    db: &mut sled::Db,
    k1: &[u8],
    v1: &[u8],
    k2: &[u8],
    v2: &[u8],
) -> (r: Result<(), sled::Error>)
    ensures
        r is Ok ==> keyspace_contents(*final(db)) == keyspace_contents(*old(db)).insert(k1@, v1@).insert(
            k2@,
            v2@,
        ),
{
    let mut batch = sled::Batch::default();
    batch.insert(k1, v1);
    batch.insert(k2, v2);
    db.apply_batch(batch)
}

/// Relies on sled::Batch and Tree::apply_batch: once it succeeds neither
/// `k1` nor `k2` holds anything, and no other key changed; one batch, as
/// above.
#[verifier::external_body]
pub(crate) fn keyspace_remove_both(db: &mut sled::Db, k1: &[u8], k2: &[u8]) -> (r: Result<(), sled::Error>)
    ensures
        r is Ok ==> keyspace_contents(*final(db)) == keyspace_contents(*old(db)).remove(k1@).remove(
            k2@,
        ),
{
    let mut batch = sled::Batch::default();
    batch.remove(k1);
    batch.remove(k2);
    db.apply_batch(batch)
}

/// Relies on std::str::from_utf8: the text, exactly when the bytes are
/// valid UTF-8.
#[verifier::external_body]
pub(crate) fn utf8_text(bytes: &[u8]) -> (r: Option<String>)
    ensures
        r is Some <==> valid_utf8(bytes@),
        r matches Some(t) ==> t@ == decode_utf8(bytes@),
{
    std::str::from_utf8(bytes).map(|t| t.to_owned()).ok()
}

} // verus!
