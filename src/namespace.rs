//! Logical databases: each is a keyspace in a directory under the data root,
//! registered by name in a shared root keyspace.
use crate::body::{json_string, json_string_text, members_to_text, members_view, object_text, Members};
use crate::error::DatabaseError;
use crate::keyspace::{
    bytes_less, keyspace_contents, keyspace_get, keyspace_insert, keyspace_keys, keyspace_remove,
    lemma_bytes_less_distinct, utf8_text,
};
use crate::revision::{decimal, decimal_text};
use vstd::prelude::*;
use vstd::string::*;
use vstd::utf8::*;

verus! {

pub open spec fn slash() -> u8 {
    47u8
}

/// In paths given as bytes, `parent`'s components are a leading run of
/// `child`'s: `child` starts with `parent`, and there a component ends.
/// Equal paths are within each other.
pub open spec fn within_dir(child: Seq<u8>, parent: Seq<u8>) -> bool {
    &&& parent.len() > 0
    &&& parent.len() <= child.len()
    &&& forall|j: int| 0 <= j < parent.len() ==> child[j] == parent[j]
    &&& (child.len() == parent.len() || parent.last() == slash() || child[parent.len() as int]
        == slash())
}

/// Whether directory `parent` holds `child` or is `child`, compared by whole
/// path components. Both must be canonical (absolute, with no `.`, `..`,
/// repeated or trailing separators): on other paths a textual prefix is not
/// containment (`/srv/data/../x` starts with `/srv/data`).
pub fn is_directory_within_parent(child: &str, parent: &str) -> (r: bool)
    ensures
        r == within_dir(child.spec_bytes(), parent.spec_bytes()),
{
    let c = child.as_bytes();
    let p = parent.as_bytes();
    if p.len() == 0 || c.len() < p.len() {
        return false;
    }
    let mut i: usize = 0;
    while i < p.len()
        invariant
            i <= p.len(),
            p.len() <= c.len(),
            c@ == child.spec_bytes(),
            p@ == parent.spec_bytes(),
            forall|j: int| 0 <= j < i ==> c@[j] == p@[j],
        decreases p.len() - i,
    {
        if c[i] != p[i] {
            assert(c@[i as int] != p@[i as int]);
            return false;
        }
        i += 1;
    }
    c.len() == p.len() || p[p.len() - 1] == 47u8 || c[p.len()] == 47u8
}

/// Whether a database's directory exists strictly inside the data root,
/// given the canonical forms of both paths (`None` where a path does not
/// resolve).
pub fn database_exists(db_dir: Option<String>, data_root: Option<String>) -> (r: bool)
    ensures
        r == match (db_dir, data_root) {
            (Some(d), Some(root)) => within_dir(encode_utf8(d@), encode_utf8(root@)) && d@ != root@,
            _ => false,
        },
{
    match (db_dir, data_root) {
        (Some(d), Some(root)) => is_directory_within_parent(d.as_str(), root.as_str()) && !(d
            == root),
        _ => false,
    }
}

/// Relies on uuid::Uuid::new_v4 and its `Display`: a random identifier in
/// hyphenated form, 36 characters.
#[verifier::external_body]
pub fn generate_uuid() -> (r: String)
    ensures
        r@.len() == 36,
{
    uuid::Uuid::new_v4().to_string()
}

pub open spec fn id_field() -> Seq<char> {
    seq!['i', 'd']
}

pub open spec fn application_did_field() -> Seq<char> {
    seq!['a', 'p', 'p', 'l', 'i', 'c', 'a', 't', 'i', 'o', 'n', '_', 'd', 'i', 'd']
}

pub open spec fn created_at_field() -> Seq<char> {
    seq!['c', 'r', 'e', 'a', 't', 'e', 'd', '_', 'a', 't']
}

/// The record of a database in the root keyspace.
pub open spec fn database_record(id: Seq<char>, application_did: Seq<char>, now: u64) -> Seq<char> {
    object_text(
        seq![
            (id_field(), json_string(id)),
            (application_did_field(), json_string(application_did)),
            (created_at_field(), decimal(now as nat)),
        ],
    )
}

/// Database `name` is registered in root keyspace contents `m`.
pub open spec fn registered(m: Map<Seq<u8>, Seq<u8>>, name: Seq<char>) -> bool {
    m.contains_key(encode_utf8(name))
}

/// Whether a database may be registered, given what the root keyspace holds
/// under its name: `AlreadyExists` when it holds a record.
pub fn registration_check(existing: &Option<Vec<u8>>) -> (r: Result<(), DatabaseError>)
    ensures
        r == (if existing is Some {
            Err(DatabaseError::AlreadyExists)
        } else {
            Ok::<(), DatabaseError>(())
        }),
{
    match existing {
        Some(_) => Err(DatabaseError::AlreadyExists),
        None => Ok(()),
    }
}

/// Registers database `name`, owned by `application_did` and created at
/// `now`, under a fresh identifier; `AlreadyExists` when it is registered.
pub fn create_database(root: &mut sled::Db, name: &str, application_did: &str, now: u64) -> (r: Result<(), DatabaseError>)
    ensures
        ({
            let before = keyspace_contents(*old(root));
            match r {
                Ok(()) => !registered(before, name@) && exists|id: Seq<char>|
                    id.len() == 36 && keyspace_contents(*final(root)) == before.insert(
                        encode_utf8(name@),
                        encode_utf8(#[trigger] database_record(id, application_did@, now)),
                    ),
                Err(DatabaseError::StorageIOError) => true,
                Err(e) => e == DatabaseError::AlreadyExists && registered(before, name@)
                    && keyspace_contents(*final(root)) == before,
            }
        }),
        registered(keyspace_contents(*old(root)), name@) ==> keyspace_contents(*final(root))
            == keyspace_contents(*old(root)),
{
    let key = name.as_bytes();
    match keyspace_get(root, key) {
        Ok(existing) => {
            if let Err(e) = registration_check(&existing) {
                return Err(e);
            }
        },
        Err(_) => {
            return Err(DatabaseError::StorageIOError);
        },
    }
    let id = generate_uuid();
    proof {
        reveal_strlit("id");
        reveal_strlit("application_did");
        reveal_strlit("created_at");
        assert("id"@ =~= id_field());
        assert("application_did"@ =~= application_did_field());
        assert("created_at"@ =~= created_at_field());
    }
    let mut members: Vec<(String, String)> = Vec::new();
    members.push(("id".to_owned(), json_string_text(id.as_str())));
    members.push(("application_did".to_owned(), json_string_text(application_did)));
    members.push(("created_at".to_owned(), decimal_text(now)));
    assert(members_view(members@) =~= seq![
        (id_field(), json_string(id@)),
        (application_did_field(), json_string(application_did@)),
        (created_at_field(), decimal(now as nat)),
    ]);
    let record = members_to_text(&members);
    match keyspace_insert(root, key, record.as_str().as_bytes()) {
        Ok(()) => {},
        Err(_) => {
            return Err(DatabaseError::StorageIOError);
        },
    }
    assert(record@ == database_record(id@, application_did@, now));
    Ok(())
}

/// What removing the registration of database `name` comes to.
pub open spec fn delete_database_outcome(m: Map<Seq<u8>, Seq<u8>>, name: Seq<char>) -> Result<(), DatabaseError> {
    if registered(m, name) {
        Ok(())
    } else {
        Err(DatabaseError::NotFound)
    }
}

/// Whether a registration can be removed, given what the root keyspace
/// holds under the name: `NotFound` when it holds nothing.
pub fn removal_check(existing: &Option<Vec<u8>>) -> (r: Result<(), DatabaseError>)
    ensures
        r == (if existing is Some {
            Ok::<(), DatabaseError>(())
        } else {
            Err(DatabaseError::NotFound)
        }),
{
    match existing {
        Some(_) => Ok(()),
        None => Err(DatabaseError::NotFound),
    }
}

/// Removes the registration of database `name`; `NotFound` when it is not
/// registered. The caller removes the directory afterwards, so that no
/// registration ever points at a removed directory.
pub fn delete_database(root: &mut sled::Db, name: &str) -> (r: Result<(), DatabaseError>)
    ensures
        ({
            let before = keyspace_contents(*old(root));
            match r {
                Ok(()) => delete_database_outcome(before, name@) == Ok::<(), DatabaseError>(())
                    && keyspace_contents(*final(root)) == before.remove(encode_utf8(name@)),
                Err(DatabaseError::StorageIOError) => true,
                Err(e) => delete_database_outcome(before, name@) == Err::<(), DatabaseError>(e)
                    && keyspace_contents(*final(root)) == before,
            }
        }),
        !registered(keyspace_contents(*old(root)), name@) ==> keyspace_contents(*final(root))
            == keyspace_contents(*old(root)),
{
    let key = name.as_bytes();
    match keyspace_get(root, key) {
        Ok(existing) => {
            if let Err(e) = removal_check(&existing) {
                return Err(e);
            }
        },
        Err(_) => {
            return Err(DatabaseError::StorageIOError);
        },
    }
    match keyspace_remove(root, key) {
        Ok(_) => Ok(()),
        Err(_) => Err(DatabaseError::StorageIOError),
    }
}

/// Some entry of `names` is `n`.
pub open spec fn name_listed(names: Seq<String>, n: Seq<char>) -> bool {
    exists|i: int| 0 <= i < names.len() && #[trigger] names[i]@ == n
}

/// What reading keys as database names comes to: each key's UTF-8 text, in
/// order, or `SerializationError` when some key is not UTF-8.
pub open spec fn names_outcome(keys: Seq<Seq<u8>>) -> Result<Seq<Seq<char>>, DatabaseError> {
    if forall|i: int| 0 <= i < keys.len() ==> valid_utf8(#[trigger] keys[i]) {
        Ok(keys.map_values(|k: Seq<u8>| decode_utf8(k)))
    } else {
        Err(DatabaseError::SerializationError)
    }
}

pub open spec fn names_view(r: Result<Vec<String>, DatabaseError>) -> Result<Seq<Seq<char>>, DatabaseError> {
    match r {
        Ok(n) => Ok(n@.map_values(|s: String| s@)),
        Err(e) => Err(e),
    }
}

/// Reads registered keys as database names (see `names_outcome`).
pub fn database_names(keys: &Vec<Vec<u8>>) -> (r: Result<Vec<String>, DatabaseError>)
    ensures
        names_view(r) == names_outcome(keys@.map_values(|k: Vec<u8>| k@)),
{
    let ghost ks = keys@.map_values(|k: Vec<u8>| k@);
    let mut names: Vec<String> = Vec::new();
    let mut i: usize = 0;
    while i < keys.len()
        invariant
            i <= keys.len(),
            ks == keys@.map_values(|k: Vec<u8>| k@),
            names@.len() == i,
            forall|j: int| 0 <= j < i ==> valid_utf8(#[trigger] ks[j]),
            forall|j: int| 0 <= j < i ==> (#[trigger] names@[j])@ == decode_utf8(ks[j]),
        decreases keys.len() - i,
    {
        match utf8_text(keys[i].as_slice()) {
            Some(name) => {
                names.push(name);
            },
            None => {
                assert(!valid_utf8(ks[i as int]));
                return Err(DatabaseError::SerializationError);
            },
        }
        i += 1;
    }
    assert(names@.map_values(|s: String| s@) =~= ks.map_values(|k: Seq<u8>| decode_utf8(k)));
    Ok(names)
}

/// Names of all registered databases, in the root keyspace's order, each
/// once: exactly the keys of the root keyspace, read as UTF-8.
/// `StorageIOError` when the keys could not be read, `SerializationError`
/// when one is not UTF-8 (see `database_names`).
pub fn all_dbs(root: &sled::Db) -> (r: Result<Vec<String>, DatabaseError>)
    ensures
        r matches Ok(names) ==> {
            &&& forall|i: int|
                0 <= i < names@.len() ==> keyspace_contents(*root).contains_key(
                    encode_utf8(#[trigger] names@[i]@),
                )
            &&& forall|i: int, j: int|
                0 <= i < j < names@.len() ==> (#[trigger] names@[i])@ != (#[trigger] names@[j])@
            &&& forall|k: Seq<u8>|
                #[trigger] keyspace_contents(*root).contains_key(k) ==> valid_utf8(k) && name_listed(
                    names@,
                    decode_utf8(k),
                )
        },
        r == Err::<Vec<String>, DatabaseError>(DatabaseError::SerializationError) ==> exists|k: Seq<u8>|
            #[trigger] keyspace_contents(*root).contains_key(k) && !valid_utf8(k),
        r matches Err(e) ==> e == DatabaseError::SerializationError || e
            == DatabaseError::StorageIOError,
        (forall|k: Seq<u8>| #[trigger] keyspace_contents(*root).contains_key(k) ==> valid_utf8(k))
            ==> !(r == Err::<Vec<String>, DatabaseError>(DatabaseError::SerializationError)),
{
    let keys = match keyspace_keys(root) {
        Ok(keys) => keys,
        Err(_) => {
            return Err(DatabaseError::StorageIOError);
        },
    };
    let r = database_names(&keys);
    proof {
        broadcast use vstd::utf8::decode_utf8_encode_utf8;

        let ks = keys@.map_values(|k: Vec<u8>| k@);
        assert(forall|i: int| 0 <= i < ks.len() ==> #[trigger] ks[i] == keys@[i]@);
        if r is Ok {
            let names = r->Ok_0;
            assert(names@.map_values(|s: String| s@) == ks.map_values(|k: Seq<u8>| decode_utf8(k)));
            assert(names@.len() == keys@.len());
            assert forall|i: int| 0 <= i < names@.len() implies #[trigger] names@[i]@ == decode_utf8(
                keys@[i]@,
            ) && valid_utf8(keys@[i]@) by {
                assert(names@.map_values(|s: String| s@)[i] == names@[i]@);
                assert(ks.map_values(|k: Seq<u8>| decode_utf8(k))[i] == decode_utf8(ks[i]));
            }
            assert forall|i: int| 0 <= i < names@.len() implies keyspace_contents(*root).contains_key(
                encode_utf8(#[trigger] names@[i]@),
            ) by {
                assert(names@.map_values(|s: String| s@)[i] == names@[i]@);
                assert(ks.map_values(|k: Seq<u8>| decode_utf8(k))[i] == decode_utf8(ks[i]));
                assert(valid_utf8(ks[i]));
                assert(names@[i]@ == decode_utf8(keys@[i]@) && valid_utf8(keys@[i]@));
                assert(encode_utf8(decode_utf8(keys@[i]@)) == keys@[i]@);
            }
            assert forall|a: int, b: int| 0 <= a < b < names@.len() implies (#[trigger] names@[a])@
                != (#[trigger] names@[b])@ by {
                assert(names@.map_values(|s: String| s@)[a] == names@[a]@);
                assert(ks.map_values(|k: Seq<u8>| decode_utf8(k))[a] == decode_utf8(ks[a]));
                assert(valid_utf8(ks[a]));
                assert(names@[a]@ == decode_utf8(keys@[a]@) && valid_utf8(keys@[a]@));
                assert(names@.map_values(|s: String| s@)[b] == names@[b]@);
                assert(ks.map_values(|k: Seq<u8>| decode_utf8(k))[b] == decode_utf8(ks[b]));
                assert(valid_utf8(ks[b]));
                assert(names@[b]@ == decode_utf8(keys@[b]@) && valid_utf8(keys@[b]@));
                assert(bytes_less(keys@[a]@, keys@[b]@));
                lemma_bytes_less_distinct(keys@[a]@, keys@[b]@);
                if names@[a]@ == names@[b]@ {
                    assert(encode_utf8(decode_utf8(keys@[a]@)) == keys@[a]@);
                    assert(encode_utf8(decode_utf8(keys@[b]@)) == keys@[b]@);
                }
            }
            assert forall|k: Seq<u8>| #[trigger] keyspace_contents(*root).contains_key(k) implies valid_utf8(
                k,
            ) && name_listed(names@, decode_utf8(k)) by {
                let i = choose|i: int| 0 <= i < keys@.len() && #[trigger] keys@[i]@ == k;
                assert(names@.map_values(|s: String| s@)[i] == names@[i]@);
                assert(ks.map_values(|k: Seq<u8>| decode_utf8(k))[i] == decode_utf8(ks[i]));
                assert(valid_utf8(ks[i]));
                assert(names@[i]@ == decode_utf8(keys@[i]@) && valid_utf8(keys@[i]@));
            }
        }
        if r == Err::<Vec<String>, DatabaseError>(DatabaseError::SerializationError) {
            let i = choose|i: int| 0 <= i < ks.len() && !valid_utf8(#[trigger] ks[i]);
            assert(keyspace_contents(*root).contains_key(keys@[i]@));
        }
    }
    r
}

/// Lifecycle of a database: once created it is registered; once deleted it
/// is not, and deleting it again fails with `NotFound`.
pub proof fn lemma_database_lifecycle(m: Map<Seq<u8>, Seq<u8>>, name: Seq<char>, record: Seq<u8>)
    ensures
        ({
            let created = m.insert(encode_utf8(name), record);
            let deleted = created.remove(encode_utf8(name));
            &&& registered(created, name)
            &&& delete_database_outcome(created, name) == Ok::<(), DatabaseError>(())
            &&& !registered(deleted, name)
            &&& delete_database_outcome(deleted, name) == Err::<(), DatabaseError>(
                DatabaseError::NotFound,
            )
        }),
{
}

} // verus!
