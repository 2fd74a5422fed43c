//! Decentralized identities, and the queue of writes whose identity is still
//! to be confirmed against the ledger.
use std::collections::VecDeque;
use vstd::prelude::*;

verus! {

/// A decentralized identifier, `did:sam:<root|apps>:<48 hex digits>`.
#[derive(Debug)]
pub struct Did(pub String);

impl View for Did {
    type V = Seq<char>;

    open spec fn view(&self) -> Seq<char> {
        self.0@
    }
}

impl PartialEq for Did {
    fn eq(&self, other: &Did) -> (r: bool) {
        self.0 == other.0
    }
}

impl vstd::std_specs::cmp::PartialEqSpecImpl for Did {
    open spec fn obeys_eq_spec() -> bool {
        true
    }

    open spec fn eq_spec(&self, other: &Did) -> bool {
        self.0@ == other.0@
    }
}

/// Settings of a database server.
pub struct DbConfig {
    pub path: String,
    pub log: String,
    pub flush_interval: u64,
    pub cache_capacity: u64,
    pub version: String,
    pub contract_address: String,
    pub chain_address: String,
    pub mnemonic: String,
}

pub open spec fn is_hex_char(c: char) -> bool {
    ('0' <= c <= '9') || ('a' <= c <= 'f') || ('A' <= c <= 'F')
}

/// `did:sam:root:` for a user, `did:sam:apps:` for an application.
pub open spec fn did_prefix(user: bool) -> Seq<char> {
    if user {
        seq!['d', 'i', 'd', ':', 's', 'a', 'm', ':', 'r', 'o', 'o', 't', ':']
    } else {
        seq!['d', 'i', 'd', ':', 's', 'a', 'm', ':', 'a', 'p', 'p', 's', ':']
    }
}

/// The four `:`-separated parts are `did`, `sam`, the kind, and 48 hex digits.
pub open spec fn well_formed_did(s: Seq<char>, user: bool) -> bool {
    &&& s.len() == 61
    &&& s.subrange(0, 13) == did_prefix(user)
    &&& forall|i: int| 13 <= i < 61 ==> is_hex_char(#[trigger] s[i])
}

impl DbConfig {
    /// Whether `did` is a well-formed identifier of a user (`user`) or of an
    /// application.
    pub fn is_valid_did(did: &String, user: bool) -> (r: bool)
        ensures
            r == well_formed_did(did@, user),
    {
        let s = did.as_str();
        if !s.is_ascii() {
            proof {
                if well_formed_did(did@, user) {
                    assert forall|i: int| 0 <= i < did@.len() implies '\0' <= #[trigger] did@[i]
                        <= '\u{7f}' by {
                        if i < 13 {
                            assert(did@[i] == did@.subrange(0, 13)[i]);
                        } else {
                            assert(is_hex_char(did@[i]));
                        }
                    }
                }
            }
            return false;
        }
        let b = s.as_bytes();
        proof {
            broadcast use vstd::string::group_string_axioms;

            assert(b@ =~= Seq::new(did@.len(), |i| did@[i] as u8));
        }
        if b.len() != 61 {
            return false;
        }
        let kind: [u8; 4] = if user {
            [114u8, 111u8, 111u8, 116u8]
        } else {
            [97u8, 112u8, 112u8, 115u8]
        };
        let ok_prefix = b[0] == 100u8 && b[1] == 105u8 && b[2] == 100u8 && b[3] == 58u8 && b[4]
            == 115u8 && b[5] == 97u8 && b[6] == 109u8 && b[7] == 58u8 && b[8] == kind[0] && b[9]
            == kind[1] && b[10] == kind[2] && b[11] == kind[3] && b[12] == 58u8;
        if !ok_prefix {
            proof {
                if well_formed_did(did@, user) {
                    assert forall|i: int| 0 <= i < 13 implies did@[i] == did_prefix(user)[i] by {
                        assert(did@[i] == did@.subrange(0, 13)[i]);
                    }
                }
            }
            return false;
        }
        proof {
            assert(did@.subrange(0, 13) =~= did_prefix(user));
        }
        let mut i: usize = 13;
        while i < 61
            invariant
                13 <= i <= 61,
                b@.len() == 61,
                did@.len() == 61,
                b@ =~= Seq::new(did@.len(), |j| did@[j] as u8),
                forall|j: int| 0 <= j < did@.len() ==> '\0' <= #[trigger] did@[j] <= '\u{7f}',
                forall|j: int| 13 <= j < i ==> is_hex_char(#[trigger] did@[j]),
            decreases 61 - i,
        {
            let c = b[i];
            if !((48u8 <= c && c <= 57u8) || (97u8 <= c && c <= 102u8) || (65u8 <= c && c <= 70u8)) {
                assert(!is_hex_char(did@[i as int]));
                return false;
            }
            assert(is_hex_char(did@[i as int]));
            i += 1;
        }
        true
    }
}

/// Credentials that assign an application control of the database.
pub struct AuthPayload {
    pub did: Did,
    pub secret: String,
}

/// Basic-auth credentials of the application.
pub struct BasicAuth {
    pub username: String,
    pub password: String,
}

/// A request body: the document data.
pub struct DataWrapper<T> {
    pub data: T,
}

/// A write waiting for its identity to be confirmed: who wrote, and where.
pub struct DbEntry {
    pub did: Did,
    pub db_name: String,
    pub doc_id: String,
}

impl View for DbEntry {
    type V = (Seq<char>, Seq<char>, Seq<char>);

    open spec fn view(&self) -> (Seq<char>, Seq<char>, Seq<char>) {
        (self.did@, self.db_name@, self.doc_id@)
    }
}

/// Some entry of `q` is for identity `did`.
pub open spec fn queued_did(q: Seq<(Seq<char>, Seq<char>, Seq<char>)>, did: Seq<char>) -> bool {
    exists|i: int| 0 <= i < q.len() && (#[trigger] q[i]).0 == did
}

/// Enqueues `e` at the back unless an entry for its identity waits already.
pub open spec fn enqueue_spec(
    q: Seq<(Seq<char>, Seq<char>, Seq<char>)>,
    e: (Seq<char>, Seq<char>, Seq<char>),
) -> Seq<(Seq<char>, Seq<char>, Seq<char>)> {
    if queued_did(q, e.0) {
        q
    } else {
        q.push(e)
    }
}

/// First-in first-out queue of writes to reconcile, at most one per identity.
pub struct DidQueue {
    entries: VecDeque<DbEntry>,
}

impl View for DidQueue {
    type V = Seq<(Seq<char>, Seq<char>, Seq<char>)>;

    closed spec fn view(&self) -> Seq<(Seq<char>, Seq<char>, Seq<char>)> {
        self.entries@.map_values(|e: DbEntry| e@)
    }
}

impl DidQueue {
    pub fn new() -> (r: DidQueue)
        ensures
            r@ == Seq::<(Seq<char>, Seq<char>, Seq<char>)>::empty(),
    {
        let r = DidQueue { entries: VecDeque::new() };
        assert(r@ =~= Seq::<(Seq<char>, Seq<char>, Seq<char>)>::empty());
        r
    }

    pub fn len(&self) -> (r: usize)
        ensures
            r == self@.len(),
    {
        self.entries.len()
    }

    /// Whether an entry for `did` waits.
    pub fn contains_did(&self, did: &Did) -> (r: bool)
        ensures
            r == queued_did(self@, did@),
    {
        let mut i: usize = 0;
        while i < self.entries.len()
            invariant
                i <= self.entries.len(),
                forall|j: int| 0 <= j < i ==> (#[trigger] self@[j]).0 != did@,
            decreases self.entries.len() - i,
        {
            if self.entries[i].did.0 == did.0 {
                assert(self@[i as int].0 == did@);
                return true;
            }
            i += 1;
        }
        false
    }

    /// Adds `entry` at the back, unless an entry for the same identity waits
    /// already; returns whether it was added.
    pub fn enqueue(&mut self, entry: DbEntry) -> (r: bool)
        ensures
            final(self)@ == enqueue_spec(old(self)@, entry@),
            r == !queued_did(old(self)@, entry@.0),
    {
        if self.contains_did(&entry.did) {
            false
        } else {
            self.entries.push_back(entry);
            assert(self@ =~= old(self)@.push(entry@));
            true
        }
    }

    /// Takes the entry at the front, if any.
    pub fn pop_front(&mut self) -> (r: Option<DbEntry>)
        ensures
            old(self)@.len() == 0 ==> r is None && final(self)@ == old(self)@,
            old(self)@.len() > 0 ==> (r matches Some(e) && e@ == old(self)@[0] && final(self)@
                == old(self)@.drop_first()),
    {
        let r = self.entries.pop_front();
        assert(r is Some ==> self@ =~= old(self)@.drop_first());
        r
    }
}

/// Identities already confirmed on the ledger; their writes need no check.
pub struct ConfirmedIdentities {
    dids: Vec<String>,
}

impl View for ConfirmedIdentities {
    type V = Set<Seq<char>>;

    closed spec fn view(&self) -> Set<Seq<char>> {
        Set::new(|d: Seq<char>| exists|i: int| 0 <= i < self.dids@.len() && #[trigger] self.dids@[i]@ == d)
    }
}

impl ConfirmedIdentities {
    pub fn new() -> (r: ConfirmedIdentities)
        ensures
            r@ == Set::<Seq<char>>::empty(),
    {
        let r = ConfirmedIdentities { dids: Vec::new() };
        assert(r@ =~= Set::<Seq<char>>::empty());
        r
    }

    /// Whether `did` is confirmed.
    pub fn contains(&self, did: &Did) -> (r: bool)
        ensures
            r == self@.contains(did@),
    {
        let mut i: usize = 0;
        while i < self.dids.len()
            invariant
                i <= self.dids.len(),
                forall|j: int| 0 <= j < i ==> (#[trigger] self.dids@[j])@ != did@,
            decreases self.dids.len() - i,
        {
            if self.dids[i] == did.0 {
                assert(self.dids@[i as int]@ == did@);
                return true;
            }
            i += 1;
        }
        false
    }

    /// Records `did` as confirmed.
    pub fn insert(&mut self, did: &Did)
        ensures
            final(self)@ == old(self)@.insert(did@),
    {
        if !self.contains(did) {
            self.dids.push(did.0.clone());
            assert forall|d: Seq<char>| #[trigger] self@.contains(d) == old(self)@.insert(did@).contains(d) by {
                if old(self)@.contains(d) {
                    let i = choose|i: int| 0 <= i < old(self).dids@.len() && #[trigger] old(self).dids@[i]@ == d;
                    assert(self.dids@[i] == old(self).dids@[i]);
                }
                if d == did@ {
                    assert(self.dids@[old(self).dids@.len() as int]@ == d);
                }
                if self@.contains(d) {
                    let i = choose|i: int| 0 <= i < self.dids@.len() && #[trigger] self.dids@[i]@ == d;
                    if i < old(self).dids@.len() {
                        assert(old(self).dids@[i] == self.dids@[i]);
                    }
                }
            }
            assert(self@ =~= old(self)@.insert(did@));
        } else {
            assert(old(self)@.insert(did@) =~= old(self)@);
        }
    }
}

impl DidQueue {
    /// Takes the entry at the front; hands it back unless its identity is
    /// confirmed already, in which case it is only dropped.
    pub fn take_unconfirmed(&mut self, confirmed: &ConfirmedIdentities) -> (r: Option<DbEntry>)
        ensures
            old(self)@.len() == 0 ==> r is None && final(self)@ == old(self)@,
            old(self)@.len() > 0 ==> final(self)@ == old(self)@.drop_first() && match r {
                Some(e) => e@ == old(self)@[0] && !confirmed@.contains(e@.0),
                None => confirmed@.contains(old(self)@[0].0),
            },
    {
        match self.pop_front() {
            Some(e) => {
                if confirmed.contains(&e.did) {
                    None
                } else {
                    Some(e)
                }
            },
            None => None,
        }
    }
}

/// Two writes under one identity, made while no entry of it waits, leave
/// exactly one entry of that identity in the queue.
pub proof fn lemma_queue_dedup(
    q: Seq<(Seq<char>, Seq<char>, Seq<char>)>,
    first: (Seq<char>, Seq<char>, Seq<char>),
    second: (Seq<char>, Seq<char>, Seq<char>),
)
    requires
        first.0 == second.0,
        !queued_did(q, first.0),
    ensures
        ({
            let after = enqueue_spec(enqueue_spec(q, first), second);
            exists|i: int|
                0 <= i < after.len() && (#[trigger] after[i]).0 == first.0 && forall|j: int|
                    0 <= j < after.len() && (#[trigger] after[j]).0 == first.0 ==> j == i
        }),
{
    let once = enqueue_spec(q, first);
    assert(once == q.push(first));
    assert(once[q.len() as int].0 == first.0);
    assert(queued_did(once, second.0));
    let after = enqueue_spec(once, second);
    assert(after == once);
    assert forall|j: int| 0 <= j < after.len() && (#[trigger] after[j]).0 == first.0 implies j
        == q.len() by {
        if j < q.len() {
            assert(after[j] == q[j]);
        }
    }
}

} // verus!
