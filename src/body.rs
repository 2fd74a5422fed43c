//! Document bodies as the store reads them: a JSON object is kept as its
//! members in document order, each key with the compact JSON text of its
//! value; any other JSON value is kept as its compact text.
use vstd::prelude::*;
use vstd::string::*;

verus! {

/// An object's members: key, and the compact JSON text of the value.
pub type Members = Seq<(Seq<char>, Seq<char>)>;

pub open spec fn members_view(v: Seq<(String, String)>) -> Members {
    v.map_values(|p: (String, String)| (p.0@, p.1@))
}

/// `i` is the first position whose key is `k`.
pub open spec fn is_first_index(m: Members, k: Seq<char>, i: int) -> bool {
    &&& 0 <= i < m.len()
    &&& m[i].0 == k
    &&& forall|j: int| 0 <= j < i ==> m[j].0 != k
}

/// Position of the member with key `k`, or -1 when there is none.
pub open spec fn key_index(m: Members, k: Seq<char>) -> int {
    if exists|i: int| is_first_index(m, k, i) {
        choose|i: int| is_first_index(m, k, i)
    } else {
        -1
    }
}

/// The value text of the member with key `k`.
pub open spec fn member(m: Members, k: Seq<char>) -> Option<Seq<char>> {
    if key_index(m, k) < 0 {
        None
    } else {
        Some(m[key_index(m, k)].1)
    }
}

/// Sets member `k` to `v`: in place when the key is present, else at the end.
pub open spec fn set_member(m: Members, k: Seq<char>, v: Seq<char>) -> Members {
    if key_index(m, k) < 0 {
        m.push((k, v))
    } else {
        m.update(key_index(m, k), (k, v))
    }
}

/// Removes member `k`, keeping the order of the others.
pub open spec fn remove_member(m: Members, k: Seq<char>) -> Members {
    if key_index(m, k) < 0 {
        m
    } else {
        m.remove(key_index(m, k))
    }
}

/// Shallow merge: each member of `over`, in order, is set on `base`.
pub open spec fn merge_members(base: Members, over: Members) -> Members
    decreases over.len(),
{
    if over.len() == 0 {
        base
    } else {
        set_member(merge_members(base, over.drop_last()), over.last().0, over.last().1)
    }
}

pub proof fn lemma_first_index(m: Members, k: Seq<char>, i: int)
    requires
        is_first_index(m, k, i),
    ensures
        key_index(m, k) == i,
{
    let j = key_index(m, k);
    assert(is_first_index(m, k, j));
    if j < i {
        assert(m[j].0 != k);
    }
    if i < j {
        assert(m[i].0 != k);
    }
}

pub proof fn lemma_no_index(m: Members, k: Seq<char>)
    requires
        forall|j: int| 0 <= j < m.len() ==> m[j].0 != k,
    ensures
        key_index(m, k) == -1,
{
}

pub proof fn lemma_has_first(m: Members, k: Seq<char>, j: int)
    requires
        0 <= j < m.len(),
        m[j].0 == k,
    ensures
        0 <= key_index(m, k) <= j,
        m[key_index(m, k)].0 == k,
    decreases j,
{
    if forall|i: int| 0 <= i < j ==> m[i].0 != k {
        assert(is_first_index(m, k, j));
        lemma_first_index(m, k, j);
    } else {
        let i = choose|i: int| 0 <= i < j && m[i].0 != k == false;
        lemma_has_first(m, k, i);
    }
}

/// Keys of `m` are pairwise distinct, as in any JSON object read by a parser.
pub open spec fn unique_keys(m: Members) -> bool {
    forall|i: int, j: int| 0 <= i < j < m.len() ==> m[i].0 != m[j].0
}

/// Looking a key up after setting a member.
pub proof fn lemma_set_member_lookup(m: Members, k: Seq<char>, v: Seq<char>, q: Seq<char>)
    ensures
        member(set_member(m, k, v), q) == (if q == k {
            Some(v)
        } else {
            member(m, q)
        }),
{
    let r = set_member(m, k, v);
    let ki = key_index(m, k);
    if ki >= 0 {
        assert(is_first_index(m, k, ki));
    }
    if q == k {
        if ki < 0 {
            assert forall|j: int| 0 <= j < m.len() implies m[j].0 != k by {
                if m[j].0 == k {
                    lemma_has_first(m, k, j);
                }
            }
            assert(is_first_index(r, k, m.len() as int));
            lemma_first_index(r, k, m.len() as int);
        } else {
            assert(is_first_index(r, k, ki));
            lemma_first_index(r, k, ki);
        }
    } else {
        let qi = key_index(m, q);
        if qi >= 0 {
            assert(is_first_index(m, q, qi));
            assert(is_first_index(r, q, qi));
            lemma_first_index(r, q, qi);
        } else {
            assert forall|j: int| 0 <= j < r.len() implies r[j].0 != q by {
                if j < m.len() && m[j].0 == q {
                    lemma_has_first(m, q, j);
                }
            }
            lemma_no_index(r, q);
        }
    }
}

/// Looking up another key after removing a member.
pub proof fn lemma_remove_member_lookup(m: Members, k: Seq<char>, q: Seq<char>)
    requires
        q != k,
    ensures
        member(remove_member(m, k), q) == member(m, q),
{
    let ki = key_index(m, k);
    if ki >= 0 {
        assert(is_first_index(m, k, ki));
        let r = m.remove(ki);
        let qi = key_index(m, q);
        if qi >= 0 {
            assert(is_first_index(m, q, qi));
            if qi < ki {
                assert(is_first_index(r, q, qi));
                lemma_first_index(r, q, qi);
            } else {
                assert forall|j: int| 0 <= j < qi - 1 implies r[j].0 != q by {
                    if j >= ki {
                        assert(r[j] == m[j + 1]);
                    }
                }
                assert(r[qi - 1] == m[qi]);
                assert(is_first_index(r, q, qi - 1));
                lemma_first_index(r, q, qi - 1);
            }
        } else {
            assert forall|j: int| 0 <= j < r.len() implies r[j].0 != q by {
                let src = if j < ki { j } else { j + 1 };
                assert(r[j] == m[src]);
                if m[src].0 == q {
                    lemma_has_first(m, q, src);
                }
            }
            lemma_no_index(r, q);
        }
    }
}

pub proof fn lemma_set_member_unique(m: Members, k: Seq<char>, v: Seq<char>)
    requires
        unique_keys(m),
    ensures
        unique_keys(set_member(m, k, v)),
{
    let ki = key_index(m, k);
    if ki < 0 {
        assert forall|j: int| 0 <= j < m.len() implies m[j].0 != k by {
            if m[j].0 == k {
                lemma_has_first(m, k, j);
            }
        }
    } else {
        assert(is_first_index(m, k, ki));
    }
}

pub proof fn lemma_remove_member_unique(m: Members, k: Seq<char>)
    requires
        unique_keys(m),
    ensures
        unique_keys(remove_member(m, k)),
{
    let ki = key_index(m, k);
    if ki >= 0 {
        assert(is_first_index(m, k, ki));
        let r = m.remove(ki);
        assert forall|i: int, j: int| 0 <= i < j < r.len() implies r[i].0 != r[j].0 by {
            let si = if i < ki { i } else { i + 1 };
            let sj = if j < ki { j } else { j + 1 };
            assert(r[i] == m[si] && r[j] == m[sj]);
        }
    }
}

pub proof fn lemma_merge_unique(base: Members, over: Members)
    requires
        unique_keys(base),
    ensures
        unique_keys(merge_members(base, over)),
    decreases over.len(),
{
    if over.len() > 0 {
        lemma_merge_unique(base, over.drop_last());
        lemma_set_member_unique(merge_members(base, over.drop_last()), over.last().0, over.last().1);
    }
}

/// A body whose object members, if it is an object, have distinct keys, as
/// in every JSON object read by a parser.
pub open spec fn distinct_keys(b: BodyView) -> bool {
    match b {
        BodyView::Object(m) => unique_keys(m),
        BodyView::Other(_) => true,
    }
}

/// Merge semantics: after a merge each key holds the incoming value where
/// the incoming object has that key, and the existing value otherwise.
pub proof fn lemma_merge_lookup(base: Members, over: Members, q: Seq<char>)
    requires
        unique_keys(over),
    ensures
        member(merge_members(base, over), q) == (if member(over, q) is Some {
            member(over, q)
        } else {
            member(base, q)
        }),
    decreases over.len(),
{
    if over.len() > 0 {
        let front = over.drop_last();
        let last = over.last();
        assert(unique_keys(front));
        lemma_merge_lookup(base, front, q);
        lemma_set_member_lookup(merge_members(base, front), last.0, last.1, q);
        let fi = key_index(front, q);
        if fi >= 0 {
            assert(is_first_index(front, q, fi));
            assert(is_first_index(over, q, fi));
            lemma_first_index(over, q, fi);
            if q == last.0 {
                assert(over[fi].0 != over[over.len() - 1].0);
            }
        } else {
            assert forall|j: int| 0 <= j < front.len() implies front[j].0 != q by {
                if front[j].0 == q {
                    lemma_has_first(front, q, j);
                }
            }
            if q == last.0 {
                assert(is_first_index(over, q, over.len() - 1));
                lemma_first_index(over, q, over.len() - 1);
            } else {
                assert forall|j: int| 0 <= j < over.len() implies over[j].0 != q by {
                    if j < front.len() {
                        assert(front[j] == over[j]);
                    }
                }
                lemma_no_index(over, q);
            }
        }
    }
}

/// A JSON value held by the store.
#[derive(Debug)]
pub enum Body {
    /// An object: its members in document order, each value as compact JSON text.
    Object(Vec<(String, String)>),
    /// Any other value, as its compact JSON text.
    Other(String),
}

pub enum BodyView {
    Object(Members),
    Other(Seq<char>),
}

impl View for Body {
    type V = BodyView;

    open spec fn view(&self) -> BodyView {
        match self {
            Body::Object(m) => BodyView::Object(members_view(m@)),
            Body::Other(t) => BodyView::Other(t@),
        }
    }
}

pub open spec fn null_text() -> Seq<char> {
    seq!['n', 'u', 'l', 'l']
}

/// Merge of an incoming body into an existing one: objects merge shallowly,
/// anything else replaces the existing body whole.
pub open spec fn merged(base: BodyView, over: BodyView) -> BodyView {
    match (base, over) {
        (BodyView::Object(b), BodyView::Object(o)) => BodyView::Object(merge_members(b, o)),
        _ => over,
    }
}

/// Position of member `k` in `m`.
pub fn find_member(m: &Vec<(String, String)>, k: &String) -> (r: Option<usize>)
    ensures
        match r {
            Some(i) => i as int == key_index(members_view(m@), k@) && i < m.len(),
            None => key_index(members_view(m@), k@) == -1,
        },
{
    let ghost mv = members_view(m@);
    let mut i: usize = 0;
    while i < m.len()
        invariant
            0 <= i <= m.len(),
            mv == members_view(m@),
            forall|j: int| 0 <= j < i ==> mv[j].0 != k@,
        decreases m.len() - i,
    {
        if m[i].0 == *k {
            proof {
                lemma_first_index(mv, k@, i as int);
            }
            return Some(i);
        }
        i += 1;
    }
    proof {
        lemma_no_index(mv, k@);
    }
    None
}

/// Sets member `k` to `v` (see `set_member`).
pub fn set_member_value(m: &mut Vec<(String, String)>, k: String, v: String)
    ensures
        members_view(final(m)@) == set_member(members_view(old(m)@), k@, v@),
{
    match find_member(m, &k) {
        Some(i) => {
            m.set(i, (k, v));
            assert(members_view(m@) =~= set_member(members_view(old(m)@), k@, v@));
        },
        None => {
            m.push((k, v));
            assert(members_view(m@) =~= set_member(members_view(old(m)@), k@, v@));
        },
    }
}

/// Shallow merge of `override_value` into `base`: each top-level member of an
/// incoming object overwrites the member of the same key, members only in
/// `base` stay, nested objects are replaced whole; when either is not an
/// object the incoming value replaces `base`.
pub fn merge_json_values(base: Body, override_value: Body) -> (r: Body)
    ensures
        r@ == merged(base@, override_value@),
        distinct_keys(base@) && distinct_keys(override_value@) ==> distinct_keys(r@),
{
    proof {
        if let BodyView::Object(b) = base@ {
            if let BodyView::Object(o) = override_value@ {
                if unique_keys(b) {
                    lemma_merge_unique(b, o);
                }
            }
        }
    }
    match (base, override_value) {
        (Body::Object(b), Body::Object(o)) => {
            let ghost bv = members_view(b@);
            let ghost ov = members_view(o@);
            let mut acc = b;
            let mut j: usize = 0;
            while j < o.len()
                invariant
                    j <= o.len(),
                    ov == members_view(o@),
                    members_view(acc@) == merge_members(bv, ov.subrange(0, j as int)),
                decreases o.len() - j,
            {
                proof {
                    assert(ov.subrange(0, j + 1).drop_last() =~= ov.subrange(0, j as int));
                }
                set_member_value(&mut acc, o[j].0.clone(), o[j].1.clone());
                j += 1;
            }
            assert(ov.subrange(0, o.len() as int) =~= ov);
            Body::Object(acc)
        },
        (b, o) => o,
    }
}


/// The body without member `k`, and the value text that member held.
pub open spec fn without_member(b: BodyView, k: Seq<char>) -> (BodyView, Option<Seq<char>>) {
    match b {
        BodyView::Object(m) => (BodyView::Object(remove_member(m, k)), member(m, k)),
        BodyView::Other(t) => (b, None),
    }
}

/// Removes member `field_name` from an object and hands back its value
/// text; any other body comes back unchanged, with nothing removed.
pub fn remove_field(value: Body, field_name: &str) -> (r: (Body, Option<String>))
    ensures
        (r.0@, match r.1 {
            Some(t) => Some(t@),
            None => None,
        }) == without_member(value@, field_name@),
        distinct_keys(value@) ==> distinct_keys(r.0@),
{
    proof {
        if let BodyView::Object(m) = value@ {
            if unique_keys(m) {
                lemma_remove_member_unique(m, field_name@);
            }
        }
    }
    match value {
        Body::Object(mut m) => {
            let k = field_name.to_owned();
            match find_member(&m, &k) {
                Some(i) => {
                    let ghost before = members_view(m@);
                    let (_, v) = m.remove(i);
                    assert(members_view(m@) =~= remove_member(before, k@));
                    (Body::Object(m), Some(v))
                },
                None => (Body::Object(m), None),
            }
        },
        other => (other, None),
    }
}

pub open spec fn hex_digit(d: nat) -> char {
    seq!['0', '1', '2', '3', '4', '5', '6', '7', '8', '9', 'a', 'b', 'c', 'd', 'e', 'f'][d as int
        % 16]
}

/// How one character is written inside a JSON string: `"` and `\` and the
/// control characters below U+0020 are escaped, the short forms where JSON
/// has them, else as `\u00xx`; every other character stands as it is.
pub open spec fn escaped_char(c: char) -> Seq<char> {
    if c == '"' {
        seq!['\\', '"']
    } else if c == '\\' {
        seq!['\\', '\\']
    } else if c == '\u{8}' {
        seq!['\\', 'b']
    } else if c == '\t' {
        seq!['\\', 't']
    } else if c == '\n' {
        seq!['\\', 'n']
    } else if c == '\u{c}' {
        seq!['\\', 'f']
    } else if c == '\r' {
        seq!['\\', 'r']
    } else if (c as u32) < 0x20 {
        seq![
            '\\',
            'u',
            '0',
            '0',
            hex_digit((c as u32 / 16) as nat),
            hex_digit((c as u32 % 16) as nat),
        ]
    } else {
        seq![c]
    }
}

pub open spec fn escaped(s: Seq<char>) -> Seq<char>
    decreases s.len(),
{
    if s.len() == 0 {
        seq![]
    } else {
        escaped(s.drop_last()) + escaped_char(s.last())
    }
}

/// The compact JSON string literal of a text: quotes around its escaped
/// characters.
pub open spec fn json_string(s: Seq<char>) -> Seq<char> {
    seq!['"'] + escaped(s) + seq!['"']
}

/// Relies on serde_json's `Display` for `Value::String`: the compact JSON
/// string literal of `s`, escaped by the table in `format_escaped_str`.
#[verifier::external_body]
pub(crate) fn json_string_text(s: &str) -> (r: String)
    ensures
        r@ == json_string(s@),
{
    serde_json::Value::String(s.to_owned()).to_string()
}

pub open spec fn member_text(p: (Seq<char>, Seq<char>)) -> Seq<char> {
    json_string(p.0) + seq![':'] + p.1
}

pub open spec fn members_text(m: Members) -> Seq<char>
    decreases m.len(),
{
    if m.len() == 0 {
        seq![]
    } else if m.len() == 1 {
        member_text(m[0])
    } else {
        members_text(m.drop_last()) + seq![','] + member_text(m.last())
    }
}

/// Compact JSON text of an object with members `m`, in their order.
pub open spec fn object_text(m: Members) -> Seq<char> {
    seq!['{'] + members_text(m) + seq!['}']
}

/// Compact JSON text of a body.
pub open spec fn body_text(b: BodyView) -> Seq<char> {
    match b {
        BodyView::Object(m) => object_text(m),
        BodyView::Other(t) => t,
    }
}

/// Compact JSON text of an object with members `m`.
pub fn members_to_text(m: &Vec<(String, String)>) -> (r: String)
    ensures
        r@ == object_text(members_view(m@)),
{
    let ghost mv = members_view(m@);
    let mut t = String::new();
    proof {
        reveal_strlit("{");
        reveal_strlit("}");
        reveal_strlit(",");
        reveal_strlit(":");
    }
    t.append("{");
    let mut i: usize = 0;
    while i < m.len()
        invariant
            i <= m.len(),
            mv == members_view(m@),
            t@ == seq!['{'] + members_text(mv.subrange(0, i as int)),
        decreases m.len() - i,
    {
        proof {
            reveal_strlit(",");
            reveal_strlit(":");
        }
        let ghost before = t@;
        let ghost sep: Seq<char> = if i > 0 { seq![','] } else { seq![] };
        if i > 0 {
            t.append(",");
        }
        assert(t@ =~= before + sep);
        let key = json_string_text(m[i].0.as_str());
        t.append(key.as_str());
        t.append(":");
        t.append(m[i].1.as_str());
        assert(t@ =~= before + sep + json_string(m@[i as int].0@) + seq![':'] + m@[i as int].1@);
        proof {
            let s = mv.subrange(0, i + 1);
            assert(s.drop_last() =~= mv.subrange(0, i as int));
            assert(s.last() == mv[i as int]);
            assert(mv[i as int] == (m@[i as int].0@, m@[i as int].1@));
            if i == 0 {
                assert(before =~= seq!['{']);
                assert(t@ =~= seq!['{'] + member_text(s[0]));
            } else {
                assert(t@ =~= before + seq![','] + member_text(s.last()));
            }
        }
        i += 1;
    }
    proof {
        reveal_strlit("}");
    }
    t.append("}");
    assert(mv.subrange(0, m.len() as int) =~= mv);
    t
}

impl Body {
    /// Compact JSON text of the body.
    pub fn to_text(&self) -> (r: String)
        ensures
            r@ == body_text(self@),
    {
        match self {
            Body::Object(m) => members_to_text(m),
            Body::Other(t) => t.clone(),
        }
    }

    /// The value text of member `k` of an object; `None` for other bodies.
    pub fn field(&self, k: &str) -> (r: Option<String>)
        ensures
            match r {
                Some(t) => self@ matches BodyView::Object(m) && member(m, k@) == Some(t@),
                None => !(self@ matches BodyView::Object(m) && member(m, k@) is Some),
            },
    {
        match self {
            Body::Object(m) => {
                let key = k.to_owned();
                match find_member(m, &key) {
                    Some(i) => Some(m[i].1.clone()),
                    None => None,
                }
            },
            Body::Other(_) => None,
        }
    }
}

/// What a JSON text parses to.
pub uninterp spec fn parsed_body(text: Seq<char>) -> Option<BodyView>;

/// Relies on serde_json::from_str::<Value> and `Value`'s compact `Display`:
/// the JSON value that `text` holds, if it is valid JSON. An object's keys
/// are distinct, as the keys of the `Map` it is read into.
#[verifier::external_body]
pub(crate) fn parse_body(text: &str) -> (r: Option<Body>)
    ensures
        match r {
            Some(b) => parsed_body(text@) == Some(b@),
            None => parsed_body(text@) is None,
        },
        r matches Some(Body::Object(m)) ==> unique_keys(members_view(m@)),
{
    match serde_json::from_str::<serde_json::Value>(text) {
        Ok(serde_json::Value::Object(m)) => Some(Body::Object(
            m.into_iter().map(|(k, v)| (k, v.to_string())).collect(),
        )),
        Ok(v) => Some(Body::Other(v.to_string())),
        Err(_) => None,
    }
}


/// The JSON text `text` re-written compactly with the members of every
/// object, at every depth, in key order.
pub uninterp spec fn canonical_json(text: Seq<char>) -> Option<Seq<char>>;

/// Relies on serde_json::from_str::<Value>, Value::sort_all_objects and
/// `Value`'s compact `Display`: the canonical text of `text`, if it is
/// valid JSON.
#[verifier::external_body]
pub(crate) fn canonical_text(text: &str) -> (r: Option<String>)
    ensures
        match r {
            Some(t) => canonical_json(text@) == Some(t@),
            None => canonical_json(text@) is None,
        },
{
    let mut value: serde_json::Value = serde_json::from_str(text).ok()?;
    value.sort_all_objects();
    Some(value.to_string())
}

} // verus!
