//! The JSON value tree.
use vstd::prelude::*;

verus! {

/// A JSON number as `serde_json` keeps it: a non-negative integer, a
/// negative integer, or a finite `f64` (kept as its bit pattern).
#[derive(Debug, Clone, Copy, PartialEq, Eq, Structural)]
pub enum JsonNumber {
    PosInt(u64),
    NegInt(i64),
    Float(u64),
}

/// One JSON value. An object holds its members as (name, value) pairs;
/// its names are distinct in every tree the parser produces
/// (`json_distinct`), and the editing functions keep them so.
#[derive(Debug, PartialEq)]
pub enum JsonValue {
    Null,
    Bool(bool),
    Number(JsonNumber),
    String(String),
    Array(Vec<JsonValue>),
    Object(Vec<(String, JsonValue)>),
}

/// The mathematical model of a JSON value.
pub enum JsonTree {
    Null,
    Bool(bool),
    Number(JsonNumber),
    String(Seq<char>),
    Array(Seq<JsonTree>),
    Object(Seq<(Seq<char>, JsonTree)>),
}

impl View for JsonValue {
    type V = JsonTree;

    open spec fn view(&self) -> JsonTree
        decreases self, 0nat,
    {
        match self {
            JsonValue::Null => JsonTree::Null,
            JsonValue::Bool(b) => JsonTree::Bool(*b),
            JsonValue::Number(n) => JsonTree::Number(*n),
            JsonValue::String(s) => JsonTree::String(s@),
            JsonValue::Array(l) => JsonTree::Array(json_items_upto(l@, l@.len())),
            JsonValue::Object(m) => JsonTree::Object(json_members_upto(m@, m@.len())),
        }
    }
}

/// The models of the first `k` items of an array.
pub open spec fn json_items_upto(s: Seq<JsonValue>, k: nat) -> Seq<JsonTree>
    decreases s, k,
{
    if k == 0 || k > s.len() {
        Seq::empty()
    } else {
        json_items_upto(s, (k - 1) as nat).push(s[k - 1].view())
    }
}

/// The models of the first `k` members of an object.
pub open spec fn json_members_upto(m: Seq<(String, JsonValue)>, k: nat) -> Seq<(Seq<char>, JsonTree)>
    decreases m, k,
{
    if k == 0 || k > m.len() {
        Seq::empty()
    } else {
        json_members_upto(m, (k - 1) as nat).push((m[k - 1].0@, m[k - 1].1.view()))
    }
}

/// The model of an object's members.
pub open spec fn members_view(m: Seq<(String, JsonValue)>) -> Seq<(Seq<char>, JsonTree)> {
    Seq::new(m.len(), |k: int| (m[k].0@, m[k].1@))
}

/// The model of an array's items.
pub open spec fn json_items_view(l: Seq<JsonValue>) -> Seq<JsonTree> {
    Seq::new(l.len(), |k: int| l[k]@)
}

proof fn lemma_items_upto(s: Seq<JsonValue>, k: nat)
    requires
        k <= s.len(),
    ensures
        json_items_upto(s, k) =~= json_items_view(s.take(k as int)),
    decreases k,
{
    if k > 0 {
        lemma_items_upto(s, (k - 1) as nat);
        assert(json_items_view(s.take(k as int)) =~= json_items_view(s.take(k - 1)).push(s[k - 1]@));
    }
}

proof fn lemma_members_upto(m: Seq<(String, JsonValue)>, k: nat)
    requires
        k <= m.len(),
    ensures
        json_members_upto(m, k) =~= members_view(m.take(k as int)),
    decreases k,
{
    if k > 0 {
        lemma_members_upto(m, (k - 1) as nat);
        assert(members_view(m.take(k as int)) =~= members_view(m.take(k - 1)).push(
            (m[k - 1].0@, m[k - 1].1@),
        ));
    }
}

pub proof fn lemma_object_view(members: &Vec<(String, JsonValue)>)
    ensures
        JsonValue::Object(*members)@ == JsonTree::Object(members_view(members@)),
{
    lemma_members_upto(members@, members@.len());
    assert(members@.take(members@.len() as int) =~= members@);
}

pub proof fn lemma_array_view(items: &Vec<JsonValue>)
    ensures
        JsonValue::Array(*items)@ == JsonTree::Array(json_items_view(items@)),
{
    lemma_items_upto(items@, items@.len());
    assert(items@.take(items@.len() as int) =~= items@);
}

/// The position of the first member named `key`.
pub open spec fn member_index(m: Seq<(Seq<char>, JsonTree)>, key: Seq<char>) -> Option<int>
    decreases m.len(),
{
    if m.len() == 0 {
        None
    } else if m[0].0 == key {
        Some(0)
    } else {
        match member_index(m.drop_first(), key) {
            Some(i) => Some(i + 1),
            None => None,
        }
    }
}

pub proof fn lemma_member_index(m: Seq<(Seq<char>, JsonTree)>, key: Seq<char>)
    ensures
        member_index(m, key) matches Some(i) ==> 0 <= i < m.len() && m[i].0 == key && forall|j: int|
            0 <= j < i ==> #[trigger] m[j].0 != key,
        member_index(m, key) is None ==> forall|j: int| 0 <= j < m.len() ==> #[trigger] m[j].0 != key,
    decreases m.len(),
{
    if m.len() > 0 {
        let rest = m.drop_first();
        lemma_member_index(rest, key);
        assert forall|j: int| 1 <= j < m.len() implies #[trigger] m[j] == rest[j - 1] by {}
    }
}

pub proof fn lemma_member_index_unique(m: Seq<(Seq<char>, JsonTree)>, key: Seq<char>, i: int)
    requires
        0 <= i < m.len(),
        m[i].0 == key,
        forall|j: int| 0 <= j < i ==> m[j].0 != key,
    ensures
        member_index(m, key) == Some(i),
{
    lemma_member_index(m, key);
    match member_index(m, key) {
        Some(w) => {
            if w < i {
                assert(m[w].0 != key);
            } else if w > i {
                assert(m[i].0 != key);
            }
        },
        None => {
            assert(m[i].0 != key);
        },
    }
}

/// Finds the first member named `key` (`Map::get` on the members).
pub fn find_member(members: &Vec<(String, JsonValue)>, key: &str) -> (r: Option<usize>)
    ensures
        r matches Some(i) ==> i < members@.len() && member_index(members_view(members@), key@)
            == Some(i as int),
        r is None ==> member_index(members_view(members@), key@) is None,
{
    let ghost model = members_view(members@);
    let kc = crate::text::chars_of(key);
    let mut i: usize = 0;
    while i < members.len()
        invariant
            i <= members.len(),
            kc@ == key@,
            model == members_view(members@),
            forall|j: int| 0 <= j < i ==> model[j].0 != key@,
        decreases members.len() - i,
    {
        let name = crate::text::chars_of(members[i].0.as_str());
        if crate::text::chars_eq(&name, &kc) {
            proof {
                lemma_member_index_unique(model, key@, i as int);
            }
            return Some(i);
        }
        i = i + 1;
    }
    proof {
        lemma_member_index(model, key@);
        if let Some(w) = member_index(model, key@) {
            assert(model[w].0 != key@);
        }
    }
    None
}

/// Whether a number is held as an `i64` (`Number::is_i64`).
pub open spec fn number_is_i64(n: JsonNumber) -> bool {
    match n {
        JsonNumber::PosInt(v) => v <= i64::MAX,
        JsonNumber::NegInt(_) => true,
        JsonNumber::Float(_) => false,
    }
}

/// The number an `i64` converts to (`Number::from(i64)`).
pub open spec fn number_of_i64(i: int) -> JsonNumber {
    if i < 0 {
        JsonNumber::NegInt(i as i64)
    } else {
        JsonNumber::PosInt(i as u64)
    }
}

/// Whether an `f64` bit pattern is finite (its exponent is not all ones).
pub open spec fn f64_finite(bits: u64) -> bool {
    (bits >> 52u64) & 0x7ffu64 != 0x7ffu64
}

} // verus!
