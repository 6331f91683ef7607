//! Flattening a JSON document into rows, reading the value at a path and
//! replacing a scalar from text.
use vstd::prelude::*;
use crate::domain::json::value::{
    JsonValue, JsonTree, JsonNumber, members_view, json_items_view, lemma_object_view,
    lemma_array_view, member_index, lemma_member_index, lemma_member_index_unique, find_member,
    number_is_i64, number_of_i64, f64_finite,
};
use crate::domain::json::path::{JsonPath, JsonPathSegment};
use crate::domain::nbt::path::Segment;
use crate::order::{sorted_order, names_view, sort_order, lemma_sorted_order, is_permutation_of_range};
use crate::text::{
    nat_dec, int_dec, concat, usize_to_text, i64_to_text, u64_to_text, chars_of, trim, trim_chars,
    parse_int_in, parse_int_range, chars_eq_str, lemma_parse_int_dec, is_ws,
};

verus! {

// ---------------------------------------------------------------------------
// Previews
// ---------------------------------------------------------------------------

/// The short text shown beside a value. A floating-point number is shown
/// as `serde_json` prints it; that text is produced where floats are
/// available, from the bit pattern kept here.
#[derive(Debug, PartialEq)]
pub enum JsonPreview {
    Text(String),
    /// A finite `f64`, to be printed as `Number`'s `Display` does.
    Float(u64),
}

pub enum JsonPreviewModel {
    Text(Seq<char>),
    Float(u64),
}

impl View for JsonPreview {
    type V = JsonPreviewModel;

    open spec fn view(&self) -> JsonPreviewModel {
        match self {
            JsonPreview::Text(s) => JsonPreviewModel::Text(s@),
            JsonPreview::Float(b) => JsonPreviewModel::Float(*b),
        }
    }
}

/// The preview of a value: `null`, `true`/`false`, integers in decimal,
/// strings as they are, arrays as `<n> items` and objects as `<n> keys`.
pub open spec fn json_preview_of(t: JsonTree) -> JsonPreviewModel {
    match t {
        JsonTree::Null => JsonPreviewModel::Text("null"@),
        JsonTree::Bool(b) => JsonPreviewModel::Text(if b { "true"@ } else { "false"@ }),
        JsonTree::Number(JsonNumber::PosInt(v)) => JsonPreviewModel::Text(nat_dec(v as nat)),
        JsonTree::Number(JsonNumber::NegInt(v)) => JsonPreviewModel::Text(int_dec(v as int)),
        JsonTree::Number(JsonNumber::Float(b)) => JsonPreviewModel::Float(b),
        JsonTree::String(s) => JsonPreviewModel::Text(s),
        JsonTree::Array(l) => JsonPreviewModel::Text(nat_dec(l.len()) + " items"@),
        JsonTree::Object(m) => JsonPreviewModel::Text(nat_dec(m.len()) + " keys"@),
    }
}

fn count_text(n: usize, unit: &str) -> (r: String)
    ensures
        r@ == nat_dec(n as nat) + unit@,
{
    let digits = usize_to_text(n);
    concat(digits.as_str(), unit)
}

/// The preview of a value.
pub fn json_preview(value: &JsonValue) -> (r: JsonPreview)
    ensures
        r@ == json_preview_of(value@),
{
    match value {
        JsonValue::Null => JsonPreview::Text("null".to_owned()),
        JsonValue::Bool(b) => JsonPreview::Text(
            if *b {
                "true".to_owned()
            } else {
                "false".to_owned()
            },
        ),
        JsonValue::Number(JsonNumber::PosInt(v)) => JsonPreview::Text(u64_to_text(*v)),
        JsonValue::Number(JsonNumber::NegInt(v)) => JsonPreview::Text(i64_to_text(*v)),
        JsonValue::Number(JsonNumber::Float(b)) => JsonPreview::Float(*b),
        JsonValue::String(s) => JsonPreview::Text(s.clone()),
        JsonValue::Array(l) => {
            proof {
                lemma_array_view(l);
            }
            JsonPreview::Text(count_text(l.len(), " items"))
        },
        JsonValue::Object(m) => {
            proof {
                lemma_object_view(m);
            }
            JsonPreview::Text(count_text(m.len(), " keys"))
        },
    }
}

/// Whether a value is a leaf (neither an object nor an array).
pub open spec fn json_is_leaf(t: JsonTree) -> bool {
    !(t is Object || t is Array)
}

fn is_leaf_value(value: &JsonValue) -> (r: bool)
    ensures
        r == json_is_leaf(value@),
{
    match value {
        JsonValue::Object(m) => {
            proof {
                lemma_object_view(m);
            }
            false
        },
        JsonValue::Array(l) => {
            proof {
                lemma_array_view(l);
            }
            false
        },
        _ => true,
    }
}

// ---------------------------------------------------------------------------
// Flattening
// ---------------------------------------------------------------------------

/// One row of a flattened document.
#[derive(Debug, PartialEq)]
pub struct JsonEntry {
    pub path: JsonPath,
    pub depth: usize,
    pub label: String,
    pub preview: JsonPreview,
    pub editable: bool,
}

pub struct JsonEntryModel {
    pub path: Seq<Segment>,
    pub depth: nat,
    pub label: Seq<char>,
    pub preview: JsonPreviewModel,
    pub editable: bool,
}

impl View for JsonEntry {
    type V = JsonEntryModel;

    open spec fn view(&self) -> JsonEntryModel {
        JsonEntryModel {
            path: self.path@,
            depth: self.depth as nat,
            label: self.label@,
            preview: self.preview@,
            editable: self.editable,
        }
    }
}

/// The models of a sequence of rows.
pub open spec fn json_entries_model(s: Seq<JsonEntry>) -> Seq<JsonEntryModel> {
    Seq::new(s.len(), |i: int| s[i]@)
}

/// The row that describes `t`.
pub open spec fn json_entry_of(t: JsonTree, path: Seq<Segment>, depth: nat, label: Seq<char>) -> JsonEntryModel {
    JsonEntryModel { path, depth, label, preview: json_preview_of(t), editable: json_is_leaf(t) }
}

/// The names of an object's members, in stored order.
pub open spec fn member_names(m: Seq<(Seq<char>, JsonTree)>) -> Seq<Seq<char>> {
    Seq::new(m.len(), |i: int| m[i].0)
}

/// The order in which an object's members are listed: ascending by name
/// (the order of `serde_json`'s map).
pub open spec fn member_order(m: Seq<(Seq<char>, JsonTree)>) -> Seq<int> {
    sorted_order(member_names(m), m.len())
}

/// The rows of `t` and everything below it: first `t`'s own row, then the
/// rows of each child one level deeper, object members in ascending name
/// order and array items in index order.
pub open spec fn json_flat(t: JsonTree, path: Seq<Segment>, depth: nat, label: Seq<char>) -> Seq<
    JsonEntryModel,
>
    decreases t, 1nat, 0nat,
{
    seq![json_entry_of(t, path, depth, label)] + match t {
        JsonTree::Object(m) => json_flat_members(m, member_order(m), member_order(m).len(), path, depth + 1),
        JsonTree::Array(l) => json_flat_items(l, l.len(), path, depth + 1),
        _ => Seq::empty(),
    }
}

/// The rows of the first `k` members of `m` in the order `order`.
pub open spec fn json_flat_members(
    m: Seq<(Seq<char>, JsonTree)>,
    order: Seq<int>,
    k: nat,
    path: Seq<Segment>,
    depth: nat,
) -> Seq<JsonEntryModel>
    decreases m, 0nat, k,
{
    if k == 0 || k > order.len() {
        Seq::empty()
    } else {
        let idx = order[k - 1];
        let rest = json_flat_members(m, order, (k - 1) as nat, path, depth);
        if 0 <= idx < m.len() {
            rest + json_flat(m[idx].1, path.push(Segment::Key(m[idx].0)), depth, m[idx].0)
        } else {
            rest
        }
    }
}

/// The rows of the first `k` items of `l`.
pub open spec fn json_flat_items(l: Seq<JsonTree>, k: nat, path: Seq<Segment>, depth: nat) -> Seq<
    JsonEntryModel,
>
    decreases l, 0nat, k,
{
    if k == 0 || k > l.len() {
        Seq::empty()
    } else {
        json_flat_items(l, (k - 1) as nat, path, depth) + json_flat(
            l[k - 1],
            path.push(Segment::Index((k - 1) as nat)),
            depth,
            nat_dec((k - 1) as nat),
        )
    }
}

/// The nesting height of a document: 0 for a leaf, one more than its
/// tallest child for a container.
pub open spec fn json_height(t: JsonTree) -> nat
    decreases t, 1nat, 0nat,
{
    match t {
        JsonTree::Object(m) => 1 + members_height(m, m.len()),
        JsonTree::Array(l) => 1 + json_items_height(l, l.len()),
        _ => 0,
    }
}

pub open spec fn members_height(m: Seq<(Seq<char>, JsonTree)>, k: nat) -> nat
    decreases m, 0nat, k,
{
    if k == 0 || k > m.len() {
        0
    } else {
        let h = json_height(m[k - 1].1);
        let rest = members_height(m, (k - 1) as nat);
        if h > rest {
            h
        } else {
            rest
        }
    }
}

pub open spec fn json_items_height(l: Seq<JsonTree>, k: nat) -> nat
    decreases l, 0nat, k,
{
    if k == 0 || k > l.len() {
        0
    } else {
        let h = json_height(l[k - 1]);
        let rest = json_items_height(l, (k - 1) as nat);
        if h > rest {
            h
        } else {
            rest
        }
    }
}

proof fn lemma_members_height(m: Seq<(Seq<char>, JsonTree)>, k: nat, i: int)
    requires
        0 <= i < k <= m.len(),
    ensures
        json_height(m[i].1) <= members_height(m, k),
    decreases k,
{
    if i < k - 1 {
        lemma_members_height(m, (k - 1) as nat, i);
    }
}

proof fn lemma_json_items_height(l: Seq<JsonTree>, k: nat, i: int)
    requires
        0 <= i < k <= l.len(),
    ensures
        json_height(l[i]) <= json_items_height(l, k),
    decreases k,
{
    if i < k - 1 {
        lemma_json_items_height(l, (k - 1) as nat, i);
    }
}

/// Whether a document's rows can be numbered by depth without overflow:
/// its height is below the largest `usize` (a document that deep cannot be
/// held in memory).
pub open spec fn json_height_fits(t: JsonTree) -> bool {
    json_height(t) < usize::MAX
}

fn flatten_json_inner(
    value: &JsonValue,
    path: &JsonPath,
    depth: usize,
    label: String,
    output: &mut Vec<JsonEntry>,
)
    requires
        depth + json_height(value@) <= usize::MAX,
    ensures
        json_entries_model(final(output)@) == json_entries_model(old(output)@) + json_flat(
            value@,
            path@,
            depth as nat,
            label@,
        ),
    decreases value,
{
    let ghost start = json_entries_model(output@);
    let entry = JsonEntry {
        path: path.copy(),
        depth,
        label,
        preview: json_preview(value),
        editable: is_leaf_value(value),
    };
    output.push(entry);
    assert(json_entries_model(output@) =~= start + seq![
        json_entry_of(value@, path@, depth as nat, label@),
    ]);
    let ghost head = json_entries_model(output@);
    match value {
        JsonValue::Object(members) => {
            proof {
                lemma_object_view(members);
            }
            let ghost m = members_view(members@);
            let mut keys: Vec<Vec<char>> = Vec::new();
            let mut i: usize = 0;
            while i < members.len()
                invariant
                    i <= members@.len(),
                    keys@.len() == i,
                    forall|j: int| 0 <= j < i ==> #[trigger] keys@[j]@ == members@[j].0@,
                decreases members.len() - i,
            {
                keys.push(chars_of(members[i].0.as_str()));
                i = i + 1;
            }
            assert(names_view(keys@) =~= member_names(m));
            let order = sort_order(&keys);
            proof {
                lemma_sorted_order(member_names(m), m.len());
            }
            let ghost ord = member_order(m);
            let mut k: usize = 0;
            while k < order.len()
                invariant
                    k <= order@.len() == ord.len() == members@.len(),
                    *value == JsonValue::Object(*members),
                    value@ == JsonTree::Object(m),
                    m == members_view(members@),
                    ord == member_order(m),
                    is_permutation_of_range(ord, m.len()),
                    forall|j: int| 0 <= j < order@.len() ==> #[trigger] order@[j] as int == ord[j],
                    depth + json_height(value@) <= usize::MAX,
                    json_entries_model(output@) == head + json_flat_members(
                        m,
                        ord,
                        k as nat,
                        path@,
                        (depth + 1) as nat,
                    ),
                decreases order.len() - k,
            {
                let idx = order[k];
                assert(0 <= ord[k as int] < m.len());
                let child = &members[idx].1;
                let name = &members[idx].0;
                proof {
                    lemma_members_height(m, m.len(), idx as int);
                    assert(decreases_to!(*value => *members));
                    assert(decreases_to!(*members => members@));
                    assert(decreases_to!(members@ => members@[idx as int]));
                    assert(decreases_to!(members@[idx as int] => members@[idx as int].1));
                    assert(decreases_to!(*value => members@[idx as int].1));
                }
                let child_path = path.child_key(name.as_str());
                flatten_json_inner(child, &child_path, depth + 1, name.clone(), output);
                k = k + 1;
            }
        },
        JsonValue::Array(items) => {
            proof {
                lemma_array_view(items);
            }
            let ghost l = json_items_view(items@);
            let mut k: usize = 0;
            while k < items.len()
                invariant
                    k <= items@.len(),
                    *value == JsonValue::Array(*items),
                    value@ == JsonTree::Array(l),
                    l == json_items_view(items@),
                    depth + json_height(value@) <= usize::MAX,
                    json_entries_model(output@) == head + json_flat_items(
                        l,
                        k as nat,
                        path@,
                        (depth + 1) as nat,
                    ),
                decreases items.len() - k,
            {
                proof {
                    lemma_json_items_height(l, l.len(), k as int);
                    assert(decreases_to!(*value => *items));
                    assert(decreases_to!(*items => items@));
                    assert(decreases_to!(items@ => items@[k as int]));
                    assert(decreases_to!(*value => items@[k as int]));
                }
                let child_path = path.child_index(k);
                flatten_json_inner(&items[k], &child_path, depth + 1, usize_to_text(k), output);
                k = k + 1;
            }
        },
        _ => {},
    }
}

/// The rows of a whole document, starting with the root (labelled `root`).
pub fn flatten_json(root: &JsonValue) -> (r: Vec<JsonEntry>)
    requires
        json_height_fits(root@),
    ensures
        json_entries_model(r@) == json_flat(root@, Seq::empty(), 0, "root"@),
{
    let mut entries: Vec<JsonEntry> = Vec::new();
    let path = JsonPath::default();
    flatten_json_inner(root, &path, 0, "root".to_owned(), &mut entries);
    assert(json_entries_model(Seq::<JsonEntry>::empty()) =~= Seq::<JsonEntryModel>::empty());
    assert(json_flat(root@, Seq::empty(), 0, "root"@) =~= Seq::<JsonEntryModel>::empty() + json_flat(
        root@,
        Seq::empty(),
        0,
        "root"@,
    ));
    entries
}

// ---------------------------------------------------------------------------
// Reading and replacing the value at a path
// ---------------------------------------------------------------------------

/// The child of `t` that one step names.
pub open spec fn json_step(t: JsonTree, s: Segment) -> Option<JsonTree> {
    match (t, s) {
        (JsonTree::Object(m), Segment::Key(k)) => match member_index(m, k) {
            Some(i) => Some(m[i].1),
            None => None,
        },
        (JsonTree::Array(l), Segment::Index(i)) => if i < l.len() {
            Some(l[i as int])
        } else {
            None
        },
        _ => None,
    }
}

/// The value at path `p` below `t`, if every step exists.
pub open spec fn json_get(t: JsonTree, p: Seq<Segment>) -> Option<JsonTree>
    decreases p.len(),
{
    if p.len() == 0 {
        Some(t)
    } else {
        match json_step(t, p[0]) {
            Some(c) => json_get(c, p.drop_first()),
            None => None,
        }
    }
}

/// `t` with the value at path `p` replaced by `new`, if every step exists.
pub open spec fn json_set(t: JsonTree, p: Seq<Segment>, new: JsonTree) -> Option<JsonTree>
    decreases p.len(),
{
    if p.len() == 0 {
        Some(new)
    } else {
        match (t, p[0]) {
            (JsonTree::Object(m), Segment::Key(k)) => match member_index(m, k) {
                Some(i) => match json_set(m[i].1, p.drop_first(), new) {
                    Some(c) => Some(JsonTree::Object(m.update(i, (m[i].0, c)))),
                    None => None,
                },
                None => None,
            },
            (JsonTree::Array(l), Segment::Index(i)) => if i < l.len() {
                match json_set(l[i as int], p.drop_first(), new) {
                    Some(c) => Some(JsonTree::Array(l.update(i as int, c))),
                    None => None,
                }
            } else {
                None
            },
            _ => None,
        }
    }
}

/// The value at `path` (`None` when a step is missing or of the wrong kind).
pub fn get_json<'a>(root: &'a JsonValue, path: &JsonPath) -> (r: Option<&'a JsonValue>)
    ensures
        r matches Some(v) ==> json_get(root@, path@) == Some(v@),
        r is None ==> json_get(root@, path@) is None,
{
    let mut current: &JsonValue = root;
    let mut i: usize = 0;
    assert(path@.skip(0) =~= path@);
    while i < path.0.len()
        invariant
            i <= path.0@.len(),
            path@.len() == path.0@.len(),
            json_get(root@, path@) == json_get(current@, path@.skip(i as int)),
        decreases path.0.len() - i,
    {
        let ghost rest = path@.skip(i as int);
        assert(rest[0] == path.0@[i as int]@);
        assert(rest.drop_first() =~= path@.skip(i + 1));
        match (current, &path.0[i]) {
            (JsonValue::Object(members), JsonPathSegment::Key(key)) => {
                proof {
                    lemma_object_view(members);
                }
                match find_member(members, key.as_str()) {
                    Some(k) => {
                        current = &members[k].1;
                    },
                    None => {
                        return None;
                    },
                }
            },
            (JsonValue::Array(items), JsonPathSegment::Index(index)) => {
                proof {
                    lemma_array_view(items);
                }
                if *index < items.len() {
                    current = &items[*index];
                } else {
                    return None;
                }
            },
            _ => {
                return None;
            },
        }
        i = i + 1;
    }
    assert(path@.skip(i as int) =~= Seq::<Segment>::empty());
    Some(current)
}

fn set_owned(node: JsonValue, path: &JsonPath, at: usize, new: JsonValue) -> (r: (JsonValue, bool))
    requires
        at <= path@.len(),
    ensures
        r.1 == json_set(node@, path@.skip(at as int), new@) is Some,
        r.1 ==> r.0@ == json_set(node@, path@.skip(at as int), new@).unwrap(),
        !r.1 ==> r.0@ == node@,
    decreases path@.len() - at, 1nat,
{
    let ghost rest = path@.skip(at as int);
    if at == path.0.len() {
        return (new, true);
    }
    assert(rest[0] == path.0@[at as int]@);
    assert(rest.drop_first() =~= path@.skip(at + 1));
    match node {
        JsonValue::Object(members) => {
            proof {
                lemma_object_view(&members);
            }
            match &path.0[at] {
                JsonPathSegment::Key(key) => set_in_object(members, key, path, at, new),
                _ => (JsonValue::Object(members), false),
            }
        },
        JsonValue::Array(items) => {
            proof {
                lemma_array_view(&items);
            }
            match &path.0[at] {
                JsonPathSegment::Index(index) => set_in_array(items, *index, path, at, new),
                _ => (JsonValue::Array(items), false),
            }
        },
        other => (other, false),
    }
}

fn set_in_object(
    members: Vec<(String, JsonValue)>,
    key: &String,
    path: &JsonPath,
    at: usize,
    new: JsonValue,
) -> (r: (JsonValue, bool))
    requires
        at < path@.len(),
        path@[at as int] == Segment::Key(key@),
    ensures
        ({
            let m = members_view(members@);
            let ts = match member_index(m, key@) {
                Some(i) => match json_set(m[i].1, path@.skip(at + 1), new@) {
                    Some(c) => Some(JsonTree::Object(m.update(i, (m[i].0, c)))),
                    None => None,
                },
                None => None,
            };
            &&& r.1 == ts is Some
            &&& r.1 ==> r.0@ == ts.unwrap()
            &&& !r.1 ==> r.0@ == JsonTree::Object(m)
        }),
    decreases path@.len() - at, 0nat,
{
    let mut members = members;
    let n = path.0.len();
    let ghost m = members_view(members@);
    proof {
        lemma_object_view(&members);
    }
    match find_member(&members, key.as_str()) {
        Some(i) => {
            let (name, child) = members.remove(i);
            let (updated, ok) = set_owned(child, path, at + 1, new);
            members.insert(i, (name, updated));
            let ghost after = members@;
            proof {
                lemma_object_view(&members);
                if ok {
                    assert(members_view(after) =~= m.update(i as int, (m[i as int].0, updated@)));
                } else {
                    assert(members_view(after) =~= m);
                }
            }
            (JsonValue::Object(members), ok)
        },
        None => (JsonValue::Object(members), false),
    }
}

fn set_in_array(items: Vec<JsonValue>, index: usize, path: &JsonPath, at: usize, new: JsonValue) -> (r: (
    JsonValue,
    bool,
))
    requires
        at < path@.len(),
        path@[at as int] == Segment::Index(index as nat),
    ensures
        ({
            let l = json_items_view(items@);
            let ts = if index < l.len() {
                match json_set(l[index as int], path@.skip(at + 1), new@) {
                    Some(c) => Some(JsonTree::Array(l.update(index as int, c))),
                    None => None,
                }
            } else {
                None
            };
            &&& r.1 == ts is Some
            &&& r.1 ==> r.0@ == ts.unwrap()
            &&& !r.1 ==> r.0@ == JsonTree::Array(l)
        }),
    decreases path@.len() - at, 0nat,
{
    let mut items = items;
    let n = path.0.len();
    let ghost l = json_items_view(items@);
    proof {
        lemma_array_view(&items);
    }
    if index < items.len() {
        let child = items.remove(index);
        let (updated, ok) = set_owned(child, path, at + 1, new);
        items.insert(index, updated);
        let ghost after = items@;
        proof {
            lemma_array_view(&items);
            if ok {
                assert(json_items_view(after) =~= l.update(index as int, updated@));
            } else {
                assert(json_items_view(after) =~= l);
            }
        }
        (JsonValue::Array(items), ok)
    } else {
        (JsonValue::Array(items), false)
    }
}

/// Replaces the value at `path` with `new`; returns whether the path exists
/// (the document is unchanged when it does not).
pub fn set_json_at(root: &mut JsonValue, path: &JsonPath, new: JsonValue) -> (ok: bool)
    ensures
        ok == json_set(old(root)@, path@, new@) is Some,
        ok ==> final(root)@ == json_set(old(root)@, path@, new@).unwrap(),
        !ok ==> final(root)@ == old(root)@,
        json_distinct(old(root)@) && json_distinct(new@) ==> json_distinct(final(root)@),
{
    proof {
        if json_distinct(root@) && json_distinct(new@) {
            lemma_json_set_distinct(root@, path@, new@);
        }
    }
    let mut taken = JsonValue::Null;
    std::mem::swap(root, &mut taken);
    assert(path@.skip(0) =~= path@);
    let (result, ok) = set_owned(taken, path, 0, new);
    *root = result;
    ok
}

/// Replacing the value at a path succeeds exactly where reading it does,
/// and the value written is then the value read there.
pub proof fn lemma_json_get_set(t: JsonTree, p: Seq<Segment>, new: JsonTree)
    ensures
        json_set(t, p, new) is Some <==> json_get(t, p) is Some,
        json_set(t, p, new) matches Some(u) ==> json_get(u, p) == Some(new),
    decreases p.len(),
{
    if p.len() > 0 {
        match (t, p[0]) {
            (JsonTree::Object(m), Segment::Key(k)) => {
                match member_index(m, k) {
                    Some(i) => {
                        lemma_json_get_set(m[i].1, p.drop_first(), new);
                        lemma_json_get_set_member(m, k, i, p, new);
                    },
                    None => {},
                }
            },
            (JsonTree::Array(l), Segment::Index(i)) => {
                if i < l.len() {
                    lemma_json_get_set(l[i as int], p.drop_first(), new);
                }
            },
            _ => {},
        }
    }
}

#[verifier::rlimit(30)]
proof fn lemma_json_get_set_member(
    m: Seq<(Seq<char>, JsonTree)>,
    k: Seq<char>,
    i: int,
    p: Seq<Segment>,
    new: JsonTree,
)
    requires
        p.len() > 0,
        p[0] == Segment::Key(k),
        member_index(m, k) == Some(i),
        json_set(m[i].1, p.drop_first(), new) matches Some(c) ==> json_get(c, p.drop_first())
            == Some(new),
    ensures
        json_set(m[i].1, p.drop_first(), new) matches Some(c) ==> json_get(
            JsonTree::Object(m.update(i, (m[i].0, c))),
            p,
        ) == Some(new),
{
    if let Some(c) = json_set(m[i].1, p.drop_first(), new) {
        lemma_member_index(m, k);
        let m2 = m.update(i, (m[i].0, c));
        assert forall|j: int| 0 <= j < i implies m2[j].0 != k by {
            assert(m2[j] == m[j]);
        }
        lemma_member_index_unique(m2, k, i);
    }
}

// ---------------------------------------------------------------------------
// Replacing a scalar from text
// ---------------------------------------------------------------------------

/// The texts that make a boolean true: `true`, `1` and `yes`, after
/// trimming.
pub open spec fn json_truthy(s: Seq<char>) -> bool {
    let t = trim(s);
    t == "true"@ || t == "1"@ || t == "yes"@
}

/// The value that replaces `current` when the user enters `input`, or
/// `None` for a container (which is not edited). `parsed_f64` is what
/// parsing `input` as an `f64` gives (its bit pattern), if it parses.
///
/// - `null` and strings become the string `input`;
/// - a boolean becomes whether `input` is truthy;
/// - an `i64` number becomes the `i64` that `input` denotes, and any other
///   number the finite `f64` that it denotes; where `input` denotes no such
///   number, the value becomes the string `input`.
pub open spec fn json_scalar_from_text(current: JsonTree, input: Seq<char>, parsed_f64: Option<u64>) -> Option<JsonTree> {
    match current {
        JsonTree::Null => Some(JsonTree::String(input)),
        JsonTree::Bool(_) => Some(JsonTree::Bool(json_truthy(input))),
        JsonTree::Number(n) => Some(
            if number_is_i64(n) {
                match parse_int_in(input, i64::MIN as int, i64::MAX as int) {
                    Some(i) => JsonTree::Number(number_of_i64(i)),
                    None => JsonTree::String(input),
                }
            } else {
                match parsed_f64 {
                    Some(b) => if f64_finite(b) {
                        JsonTree::Number(JsonNumber::Float(b))
                    } else {
                        JsonTree::String(input)
                    },
                    None => JsonTree::String(input),
                }
            },
        ),
        JsonTree::String(_) => Some(JsonTree::String(input)),
        JsonTree::Array(_) => None,
        JsonTree::Object(_) => None,
    }
}

/// The document after editing the value at `path` from `input`, or `None`
/// when the path is missing or names a container.
pub open spec fn json_edit_outcome(root: JsonTree, path: Seq<Segment>, input: Seq<char>, parsed_f64: Option<u64>) -> Option<JsonTree> {
    match json_get(root, path) {
        None => None,
        Some(current) => match json_scalar_from_text(current, input, parsed_f64) {
            Some(v) => json_set(root, path, v),
            None => None,
        },
    }
}

fn is_finite_bits(bits: u64) -> (r: bool)
    ensures
        r == f64_finite(bits),
{
    (bits >> 52u64) & 0x7ffu64 != 0x7ffu64
}

fn truthy(input: &str) -> (r: bool)
    ensures
        r == json_truthy(input@),
{
    let t = trim_chars(&chars_of(input));
    chars_eq_str(&t, "true") || chars_eq_str(&t, "1") || chars_eq_str(&t, "yes")
}

fn scalar_replacement(current: &JsonValue, input: &str, parsed_f64: Option<u64>) -> (r: Option<JsonValue>)
    ensures
        r matches Some(v) ==> json_scalar_from_text(current@, input@, parsed_f64) == Some(v@),
        r is None ==> json_scalar_from_text(current@, input@, parsed_f64) is None,
{
    match current {
        JsonValue::Null => Some(JsonValue::String(input.to_owned())),
        JsonValue::Bool(_) => Some(JsonValue::Bool(truthy(input))),
        JsonValue::Number(n) => {
            let is_i64 = match n {
                JsonNumber::PosInt(v) => *v <= 9223372036854775807u64,
                JsonNumber::NegInt(_) => true,
                JsonNumber::Float(_) => false,
            };
            if is_i64 {
                match parse_int_range(&chars_of(input), i64::MIN, i64::MAX) {
                    Some(i) => Some(
                        JsonValue::Number(
                            if i < 0 {
                                JsonNumber::NegInt(i)
                            } else {
                                JsonNumber::PosInt(i as u64)
                            },
                        ),
                    ),
                    None => Some(JsonValue::String(input.to_owned())),
                }
            } else {
                match parsed_f64 {
                    Some(b) => if is_finite_bits(b) {
                        Some(JsonValue::Number(JsonNumber::Float(b)))
                    } else {
                        Some(JsonValue::String(input.to_owned()))
                    },
                    None => Some(JsonValue::String(input.to_owned())),
                }
            }
        },
        JsonValue::String(_) => Some(JsonValue::String(input.to_owned())),
        JsonValue::Array(l) => {
            proof {
                lemma_array_view(l);
            }
            None
        },
        JsonValue::Object(m) => {
            proof {
                lemma_object_view(m);
            }
            None
        },
    }
}

/// Replaces the scalar at `path` with the value `input` denotes for its
/// kind (see `json_scalar_from_text`); returns whether anything changed.
/// `parsed_f64` is the bit pattern of `input.parse::<f64>()` where that
/// parse succeeds.
pub fn set_json_scalar_from_string(
    value: &mut JsonValue,
    path: &JsonPath,
    input: &str,
    parsed_f64: Option<u64>,
) -> (r: bool)
    ensures
        r == json_edit_outcome(old(value)@, path@, input@, parsed_f64) is Some,
        r ==> final(value)@ == json_edit_outcome(old(value)@, path@, input@, parsed_f64).unwrap(),
        !r ==> final(value)@ == old(value)@,
        json_distinct(old(value)@) ==> json_distinct(final(value)@),
{
    let next = match get_json(value, path) {
        None => {
            return false;
        },
        Some(current) => match scalar_replacement(current, input, parsed_f64) {
            None => {
                return false;
            },
            Some(v) => v,
        },
    };
    proof {
        lemma_json_get_set(value@, path@, next@);
    }
    set_json_at(value, path, next)
}

// ---------------------------------------------------------------------------
// Heights under replacement
// ---------------------------------------------------------------------------

proof fn lemma_members_height_update(m: Seq<(Seq<char>, JsonTree)>, k: nat, i: int, c: JsonTree)
    requires
        0 <= i < m.len(),
        k <= m.len(),
        json_height(c) <= json_height(m[i].1),
    ensures
        members_height(m.update(i, (m[i].0, c)), k) <= members_height(m, k),
    decreases k,
{
    if k > 0 {
        lemma_members_height_update(m, (k - 1) as nat, i, c);
    }
}

proof fn lemma_json_items_height_update(l: Seq<JsonTree>, k: nat, i: int, c: JsonTree)
    requires
        0 <= i < l.len(),
        k <= l.len(),
        json_height(c) <= json_height(l[i]),
    ensures
        json_items_height(l.update(i, c), k) <= json_items_height(l, k),
    decreases k,
{
    if k > 0 {
        lemma_json_items_height_update(l, (k - 1) as nat, i, c);
    }
}

/// Replacing the value at a path by one that is no taller leaves the
/// document no taller.
pub proof fn lemma_json_set_height(t: JsonTree, p: Seq<Segment>, new: JsonTree)
    requires
        json_get(t, p) matches Some(old) && json_height(new) <= json_height(old),
    ensures
        json_set(t, p, new) matches Some(u) ==> json_height(u) <= json_height(t),
    decreases p.len(),
{
    if p.len() > 0 {
        match (t, p[0]) {
            (JsonTree::Object(m), Segment::Key(k)) => {
                match member_index(m, k) {
                    Some(i) => {
                        lemma_member_index(m, k);
                        lemma_json_set_height(m[i].1, p.drop_first(), new);
                        if let Some(c) = json_set(m[i].1, p.drop_first(), new) {
                            lemma_members_height_update(m, m.len(), i, c);
                        }
                    },
                    None => {},
                }
            },
            (JsonTree::Array(l), Segment::Index(i)) => {
                if i < l.len() {
                    lemma_json_set_height(l[i as int], p.drop_first(), new);
                    if let Some(c) = json_set(l[i as int], p.drop_first(), new) {
                        lemma_json_items_height_update(l, l.len(), i as int, c);
                    }
                }
            },
            _ => {},
        }
    }
}

/// Editing a scalar from text never makes the document taller.
pub proof fn lemma_json_edit_height(root: JsonTree, path: Seq<Segment>, input: Seq<char>, parsed_f64: Option<u64>)
    ensures
        json_edit_outcome(root, path, input, parsed_f64) matches Some(u) ==> json_height(u) <= json_height(root),
{
    if let Some(current) = json_get(root, path) {
        if let Some(v) = json_scalar_from_text(current, input, parsed_f64) {
            assert(json_height(v) == 0);
            lemma_json_get_set(root, path, v);
            lemma_json_set_height(root, path, v);
        }
    }
}

/// Entering the text that a string or an `i64` number is previewed as
/// gives the same value back (a negative number is always held as
/// `NegInt`, as the parser makes it).
pub proof fn lemma_json_preview_roundtrip(t: JsonTree, parsed_f64: Option<u64>)
    requires
        t is String || (t matches JsonTree::Number(n) && number_is_i64(n) && (n matches JsonNumber::NegInt(v)
            ==> v < 0)),
    ensures
        json_preview_of(t) matches JsonPreviewModel::Text(s) && json_scalar_from_text(t, s, parsed_f64)
            == Some(t),
{
    match t {
        JsonTree::Number(JsonNumber::PosInt(v)) => {
            lemma_parse_int_dec(v as int);
            assert(int_dec(v as int) == nat_dec(v as nat));
            assert(parse_int_in(nat_dec(v as nat), i64::MIN as int, i64::MAX as int) == Some(v as int));
            assert(number_of_i64(v as int) == JsonNumber::PosInt(v));
        },
        JsonTree::Number(JsonNumber::NegInt(v)) => {
            lemma_parse_int_dec(v as int);
        },
        _ => {},
    }
}

/// Entering the text that a boolean is previewed as (`true` or `false`)
/// gives the same boolean back, whatever the boolean was before.
pub proof fn lemma_json_bool_roundtrip(b: bool, before: bool, parsed_f64: Option<u64>)
    ensures
        json_preview_of(JsonTree::Bool(b)) matches JsonPreviewModel::Text(s)
            && json_scalar_from_text(JsonTree::Bool(before), s, parsed_f64) == Some(JsonTree::Bool(b)),
{
    reveal_strlit("true");
    reveal_strlit("false");
    reveal_strlit("1");
    reveal_strlit("yes");
    let s: Seq<char> = if b { "true"@ } else { "false"@ };
    assert(!is_ws(s[0]));
    assert(!is_ws(s.last()));
    assert(trim(s) == s);
}

// ---------------------------------------------------------------------------
// Every row names the value it describes
// ---------------------------------------------------------------------------

/// Whether no object in the document holds two members of the same name (as
/// in every document the parser produces).
pub open spec fn json_distinct(t: JsonTree) -> bool
    decreases t, 1nat, 0nat,
{
    match t {
        JsonTree::Object(m) => (forall|i: int, j: int|
            0 <= i < j < m.len() ==> (#[trigger] m[i]).0 != (#[trigger] m[j]).0) && members_distinct(
            m,
            m.len(),
        ),
        JsonTree::Array(l) => json_items_distinct(l, l.len()),
        _ => true,
    }
}

pub open spec fn members_distinct(m: Seq<(Seq<char>, JsonTree)>, k: nat) -> bool
    decreases m, 0nat, k,
{
    if k == 0 || k > m.len() {
        true
    } else {
        members_distinct(m, (k - 1) as nat) && json_distinct(m[k - 1].1)
    }
}

pub open spec fn json_items_distinct(l: Seq<JsonTree>, k: nat) -> bool
    decreases l, 0nat, k,
{
    if k == 0 || k > l.len() {
        true
    } else {
        json_items_distinct(l, (k - 1) as nat) && json_distinct(l[k - 1])
    }
}

proof fn lemma_members_distinct(m: Seq<(Seq<char>, JsonTree)>, k: nat, i: int)
    requires
        members_distinct(m, k),
        0 <= i < k <= m.len(),
    ensures
        json_distinct(m[i].1),
    decreases k,
{
    if i < k - 1 {
        lemma_members_distinct(m, (k - 1) as nat, i);
    }
}

proof fn lemma_json_items_distinct(l: Seq<JsonTree>, k: nat, i: int)
    requires
        json_items_distinct(l, k),
        0 <= i < k <= l.len(),
    ensures
        json_distinct(l[i]),
    decreases k,
{
    if i < k - 1 {
        lemma_json_items_distinct(l, (k - 1) as nat, i);
    }
}

/// Whether row `e`, listed below the path `base` of the value `root`,
/// describes the value its path leads to from `root`: its preview and
/// editability are those of that value.
pub open spec fn json_row_describes(root: JsonTree, e: JsonEntryModel, base: Seq<Segment>) -> bool {
    &&& base.len() <= e.path.len()
    &&& e.path.take(base.len() as int) == base
    &&& match json_get(root, e.path.skip(base.len() as int)) {
        Some(v) => e.preview == json_preview_of(v) && e.editable == json_is_leaf(v),
        None => false,
    }
}

proof fn lemma_json_row_lift(t: JsonTree, c: JsonTree, seg: Segment, e: JsonEntryModel, base: Seq<Segment>)
    requires
        json_step(t, seg) == Some(c),
        json_row_describes(c, e, base.push(seg)),
    ensures
        json_row_describes(t, e, base),
{
    let n = base.len() as int;
    assert(e.path.take(n + 1) == base.push(seg));
    assert(e.path.take(n) =~= e.path.take(n + 1).take(n));
    assert(base.push(seg).take(n) =~= base);
    assert(e.path.take(n) == base);
    assert(e.path.take(n + 1)[n] == seg);
    let rest = e.path.skip(n);
    assert(rest.len() > 0);
    assert(rest[0] == seg);
    assert(rest.drop_first() =~= e.path.skip(n + 1));
    assert(json_get(t, rest) == json_get(c, rest.drop_first()));
    assert(json_get(t, rest) == json_get(c, e.path.skip(n + 1)));
}

proof fn lemma_json_rows_concat(root: JsonTree, a: Seq<JsonEntryModel>, b: Seq<JsonEntryModel>, base: Seq<Segment>)
    requires
        forall|i: int| 0 <= i < a.len() ==> json_row_describes(root, #[trigger] a[i], base),
        forall|i: int| 0 <= i < b.len() ==> json_row_describes(root, #[trigger] b[i], base),
    ensures
        forall|i: int| 0 <= i < (a + b).len() ==> json_row_describes(root, #[trigger] (a + b)[i], base),
{
    assert forall|i: int| 0 <= i < (a + b).len() implies json_row_describes(root, #[trigger] (a + b)[i], base) by {
        if i < a.len() {
            assert((a + b)[i] == a[i]);
        } else {
            assert((a + b)[i] == b[i - a.len()]);
        }
    }
}

/// Every row of a flattened document describes the value that its path leads
/// to (when no object repeats a member name).
pub proof fn lemma_json_flat_rows(t: JsonTree, path: Seq<Segment>, depth: nat, label: Seq<char>)
    requires
        json_distinct(t),
    ensures
        forall|i: int| 0 <= i < json_flat(t, path, depth, label).len() ==> json_row_describes(
            t,
            #[trigger] json_flat(t, path, depth, label)[i],
            path,
        ),
    decreases t, 1nat, 0nat,
{
    let head = seq![json_entry_of(t, path, depth, label)];
    assert(path.take(path.len() as int) =~= path);
    assert(path.skip(path.len() as int) =~= Seq::<Segment>::empty());
    assert(json_row_describes(t, head[0], path));
    let tail = match t {
        JsonTree::Object(m) => json_flat_members(m, member_order(m), member_order(m).len(), path, depth + 1),
        JsonTree::Array(l) => json_flat_items(l, l.len(), path, depth + 1),
        _ => Seq::empty(),
    };
    match t {
        JsonTree::Object(m) => {
            lemma_sorted_order(member_names(m), m.len());
            lemma_json_flat_members_rows(m, member_order(m), member_order(m).len(), path, depth + 1);
        },
        JsonTree::Array(l) => {
            lemma_json_flat_items_rows(l, l.len(), path, depth + 1);
        },
        _ => {},
    }
    lemma_json_rows_concat(t, head, tail, path);
}

proof fn lemma_json_flat_members_rows(
    m: Seq<(Seq<char>, JsonTree)>,
    order: Seq<int>,
    k: nat,
    path: Seq<Segment>,
    depth: nat,
)
    requires
        json_distinct(JsonTree::Object(m)),
    ensures
        forall|i: int| 0 <= i < json_flat_members(m, order, k, path, depth).len() ==> json_row_describes(
            JsonTree::Object(m),
            #[trigger] json_flat_members(m, order, k, path, depth)[i],
            path,
        ),
    decreases m, 0nat, k,
{
    if k == 0 || k > order.len() {
    } else {
        let idx = order[k - 1];
        let rest = json_flat_members(m, order, (k - 1) as nat, path, depth);
        lemma_json_flat_members_rows(m, order, (k - 1) as nat, path, depth);
        if 0 <= idx < m.len() {
            let seg = Segment::Key(m[idx].0);
            let c = m[idx].1;
            lemma_members_distinct(m, m.len(), idx);
            lemma_member_index_unique(m, m[idx].0, idx);
            assert(json_step(JsonTree::Object(m), seg) == Some(c));
            let child = json_flat(c, path.push(seg), depth, m[idx].0);
            lemma_json_flat_rows(c, path.push(seg), depth, m[idx].0);
            assert forall|i: int| 0 <= i < child.len() implies json_row_describes(
                JsonTree::Object(m),
                #[trigger] child[i],
                path,
            ) by {
                lemma_json_row_lift(JsonTree::Object(m), c, seg, child[i], path);
            }
            lemma_json_rows_concat(JsonTree::Object(m), rest, child, path);
        }
    }
}

proof fn lemma_json_flat_items_rows(l: Seq<JsonTree>, k: nat, path: Seq<Segment>, depth: nat)
    requires
        json_distinct(JsonTree::Array(l)),
    ensures
        forall|i: int| 0 <= i < json_flat_items(l, k, path, depth).len() ==> json_row_describes(
            JsonTree::Array(l),
            #[trigger] json_flat_items(l, k, path, depth)[i],
            path,
        ),
    decreases l, 0nat, k,
{
    if k == 0 || k > l.len() {
    } else {
        let rest = json_flat_items(l, (k - 1) as nat, path, depth);
        lemma_json_flat_items_rows(l, (k - 1) as nat, path, depth);
        let seg = Segment::Index((k - 1) as nat);
        let c = l[k - 1];
        lemma_json_items_distinct(l, l.len(), k - 1);
        assert(json_step(JsonTree::Array(l), seg) == Some(c));
        let child = json_flat(c, path.push(seg), depth, nat_dec((k - 1) as nat));
        lemma_json_flat_rows(c, path.push(seg), depth, nat_dec((k - 1) as nat));
        assert forall|i: int| 0 <= i < child.len() implies json_row_describes(
            JsonTree::Array(l),
            #[trigger] child[i],
            path,
        ) by {
            lemma_json_row_lift(JsonTree::Array(l), c, seg, child[i], path);
        }
        lemma_json_rows_concat(JsonTree::Array(l), rest, child, path);
    }
}

/// Every row of a whole flattened document names, by its path from the root,
/// the value it describes (when no object repeats a member name).
pub proof fn lemma_flatten_json_rows(root: JsonTree)
    requires
        json_distinct(root),
    ensures
        forall|i: int| 0 <= i < json_flat(root, Seq::empty(), 0, "root"@).len() ==> (json_get(
            root,
            (#[trigger] json_flat(root, Seq::empty(), 0, "root"@)[i]).path,
        ) matches Some(v)
            && json_flat(root, Seq::empty(), 0, "root"@)[i].preview == json_preview_of(v)
            && json_flat(root, Seq::empty(), 0, "root"@)[i].editable == json_is_leaf(v)),
{
    lemma_json_flat_rows(root, Seq::empty(), 0, "root"@);
    assert forall|i: int| 0 <= i < json_flat(root, Seq::empty(), 0, "root"@).len() implies (json_get(
        root,
        (#[trigger] json_flat(root, Seq::empty(), 0, "root"@)[i]).path,
    ) matches Some(v)
        && json_flat(root, Seq::empty(), 0, "root"@)[i].preview == json_preview_of(v)
        && json_flat(root, Seq::empty(), 0, "root"@)[i].editable == json_is_leaf(v)) by {
        let e = json_flat(root, Seq::empty(), 0, "root"@)[i];
        assert(json_row_describes(root, e, Seq::empty()));
        assert(e.path.skip(0) =~= e.path);
    }
}

proof fn lemma_members_distinct_update(m: Seq<(Seq<char>, JsonTree)>, k: nat, i: int, c: JsonTree)
    requires
        0 <= i < m.len(),
        k <= m.len(),
        members_distinct(m, k),
        json_distinct(c),
    ensures
        members_distinct(m.update(i, (m[i].0, c)), k),
    decreases k,
{
    if k > 0 {
        lemma_members_distinct_update(m, (k - 1) as nat, i, c);
    }
}

proof fn lemma_json_items_distinct_update(l: Seq<JsonTree>, k: nat, i: int, c: JsonTree)
    requires
        0 <= i < l.len(),
        k <= l.len(),
        json_items_distinct(l, k),
        json_distinct(c),
    ensures
        json_items_distinct(l.update(i, c), k),
    decreases k,
{
    if k > 0 {
        lemma_json_items_distinct_update(l, (k - 1) as nat, i, c);
    }
}

proof fn lemma_object_update_distinct(m: Seq<(Seq<char>, JsonTree)>, i: int, c: JsonTree)
    requires
        0 <= i < m.len(),
        json_distinct(JsonTree::Object(m)),
        json_distinct(c),
    ensures
        json_distinct(JsonTree::Object(m.update(i, (m[i].0, c)))),
{
    let m2 = m.update(i, (m[i].0, c));
    assert forall|a: int, b: int| 0 <= a < b < m2.len() implies (#[trigger] m2[a]).0 != (#[trigger] m2[b]).0 by {
        assert(m2[a].0 == m[a].0);
        assert(m2[b].0 == m[b].0);
        assert(m[a].0 != m[b].0);
    }
    lemma_members_distinct_update(m, m.len(), i, c);
}

/// Replacing a value by one whose objects repeat no member name keeps a
/// document's objects free of repeated names.
pub proof fn lemma_json_set_distinct(t: JsonTree, p: Seq<Segment>, new: JsonTree)
    requires
        json_distinct(t),
        json_distinct(new),
    ensures
        json_set(t, p, new) matches Some(u) ==> json_distinct(u),
    decreases p.len(),
{
    if p.len() > 0 {
        match (t, p[0]) {
            (JsonTree::Object(m), Segment::Key(k)) => {
                if let Some(i) = member_index(m, k) {
                    lemma_member_index(m, k);
                    lemma_members_distinct(m, m.len(), i);
                    lemma_json_set_distinct(m[i].1, p.drop_first(), new);
                    if let Some(c) = json_set(m[i].1, p.drop_first(), new) {
                        lemma_object_update_distinct(m, i, c);
                    }
                }
            },
            (JsonTree::Array(l), Segment::Index(i)) => {
                if i < l.len() {
                    lemma_json_items_distinct(l, l.len(), i as int);
                    lemma_json_set_distinct(l[i as int], p.drop_first(), new);
                    if let Some(c) = json_set(l[i as int], p.drop_first(), new) {
                        lemma_json_items_distinct_update(l, l.len(), i as int, c);
                    }
                }
            },
            _ => {},
        }
    }
}

} // verus!
