//! Flattening an NBT tree into display rows, reading a value at a path and
//! replacing a scalar from text.
use vstd::prelude::*;
use crate::domain::nbt::value::{
    NbtValue, lemma_key_index, NbtTree, tag_name, is_leaf, value_type_name, is_scalar, entries_view, items_view,
    lemma_compound_view, lemma_list_view, key_index, find_key, lemma_key_index_unique, as_int,
};
use crate::domain::nbt::path::{NbtPath, NbtPathSegment, Segment};
use crate::order::{
    sorted_order, names_view, sort_order, lemma_sorted_order, is_permutation_of_range,
};
use crate::text::{
    int_dec, nat_dec, concat, usize_to_text, i64_to_text, chars_of, trim, trim_chars, split_on,
    split_chars, parse_int_in, parse_int_range, lemma_split_on_nonempty, lemma_parse_int_dec,
    parse_int,
};
use crate::util::error::{HydroxylError, ErrorModel};

verus! {

// ---------------------------------------------------------------------------
// Previews
// ---------------------------------------------------------------------------

/// The short text shown beside a value. Floating-point values are shown
/// with three decimals; that text is produced where floats are available,
/// from the bit pattern kept here.
#[derive(Debug, PartialEq)]
pub enum NbtPreview {
    Text(String),
    /// An `f32` to be shown as `{:.3}`.
    Float(u32),
    /// An `f64` to be shown as `{:.3}`.
    Double(u64),
}

pub enum PreviewModel {
    Text(Seq<char>),
    Float(u32),
    Double(u64),
}

impl View for NbtPreview {
    type V = PreviewModel;

    open spec fn view(&self) -> PreviewModel {
        match self {
            NbtPreview::Text(s) => PreviewModel::Text(s@),
            NbtPreview::Float(b) => PreviewModel::Float(*b),
            NbtPreview::Double(b) => PreviewModel::Double(*b),
        }
    }
}

/// The preview of a value: integers in decimal, strings as they are, and
/// containers as their element count.
pub open spec fn preview_of(t: NbtTree) -> PreviewModel {
    match t {
        NbtTree::Byte(v) => PreviewModel::Text(int_dec(v as int)),
        NbtTree::Short(v) => PreviewModel::Text(int_dec(v as int)),
        NbtTree::Int(v) => PreviewModel::Text(int_dec(v as int)),
        NbtTree::Long(v) => PreviewModel::Text(int_dec(v as int)),
        NbtTree::Float(b) => PreviewModel::Float(b),
        NbtTree::Double(b) => PreviewModel::Double(b),
        NbtTree::String(s) => PreviewModel::Text(s),
        NbtTree::ByteArray(a) => PreviewModel::Text(nat_dec(a.len()) + " bytes"@),
        NbtTree::IntArray(a) => PreviewModel::Text(nat_dec(a.len()) + " ints"@),
        NbtTree::LongArray(a) => PreviewModel::Text(nat_dec(a.len()) + " longs"@),
        NbtTree::List(l) => PreviewModel::Text(nat_dec(l.len()) + " entries"@),
        NbtTree::Compound(m) => PreviewModel::Text(nat_dec(m.len()) + " keys"@),
    }
}

fn count_text(n: usize, unit: &str) -> (r: String)
    ensures
        r@ == nat_dec(n as nat) + unit@,
{
    let digits = usize_to_text(n);
    concat(digits.as_str(), unit)
}

/// The preview of a value.
pub fn preview(value: &NbtValue) -> (r: NbtPreview)
    ensures
        r@ == preview_of(value@),
{
    match value {
        NbtValue::Byte(v) => NbtPreview::Text(i64_to_text(*v as i64)),
        NbtValue::Short(v) => NbtPreview::Text(i64_to_text(*v as i64)),
        NbtValue::Int(v) => NbtPreview::Text(i64_to_text(*v as i64)),
        NbtValue::Long(v) => NbtPreview::Text(i64_to_text(*v)),
        NbtValue::Float(b) => NbtPreview::Float(*b),
        NbtValue::Double(b) => NbtPreview::Double(*b),
        NbtValue::String(s) => NbtPreview::Text(s.clone()),
        NbtValue::ByteArray(a) => NbtPreview::Text(count_text(a.len(), " bytes")),
        NbtValue::IntArray(a) => NbtPreview::Text(count_text(a.len(), " ints")),
        NbtValue::LongArray(a) => NbtPreview::Text(count_text(a.len(), " longs")),
        NbtValue::List(l) => {
            proof {
                lemma_list_view(l);
            }
            NbtPreview::Text(count_text(l.len(), " entries"))
        },
        NbtValue::Compound(m) => {
            proof {
                lemma_compound_view(m);
            }
            NbtPreview::Text(count_text(m.len(), " keys"))
        },
    }
}

// ---------------------------------------------------------------------------
// Flattening
// ---------------------------------------------------------------------------

/// One row of a flattened tree.
#[derive(Debug, PartialEq)]
pub struct NbtEntry {
    pub path: NbtPath,
    pub depth: usize,
    pub label: String,
    /// The name of the value's tag.
    pub type_label: &'static str,
    pub preview: NbtPreview,
    pub editable: bool,
}

pub struct EntryModel {
    pub path: Seq<Segment>,
    pub depth: nat,
    pub label: Seq<char>,
    pub type_label: Seq<char>,
    pub preview: PreviewModel,
    pub editable: bool,
}

impl View for NbtEntry {
    type V = EntryModel;

    open spec fn view(&self) -> EntryModel {
        EntryModel {
            path: self.path@,
            depth: self.depth as nat,
            label: self.label@,
            type_label: self.type_label@,
            preview: self.preview@,
            editable: self.editable,
        }
    }
}

/// The models of a sequence of rows.
pub open spec fn entries_model(s: Seq<NbtEntry>) -> Seq<EntryModel> {
    Seq::new(s.len(), |i: int| s[i]@)
}

/// The row that describes `t`.
pub open spec fn entry_of(t: NbtTree, path: Seq<Segment>, depth: nat, label: Seq<char>) -> EntryModel {
    EntryModel {
        path,
        depth,
        label,
        type_label: tag_name(t),
        preview: preview_of(t),
        editable: is_leaf(t),
    }
}

/// The names of a compound's entries, in stored order.
pub open spec fn compound_keys(m: Seq<(Seq<char>, NbtTree)>) -> Seq<Seq<char>> {
    Seq::new(m.len(), |i: int| m[i].0)
}

/// The order in which a compound's entries are listed: ascending by name.
pub open spec fn compound_order(m: Seq<(Seq<char>, NbtTree)>) -> Seq<int> {
    sorted_order(compound_keys(m), m.len())
}

/// The rows of `t` and everything below it: first `t`'s own row, then the
/// rows of each child one level deeper, compound entries in ascending name
/// order and list items in index order.
pub open spec fn flat(t: NbtTree, path: Seq<Segment>, depth: nat, label: Seq<char>) -> Seq<EntryModel>
    decreases t, 1nat, 0nat,
{
    seq![entry_of(t, path, depth, label)] + match t {
        NbtTree::Compound(m) => flat_entries(
            m,
            compound_order(m),
            compound_order(m).len(),
            path,
            depth + 1,
        ),
        NbtTree::List(l) => flat_items(l, l.len(), path, depth + 1),
        _ => Seq::empty(),
    }
}

/// The rows of the first `k` entries of `m` in the order `order`.
pub open spec fn flat_entries(
    m: Seq<(Seq<char>, NbtTree)>,
    order: Seq<int>,
    k: nat,
    path: Seq<Segment>,
    depth: nat,
) -> Seq<EntryModel>
    decreases m, 0nat, k,
{
    if k == 0 || k > order.len() {
        Seq::empty()
    } else {
        let idx = order[k - 1];
        let rest = flat_entries(m, order, (k - 1) as nat, path, depth);
        if 0 <= idx < m.len() {
            rest + flat(m[idx].1, path.push(Segment::Key(m[idx].0)), depth, m[idx].0)
        } else {
            rest
        }
    }
}

/// The rows of the first `k` items of `l`.
pub open spec fn flat_items(l: Seq<NbtTree>, k: nat, path: Seq<Segment>, depth: nat) -> Seq<
    EntryModel,
>
    decreases l, 0nat, k,
{
    if k == 0 || k > l.len() {
        Seq::empty()
    } else {
        flat_items(l, (k - 1) as nat, path, depth) + flat(
            l[k - 1],
            path.push(Segment::Index((k - 1) as nat)),
            depth,
            nat_dec((k - 1) as nat),
        )
    }
}

/// The nesting height of a tree: 0 for a leaf, one more than its tallest
/// child for a container.
pub open spec fn height(t: NbtTree) -> nat
    decreases t, 1nat, 0nat,
{
    match t {
        NbtTree::Compound(m) => 1 + entries_height(m, m.len()),
        NbtTree::List(l) => 1 + items_height(l, l.len()),
        _ => 0,
    }
}

pub open spec fn entries_height(m: Seq<(Seq<char>, NbtTree)>, k: nat) -> nat
    decreases m, 0nat, k,
{
    if k == 0 || k > m.len() {
        0
    } else {
        let h = height(m[k - 1].1);
        let rest = entries_height(m, (k - 1) as nat);
        if h > rest {
            h
        } else {
            rest
        }
    }
}

pub open spec fn items_height(l: Seq<NbtTree>, k: nat) -> nat
    decreases l, 0nat, k,
{
    if k == 0 || k > l.len() {
        0
    } else {
        let h = height(l[k - 1]);
        let rest = items_height(l, (k - 1) as nat);
        if h > rest {
            h
        } else {
            rest
        }
    }
}

proof fn lemma_entries_height(m: Seq<(Seq<char>, NbtTree)>, k: nat, i: int)
    requires
        0 <= i < k <= m.len(),
    ensures
        height(m[i].1) <= entries_height(m, k),
    decreases k,
{
    if i < k - 1 {
        lemma_entries_height(m, (k - 1) as nat, i);
    }
}

proof fn lemma_items_height(l: Seq<NbtTree>, k: nat, i: int)
    requires
        0 <= i < k <= l.len(),
    ensures
        height(l[i]) <= items_height(l, k),
    decreases k,
{
    if i < k - 1 {
        lemma_items_height(l, (k - 1) as nat, i);
    }
}

/// Whether a tree's rows can be numbered by depth without overflow: its
/// height is below the largest `usize` (a tree that tall cannot be held in
/// memory).
pub open spec fn height_fits(t: NbtTree) -> bool {
    height(t) < usize::MAX
}

fn flatten_inner(
    value: &NbtValue,
    path: &NbtPath,
    depth: usize,
    label: String,
    output: &mut Vec<NbtEntry>,
)
    requires
        depth + height(value@) <= usize::MAX,
    ensures
        entries_model(final(output)@) == entries_model(old(output)@) + flat(
            value@,
            path@,
            depth as nat,
            label@,
        ),
    decreases value,
{
    let ghost start = entries_model(output@);
    let entry = NbtEntry {
        path: path.copy(),
        depth,
        label,
        type_label: value_type_name(value),
        preview: preview(value),
        editable: is_scalar(value),
    };
    output.push(entry);
    assert(entries_model(output@) =~= start + seq![entry_of(value@, path@, depth as nat, label@)]);
    let ghost head = entries_model(output@);
    match value {
        NbtValue::Compound(entries) => {
            proof {
                lemma_compound_view(entries);
            }
            let ghost m = entries_view(entries@);
            let mut keys: Vec<Vec<char>> = Vec::new();
            let mut i: usize = 0;
            while i < entries.len()
                invariant
                    i <= entries@.len(),
                    keys@.len() == i,
                    forall|j: int| 0 <= j < i ==> #[trigger] keys@[j]@ == entries@[j].0@,
                decreases entries.len() - i,
            {
                keys.push(chars_of(entries[i].0.as_str()));
                i = i + 1;
            }
            assert(names_view(keys@) =~= compound_keys(m));
            let order = sort_order(&keys);
            proof {
                lemma_sorted_order(compound_keys(m), m.len());
            }
            let ghost ord = compound_order(m);
            let mut k: usize = 0;
            while k < order.len()
                invariant
                    k <= order@.len() == ord.len() == entries@.len(),
                    *value == NbtValue::Compound(*entries),
                    value@ == NbtTree::Compound(m),
                    m == entries_view(entries@),
                    ord == compound_order(m),
                    is_permutation_of_range(ord, m.len()),
                    forall|j: int| 0 <= j < order@.len() ==> #[trigger] order@[j] as int == ord[j],
                    depth + height(value@) <= usize::MAX,
                    entries_model(output@) == head + flat_entries(
                        m,
                        ord,
                        k as nat,
                        path@,
                        (depth + 1) as nat,
                    ),
                decreases order.len() - k,
            {
                let idx = order[k];
                assert(0 <= ord[k as int] < m.len());
                let child = &entries[idx].1;
                let name = &entries[idx].0;
                proof {
                    lemma_entries_height(m, m.len(), idx as int);
                    assert(decreases_to!(*value => *entries));
                    assert(decreases_to!(*entries => entries@));
                    assert(decreases_to!(entries@ => entries@[idx as int]));
                    assert(decreases_to!(entries@[idx as int] => entries@[idx as int].1));
                    assert(decreases_to!(*value => entries@[idx as int].1));
                }
                let child_path = path.child_key(name.as_str());
                flatten_inner(child, &child_path, depth + 1, name.clone(), output);
                k = k + 1;
            }
        },
        NbtValue::List(items) => {
            proof {
                lemma_list_view(items);
            }
            let ghost l = items_view(items@);
            let mut k: usize = 0;
            while k < items.len()
                invariant
                    k <= items@.len(),
                    *value == NbtValue::List(*items),
                    value@ == NbtTree::List(l),
                    l == items_view(items@),
                    depth + height(value@) <= usize::MAX,
                    entries_model(output@) == head + flat_items(
                        l,
                        k as nat,
                        path@,
                        (depth + 1) as nat,
                    ),
                decreases items.len() - k,
            {
                proof {
                    lemma_items_height(l, l.len(), k as int);
                    assert(decreases_to!(*value => *items));
                    assert(decreases_to!(*items => items@));
                    assert(decreases_to!(items@ => items@[k as int]));
                    assert(decreases_to!(*value => items@[k as int]));
                }
                let child_path = path.child_index(k);
                flatten_inner(&items[k], &child_path, depth + 1, usize_to_text(k), output);
                k = k + 1;
            }
        },
        _ => {},
    }
}

/// The rows of a whole tree, starting with the root (labelled `root`).
pub fn flatten(root: &NbtValue) -> (r: Vec<NbtEntry>)
    requires
        height_fits(root@),
    ensures
        entries_model(r@) == flat(root@, Seq::empty(), 0, "root"@),
{
    let mut entries: Vec<NbtEntry> = Vec::new();
    let path = NbtPath::root();
    flatten_inner(root, &path, 0, "root".to_owned(), &mut entries);
    assert(entries_model(Seq::<NbtEntry>::empty()) =~= Seq::<EntryModel>::empty());
    assert(flat(root@, Seq::empty(), 0, "root"@) =~= Seq::<EntryModel>::empty() + flat(
        root@,
        Seq::empty(),
        0,
        "root"@,
    ));
    entries
}

// ---------------------------------------------------------------------------
// Reading and replacing the value at a path
// ---------------------------------------------------------------------------

/// The child of `t` that one step names.
pub open spec fn step(t: NbtTree, s: Segment) -> Option<NbtTree> {
    match (t, s) {
        (NbtTree::Compound(m), Segment::Key(k)) => match key_index(m, k) {
            Some(i) => Some(m[i].1),
            None => None,
        },
        (NbtTree::List(l), Segment::Index(i)) => if i < l.len() {
            Some(l[i as int])
        } else {
            None
        },
        _ => None,
    }
}

/// The value at path `p` below `t`, if every step exists.
pub open spec fn tree_get(t: NbtTree, p: Seq<Segment>) -> Option<NbtTree>
    decreases p.len(),
{
    if p.len() == 0 {
        Some(t)
    } else {
        match step(t, p[0]) {
            Some(c) => tree_get(c, p.drop_first()),
            None => None,
        }
    }
}

/// `t` with the value at path `p` replaced by `new`, if every step exists.
pub open spec fn tree_set(t: NbtTree, p: Seq<Segment>, new: NbtTree) -> Option<NbtTree>
    decreases p.len(),
{
    if p.len() == 0 {
        Some(new)
    } else {
        match (t, p[0]) {
            (NbtTree::Compound(m), Segment::Key(k)) => match key_index(m, k) {
                Some(i) => match tree_set(m[i].1, p.drop_first(), new) {
                    Some(c) => Some(NbtTree::Compound(m.update(i, (m[i].0, c)))),
                    None => None,
                },
                None => None,
            },
            (NbtTree::List(l), Segment::Index(i)) => if i < l.len() {
                match tree_set(l[i as int], p.drop_first(), new) {
                    Some(c) => Some(NbtTree::List(l.update(i as int, c))),
                    None => None,
                }
            } else {
                None
            },
            _ => None,
        }
    }
}

/// The value at `path` (`None` when a step is missing or of the wrong kind).
pub fn get<'a>(root: &'a NbtValue, path: &NbtPath) -> (r: Option<&'a NbtValue>)
    ensures
        r matches Some(v) ==> tree_get(root@, path@) == Some(v@),
        r is None ==> tree_get(root@, path@) is None,
{
    let mut current: &NbtValue = root;
    let mut i: usize = 0;
    assert(path@.skip(0) =~= path@);
    while i < path.0.len()
        invariant
            i <= path.0@.len(),
            path@.len() == path.0@.len(),
            tree_get(root@, path@) == tree_get(current@, path@.skip(i as int)),
        decreases path.0.len() - i,
    {
        let ghost rest = path@.skip(i as int);
        assert(rest[0] == path.0@[i as int]@);
        assert(rest.drop_first() =~= path@.skip(i + 1));
        match (current, &path.0[i]) {
            (NbtValue::Compound(entries), NbtPathSegment::Key(key)) => {
                proof {
                    lemma_compound_view(entries);
                    assert(entries_view(entries@) =~= Seq::new(
                        entries@.len(),
                        |k: int| (entries@[k].0@, entries@[k].1@),
                    ));
                }
                match find_key(entries, key.as_str()) {
                    Some(k) => {
                        current = &entries[k].1;
                    },
                    None => {
                        return None;
                    },
                }
            },
            (NbtValue::List(items), NbtPathSegment::Index(index)) => {
                proof {
                    lemma_list_view(items);
                }
                if *index < items.len() {
                    current = &items[*index];
                } else {
                    return None;
                }
            },
            _ => {
                return None;
            },
        }
        i = i + 1;
    }
    assert(path@.skip(i as int) =~= Seq::<Segment>::empty());
    Some(current)
}

fn set_owned(node: NbtValue, path: &NbtPath, at: usize, new: NbtValue) -> (r: (NbtValue, bool))
    requires
        at <= path@.len(),
    ensures
        r.1 == tree_set(node@, path@.skip(at as int), new@) is Some,
        r.1 ==> r.0@ == tree_set(node@, path@.skip(at as int), new@).unwrap(),
        !r.1 ==> r.0@ == node@,
    decreases path@.len() - at, 1nat,
{
    let ghost rest = path@.skip(at as int);
    if at == path.0.len() {
        return (new, true);
    }
    assert(rest[0] == path.0@[at as int]@);
    assert(rest.drop_first() =~= path@.skip(at + 1));
    match node {
        NbtValue::Compound(entries) => {
            proof {
                lemma_compound_view(&entries);
            }
            match &path.0[at] {
                NbtPathSegment::Key(key) => set_in_compound(entries, key, path, at, new),
                _ => (NbtValue::Compound(entries), false),
            }
        },
        NbtValue::List(items) => {
            proof {
                lemma_list_view(&items);
            }
            match &path.0[at] {
                NbtPathSegment::Index(index) => set_in_list(items, *index, path, at, new),
                _ => (NbtValue::List(items), false),
            }
        },
        other => (other, false),
    }
}

fn set_in_compound(
    entries: Vec<(String, NbtValue)>,
    key: &String,
    path: &NbtPath,
    at: usize,
    new: NbtValue,
) -> (r: (NbtValue, bool))
    requires
        at < path@.len(),
        path@[at as int] == Segment::Key(key@),
    ensures
        ({
            let m = entries_view(entries@);
            let ts = match key_index(m, key@) {
                Some(i) => match tree_set(m[i].1, path@.skip(at + 1), new@) {
                    Some(c) => Some(NbtTree::Compound(m.update(i, (m[i].0, c)))),
                    None => None,
                },
                None => None,
            };
            &&& r.1 == ts is Some
            &&& r.1 ==> r.0@ == ts.unwrap()
            &&& !r.1 ==> r.0@ == NbtTree::Compound(m)
        }),
    decreases path@.len() - at, 0nat,
{
    let mut entries = entries;
    let n = path.0.len();
    let ghost m = entries_view(entries@);
    proof {
        lemma_compound_view(&entries);
        assert(m =~= Seq::new(entries@.len(), |k: int| (entries@[k].0@, entries@[k].1@)));
    }
    match find_key(&entries, key.as_str()) {
        Some(i) => {
            let (name, child) = entries.remove(i);
            let (updated, ok) = set_owned(child, path, at + 1, new);
            entries.insert(i, (name, updated));
            let ghost after = entries@;
            proof {
                lemma_compound_view(&entries);
                if ok {
                    assert(entries_view(after) =~= m.update(i as int, (m[i as int].0, updated@)));
                } else {
                    assert(entries_view(after) =~= m);
                }
            }
            (NbtValue::Compound(entries), ok)
        },
        None => (NbtValue::Compound(entries), false),
    }
}

fn set_in_list(items: Vec<NbtValue>, index: usize, path: &NbtPath, at: usize, new: NbtValue) -> (r: (
    NbtValue,
    bool,
))
    requires
        at < path@.len(),
        path@[at as int] == Segment::Index(index as nat),
    ensures
        ({
            let l = items_view(items@);
            let ts = if index < l.len() {
                match tree_set(l[index as int], path@.skip(at + 1), new@) {
                    Some(c) => Some(NbtTree::List(l.update(index as int, c))),
                    None => None,
                }
            } else {
                None
            };
            &&& r.1 == ts is Some
            &&& r.1 ==> r.0@ == ts.unwrap()
            &&& !r.1 ==> r.0@ == NbtTree::List(l)
        }),
    decreases path@.len() - at, 0nat,
{
    let mut items = items;
    let n = path.0.len();
    let ghost l = items_view(items@);
    proof {
        lemma_list_view(&items);
    }
    if index < items.len() {
        let child = items.remove(index);
        let (updated, ok) = set_owned(child, path, at + 1, new);
        items.insert(index, updated);
        let ghost after = items@;
        proof {
            lemma_list_view(&items);
            if ok {
                assert(items_view(after) =~= l.update(index as int, updated@));
            } else {
                assert(items_view(after) =~= l);
            }
        }
        (NbtValue::List(items), ok)
    } else {
        (NbtValue::List(items), false)
    }
}

/// Replaces the value at `path` with `new`; returns whether the path exists
/// (the tree is unchanged when it does not).
pub fn set_at(root: &mut NbtValue, path: &NbtPath, new: NbtValue) -> (ok: bool)
    ensures
        ok == tree_set(old(root)@, path@, new@) is Some,
        ok ==> final(root)@ == tree_set(old(root)@, path@, new@).unwrap(),
        !ok ==> final(root)@ == old(root)@,
        distinct_names(old(root)@) && distinct_names(new@) ==> distinct_names(final(root)@),
{
    proof {
        if distinct_names(root@) && distinct_names(new@) {
            lemma_set_distinct(root@, path@, new@);
        }
    }
    let mut taken = NbtValue::Byte(0);
    std::mem::swap(root, &mut taken);
    assert(path@.skip(0) =~= path@);
    let (result, ok) = set_owned(taken, path, 0, new);
    *root = result;
    ok
}

// ---------------------------------------------------------------------------
// Replacing a scalar from text
// ---------------------------------------------------------------------------

/// The integers that a comma-separated list holds, each piece trimmed and
/// parsed as a value in `lo..=hi`; an all-blank input is the empty list.
pub open spec fn number_list(s: Seq<char>, lo: int, hi: int) -> Option<Seq<int>> {
    if trim(s).len() == 0 {
        Some(Seq::empty())
    } else {
        let pieces = split_on(s, ',');
        if forall|i: int| 0 <= i < pieces.len() ==> #[trigger] parse_int_in(trim(pieces[i]), lo, hi) is Some {
            Some(Seq::new(pieces.len(), |i: int| parse_int_in(trim(pieces[i]), lo, hi).unwrap()))
        } else {
            None
        }
    }
}

/// The first piece of a list that does not parse (the error it reports).
pub open spec fn first_bad_piece(s: Seq<char>, lo: int, hi: int) -> Seq<char> {
    let pieces = split_on(s, ',');
    let i = choose|i: int|
        0 <= i < pieces.len() && parse_int_in(trim(pieces[i]), lo, hi) is None && forall|j: int|
            0 <= j < i ==> #[trigger] parse_int_in(trim(pieces[j]), lo, hi) is Some;
    trim(pieces[i])
}

/// Parses a comma-separated list of integers in `lo..=hi`.
pub fn parse_number_list(input: &str, lo: i64, hi: i64) -> (r: Result<Vec<i64>, HydroxylError>)
    requires
        lo <= 0 <= hi,
    ensures
        r matches Ok(v) ==> number_list(input@, lo as int, hi as int) matches Some(w) && v@.len()
            == w.len() && forall|i: int| 0 <= i < w.len() ==> #[trigger] v@[i] as int == w[i],
        r matches Err(e) ==> number_list(input@, lo as int, hi as int) is None && e@
            == ErrorModel::InvalidNumber(first_bad_piece(input@, lo as int, hi as int)),
{
    let chars = chars_of(input);
    let trimmed = trim_chars(&chars);
    if trimmed.len() == 0 {
        return Ok(Vec::new());
    }
    let pieces = split_chars(&chars, ',');
    let ghost sp = split_on(input@, ',');
    let mut out: Vec<i64> = Vec::new();
    let mut i: usize = 0;
    while i < pieces.len()
        invariant
            i <= pieces@.len() == sp.len(),
            sp == split_on(input@, ','),
            trim(input@).len() != 0,
            forall|k: int| 0 <= k < pieces@.len() ==> #[trigger] pieces@[k]@ == sp[k],
            lo <= 0 <= hi,
            out@.len() == i,
            forall|k: int| 0 <= k < i ==> #[trigger] parse_int_in(trim(sp[k]), lo as int, hi as int)
                == Some(out@[k] as int),
        decreases pieces.len() - i,
    {
        let piece = trim_chars(&pieces[i]);
        match parse_int_range(&piece, lo, hi) {
            Some(v) => {
                out.push(v);
            },
            None => {
                proof {
                    let bad = i as int;
                    assert(0 <= bad < sp.len() && parse_int_in(trim(sp[bad]), lo as int, hi as int)
                        is None && forall|j: int|
                        0 <= j < bad ==> #[trigger] parse_int_in(trim(sp[j]), lo as int, hi as int)
                            is Some);
                    let w = choose|w: int|
                        0 <= w < sp.len() && parse_int_in(trim(sp[w]), lo as int, hi as int)
                            is None && forall|j: int|
                            0 <= j < w ==> #[trigger] parse_int_in(trim(sp[j]), lo as int, hi as int)
                                is Some;
                    if w < bad {
                        assert(parse_int_in(trim(sp[w]), lo as int, hi as int) is Some);
                    } else if w > bad {
                        assert(parse_int_in(trim(sp[bad]), lo as int, hi as int) is Some);
                    }
                }
                proof {
                    assert(!(forall|k: int| 0 <= k < sp.len() ==> #[trigger] parse_int_in(
                        trim(sp[k]),
                        lo as int,
                        hi as int,
                    ) is Some));
                    assert(piece@ == trim(sp[i as int]));
                }
                return Err(HydroxylError::invalid_number_chars(&piece));
            },
        }
        i = i + 1;
    }
    Ok(out)
}

/// The value that inline editing turns `input` into, given a value of the
/// same tag: integers parse from `input` in their type's range, strings take
/// it as it is, arrays parse a comma-separated list, and floating-point
/// values take the number that parsing `input` as `f32` / `f64` gives
/// (`float_bits` / `double_bits`, `None` when it does not parse).
pub open spec fn scalar_from_text(
    current: NbtTree,
    input: Seq<char>,
    float_bits: Option<u32>,
    double_bits: Option<u64>,
) -> Result<NbtTree, ErrorModel> {
    let bad = ErrorModel::InvalidNumber(input);
    match current {
        NbtTree::Byte(_) => match parse_int_in(input, i8::MIN as int, i8::MAX as int) {
            Some(v) => Ok(NbtTree::Byte(v as i8)),
            None => Err(bad),
        },
        NbtTree::Short(_) => match parse_int_in(input, i16::MIN as int, i16::MAX as int) {
            Some(v) => Ok(NbtTree::Short(v as i16)),
            None => Err(bad),
        },
        NbtTree::Int(_) => match parse_int_in(input, i32::MIN as int, i32::MAX as int) {
            Some(v) => Ok(NbtTree::Int(v as i32)),
            None => Err(bad),
        },
        NbtTree::Long(_) => match parse_int_in(input, i64::MIN as int, i64::MAX as int) {
            Some(v) => Ok(NbtTree::Long(v as i64)),
            None => Err(bad),
        },
        NbtTree::Float(_) => match float_bits {
            Some(b) => Ok(NbtTree::Float(b)),
            None => Err(bad),
        },
        NbtTree::Double(_) => match double_bits {
            Some(b) => Ok(NbtTree::Double(b)),
            None => Err(bad),
        },
        NbtTree::String(_) => Ok(NbtTree::String(input)),
        NbtTree::ByteArray(_) => match number_list(input, i8::MIN as int, i8::MAX as int) {
            Some(w) => Ok(NbtTree::ByteArray(Seq::new(w.len(), |i: int| w[i] as i8))),
            None => Err(
                ErrorModel::InvalidNumber(first_bad_piece(input, i8::MIN as int, i8::MAX as int)),
            ),
        },
        NbtTree::IntArray(_) => match number_list(input, i32::MIN as int, i32::MAX as int) {
            Some(w) => Ok(NbtTree::IntArray(Seq::new(w.len(), |i: int| w[i] as i32))),
            None => Err(
                ErrorModel::InvalidNumber(first_bad_piece(input, i32::MIN as int, i32::MAX as int)),
            ),
        },
        NbtTree::LongArray(_) => match number_list(input, i64::MIN as int, i64::MAX as int) {
            Some(w) => Ok(NbtTree::LongArray(Seq::new(w.len(), |i: int| w[i] as i64))),
            None => Err(
                ErrorModel::InvalidNumber(first_bad_piece(input, i64::MIN as int, i64::MAX as int)),
            ),
        },
        NbtTree::List(_) | NbtTree::Compound(_) => Err(
            ErrorModel::InvalidData(
                "editing compound and list values is not supported in inline mode"@,
            ),
        ),
    }
}

fn byte_array_from(input: &str) -> (r: Result<NbtValue, HydroxylError>)
    ensures
        r matches Ok(v) ==> number_list(input@, -128, 127) matches Some(w) && v@
            == NbtTree::ByteArray(Seq::new(w.len(), |i: int| w[i] as i8)),
        r matches Err(e) ==> number_list(input@, -128, 127) is None && e@
            == ErrorModel::InvalidNumber(first_bad_piece(input@, -128, 127)),
{
    let w = parse_number_list(input, -128, 127)?;
    let ghost ws = number_list(input@, -128, 127).unwrap();
    proof {
        assert forall|k: int| 0 <= k < w@.len() implies -128 <= #[trigger] w@[k] <= 127 by {
            assert(parse_int_in(trim(split_on(input@, ',')[k]), -128, 127) is Some) by {
                if trim(input@).len() != 0 {
                }
            }
        }
    }
    let mut a: Vec<i8> = Vec::new();
    let mut i: usize = 0;
    while i < w.len()
        invariant
            i <= w@.len() == ws.len(),
            a@.len() == i,
            forall|k: int| 0 <= k < w@.len() ==> #[trigger] w@[k] as int == ws[k],
            forall|k: int| 0 <= k < w@.len() ==> -128 <= #[trigger] w@[k] <= 127,
            forall|k: int| 0 <= k < i ==> #[trigger] a@[k] == w@[k] as i8,
        decreases w.len() - i,
    {
        a.push(w[i] as i8);
        i = i + 1;
    }
    assert(a@ =~= Seq::new(ws.len(), |i: int| ws[i] as i8));
    Ok(NbtValue::ByteArray(a))
}

fn int_array_from(input: &str) -> (r: Result<NbtValue, HydroxylError>)
    ensures
        r matches Ok(v) ==> number_list(input@, i32::MIN as int, i32::MAX as int) matches Some(w)
            && v@ == NbtTree::IntArray(Seq::new(w.len(), |i: int| w[i] as i32)),
        r matches Err(e) ==> number_list(input@, i32::MIN as int, i32::MAX as int) is None && e@
            == ErrorModel::InvalidNumber(first_bad_piece(input@, i32::MIN as int, i32::MAX as int)),
{
    let w = parse_number_list(input, -2147483648, 2147483647)?;
    let ghost ws = number_list(input@, i32::MIN as int, i32::MAX as int).unwrap();
    proof {
        assert forall|k: int| 0 <= k < w@.len() implies -2147483648 <= #[trigger] w@[k]
            <= 2147483647 by {
            assert(parse_int_in(trim(split_on(input@, ',')[k]), i32::MIN as int, i32::MAX as int)
                is Some) by {
                if trim(input@).len() != 0 {
                }
            }
        }
    }
    let mut a: Vec<i32> = Vec::new();
    let mut i: usize = 0;
    while i < w.len()
        invariant
            i <= w@.len() == ws.len(),
            a@.len() == i,
            forall|k: int| 0 <= k < w@.len() ==> #[trigger] w@[k] as int == ws[k],
            forall|k: int| 0 <= k < w@.len() ==> -2147483648 <= #[trigger] w@[k] <= 2147483647,
            forall|k: int| 0 <= k < i ==> #[trigger] a@[k] == w@[k] as i32,
        decreases w.len() - i,
    {
        a.push(w[i] as i32);
        i = i + 1;
    }
    assert(a@ =~= Seq::new(ws.len(), |i: int| ws[i] as i32));
    Ok(NbtValue::IntArray(a))
}

/// Parses `input` as a value of `current`'s tag.
#[verifier::rlimit(40)]
pub fn parse_scalar_like(
    current: &NbtValue,
    input: &str,
    float_bits: Option<u32>,
    double_bits: Option<u64>,
) -> (r: Result<NbtValue, HydroxylError>)
    ensures
        r matches Ok(v) ==> scalar_from_text(current@, input@, float_bits, double_bits) == Ok::<
            NbtTree,
            ErrorModel,
        >(v@),
        r matches Err(e) ==> scalar_from_text(current@, input@, float_bits, double_bits) == Err::<
            NbtTree,
            ErrorModel,
        >(e@),
{
    let chars = chars_of(input);
    match current {
        NbtValue::Byte(_) => match parse_int_range(&chars, -128, 127) {
            Some(v) => Ok(NbtValue::Byte(v as i8)),
            None => Err(HydroxylError::invalid_number(input)),
        },
        NbtValue::Short(_) => match parse_int_range(&chars, -32768, 32767) {
            Some(v) => Ok(NbtValue::Short(v as i16)),
            None => Err(HydroxylError::invalid_number(input)),
        },
        NbtValue::Int(_) => match parse_int_range(&chars, -2147483648, 2147483647) {
            Some(v) => Ok(NbtValue::Int(v as i32)),
            None => Err(HydroxylError::invalid_number(input)),
        },
        NbtValue::Long(_) => match parse_int_range(&chars, i64::MIN, i64::MAX) {
            Some(v) => Ok(NbtValue::Long(v)),
            None => Err(HydroxylError::invalid_number(input)),
        },
        NbtValue::Float(_) => match float_bits {
            Some(b) => Ok(NbtValue::Float(b)),
            None => Err(HydroxylError::invalid_number(input)),
        },
        NbtValue::Double(_) => match double_bits {
            Some(b) => Ok(NbtValue::Double(b)),
            None => Err(HydroxylError::invalid_number(input)),
        },
        NbtValue::String(_) => Ok(NbtValue::String(input.to_owned())),
        NbtValue::ByteArray(_) => byte_array_from(input),
        NbtValue::IntArray(_) => int_array_from(input),
        NbtValue::LongArray(_) => {
            let w = parse_number_list(input, i64::MIN, i64::MAX)?;
            proof {
                let ws = number_list(input@, i64::MIN as int, i64::MAX as int).unwrap();
                assert(w@ =~= Seq::new(ws.len(), |i: int| ws[i] as i64));
            }
            Ok(NbtValue::LongArray(w))
        },
        NbtValue::List(_) | NbtValue::Compound(_) => Err(
            HydroxylError::invalid_data(
                "editing compound and list values is not supported in inline mode",
            ),
        ),
    }
}

/// The outcome of editing the scalar at `path` from `input`.
pub open spec fn edit_outcome(
    root: NbtTree,
    path: Seq<Segment>,
    input: Seq<char>,
    float_bits: Option<u32>,
    double_bits: Option<u64>,
) -> Result<NbtTree, ErrorModel> {
    match tree_get(root, path) {
        None => Err(ErrorModel::InvalidData("missing NBT path"@)),
        Some(current) => match scalar_from_text(current, input, float_bits, double_bits) {
            Ok(v) => Ok(tree_set(root, path, v).unwrap()),
            Err(e) => Err(e),
        },
    }
}

/// Replaces the scalar at `path` with the value `input` denotes for its
/// tag. On an error the tree is unchanged.
pub fn set_scalar_from_string(
    root: &mut NbtValue,
    path: &NbtPath,
    input: &str,
    float_bits: Option<u32>,
    double_bits: Option<u64>,
) -> (r: Result<(), HydroxylError>)
    ensures
        r is Ok ==> edit_outcome(old(root)@, path@, input@, float_bits, double_bits) == Ok::<
            NbtTree,
            ErrorModel,
        >(final(root)@),
        r matches Err(e) ==> edit_outcome(old(root)@, path@, input@, float_bits, double_bits)
            == Err::<NbtTree, ErrorModel>(e@) && final(root)@ == old(root)@,
        distinct_names(old(root)@) ==> distinct_names(final(root)@),
{
    let replacement = match get(root, path) {
        None => {
            return Err(HydroxylError::invalid_data("missing NBT path"));
        },
        Some(current) => parse_scalar_like(current, input, float_bits, double_bits)?,
    };
    proof {
        lemma_get_set(root@, path@, replacement@);
    }
    let ok = set_at(root, path, replacement);
    Ok(())
}

/// Setting succeeds exactly where getting does, and the value set is then
/// the value found at the path.
pub proof fn lemma_get_set(t: NbtTree, p: Seq<Segment>, new: NbtTree)
    ensures
        tree_set(t, p, new) is Some <==> tree_get(t, p) is Some,
        tree_set(t, p, new) matches Some(u) ==> tree_get(u, p) == Some(new),
    decreases p.len(),
{
    if p.len() > 0 {
        match (t, p[0]) {
            (NbtTree::Compound(m), Segment::Key(k)) => {
                match key_index(m, k) {
                    Some(i) => {
                        lemma_get_set(m[i].1, p.drop_first(), new);
                        lemma_get_set_compound_step(m, k, i, p, new);
                    },
                    None => {},
                }
            },
            (NbtTree::List(l), Segment::Index(i)) => {
                if i < l.len() {
                    lemma_get_set(l[i as int], p.drop_first(), new);
                }
            },
            _ => {},
        }
    }
}

#[verifier::rlimit(30)]
proof fn lemma_get_set_compound_step(
    m: Seq<(Seq<char>, NbtTree)>,
    k: Seq<char>,
    i: int,
    p: Seq<Segment>,
    new: NbtTree,
)
    requires
        p.len() > 0,
        p[0] == Segment::Key(k),
        key_index(m, k) == Some(i),
        tree_set(m[i].1, p.drop_first(), new) matches Some(c) ==> tree_get(c, p.drop_first())
            == Some(new),
    ensures
        tree_set(m[i].1, p.drop_first(), new) matches Some(c) ==> tree_get(
            NbtTree::Compound(m.update(i, (m[i].0, c))),
            p,
        ) == Some(new),
{
    if let Some(c) = tree_set(m[i].1, p.drop_first(), new) {
        crate::domain::nbt::value::lemma_key_index(m, k);
        let m2 = m.update(i, (m[i].0, c));
        assert forall|j: int| 0 <= j < i implies m2[j].0 != k by {
            assert(m2[j] == m[j]);
        }
        crate::domain::nbt::value::lemma_key_index_unique(m2, k, i);
    }
}

/// An empty compound's entries.
pub fn compound() -> (r: Vec<(String, NbtValue)>)
    ensures
        r@.len() == 0,
{
    Vec::new()
}

/// A copy of a whole tree.
pub fn copy_tree(value: &NbtValue) -> (r: NbtValue)
    ensures
        r@ == value@,
    decreases value,
{
        match value {
            NbtValue::Byte(v) => NbtValue::Byte(*v),
            NbtValue::Short(v) => NbtValue::Short(*v),
            NbtValue::Int(v) => NbtValue::Int(*v),
            NbtValue::Long(v) => NbtValue::Long(*v),
            NbtValue::Float(v) => NbtValue::Float(*v),
            NbtValue::Double(v) => NbtValue::Double(*v),
            NbtValue::String(s) => NbtValue::String(s.clone()),
            NbtValue::ByteArray(a) => NbtValue::ByteArray(a.clone()),
            NbtValue::IntArray(a) => NbtValue::IntArray(a.clone()),
            NbtValue::LongArray(a) => NbtValue::LongArray(a.clone()),
            NbtValue::List(items) => {
                proof {
                    lemma_list_view(items);
                }
                let mut out: Vec<NbtValue> = Vec::new();
                let mut i: usize = 0;
                while i < items.len()
                    invariant
                        i <= items@.len(),
                        *value == NbtValue::List(*items),
                        value@ == NbtTree::List(items_view(items@)),
                        out@.len() == i,
                        forall|k: int| 0 <= k < i ==> #[trigger] out@[k]@ == items@[k]@,
                    decreases items.len() - i,
                {
                    proof {
                        assert(decreases_to!(*value => *items));
                        assert(decreases_to!(*items => items@));
                        assert(decreases_to!(items@ => items@[i as int]));
                    }
                    out.push(copy_tree(&items[i]));
                    i = i + 1;
                }
                proof {
                    lemma_list_view(&out);
                    assert(items_view(out@) =~= items_view(items@));
                }
                NbtValue::List(out)
            },
            NbtValue::Compound(entries) => {
                proof {
                    lemma_compound_view(entries);
                }
                let mut out: Vec<(String, NbtValue)> = Vec::new();
                let mut i: usize = 0;
                while i < entries.len()
                    invariant
                        i <= entries@.len(),
                        *value == NbtValue::Compound(*entries),
                        value@ == NbtTree::Compound(entries_view(entries@)),
                        out@.len() == i,
                        forall|k: int| 0 <= k < i ==> #[trigger] out@[k].0@ == entries@[k].0@
                            && out@[k].1@ == entries@[k].1@,
                    decreases entries.len() - i,
                {
                    proof {
                        assert(decreases_to!(*value => *entries));
                        assert(decreases_to!(*entries => entries@));
                        assert(decreases_to!(entries@ => entries@[i as int]));
                        assert(decreases_to!(entries@[i as int] => entries@[i as int].1));
                    }
                    let c = copy_tree(&entries[i].1);
                    out.push((entries[i].0.clone(), c));
                    i = i + 1;
                }
                proof {
                    lemma_compound_view(&out);
                    assert(entries_view(out@) =~= entries_view(entries@));
                }
                NbtValue::Compound(out)
            },
        }
    }


// ---------------------------------------------------------------------------
// Heights under replacement and insertion
// ---------------------------------------------------------------------------

proof fn lemma_entries_height_update(m: Seq<(Seq<char>, NbtTree)>, k: nat, i: int, c: NbtTree)
    requires
        0 <= i < m.len(),
        k <= m.len(),
        height(c) <= height(m[i].1),
    ensures
        entries_height(m.update(i, (m[i].0, c)), k) <= entries_height(m, k),
    decreases k,
{
    if k > 0 {
        lemma_entries_height_update(m, (k - 1) as nat, i, c);
    }
}

proof fn lemma_items_height_update(l: Seq<NbtTree>, k: nat, i: int, c: NbtTree)
    requires
        0 <= i < l.len(),
        k <= l.len(),
        height(c) <= height(l[i]),
    ensures
        items_height(l.update(i, c), k) <= items_height(l, k),
    decreases k,
{
    if k > 0 {
        lemma_items_height_update(l, (k - 1) as nat, i, c);
    }
}

proof fn lemma_entries_height_push(m: Seq<(Seq<char>, NbtTree)>, k: nat, e: (Seq<char>, NbtTree))
    requires
        k <= m.len(),
    ensures
        entries_height(m.push(e), k) == entries_height(m, k),
    decreases k,
{
    if k > 0 {
        lemma_entries_height_push(m, (k - 1) as nat, e);
    }
}

/// Replacing the value at a path by one that is no taller leaves the tree
/// no taller.
pub proof fn lemma_set_height(t: NbtTree, p: Seq<Segment>, new: NbtTree)
    requires
        tree_get(t, p) matches Some(old) && height(new) <= height(old),
    ensures
        tree_set(t, p, new) matches Some(u) ==> height(u) <= height(t),
    decreases p.len(),
{
    if p.len() > 0 {
        match (t, p[0]) {
            (NbtTree::Compound(m), Segment::Key(k)) => {
                match key_index(m, k) {
                    Some(i) => {
                        lemma_key_index(m, k);
                        lemma_set_height(m[i].1, p.drop_first(), new);
                        if let Some(c) = tree_set(m[i].1, p.drop_first(), new) {
                            lemma_entries_height_update(m, m.len(), i, c);
                        }
                    },
                    None => {},
                }
            },
            (NbtTree::List(l), Segment::Index(i)) => {
                if i < l.len() {
                    lemma_set_height(l[i as int], p.drop_first(), new);
                    if let Some(c) = tree_set(l[i as int], p.drop_first(), new) {
                        lemma_items_height_update(l, l.len(), i as int, c);
                    }
                }
            },
            _ => {},
        }
    }
}

/// `HashMap::insert` on a compound's entries: the entry for `k` gets the
/// value `v`, or a new entry is added at the end.
pub open spec fn compound_insert(m: Seq<(Seq<char>, NbtTree)>, k: Seq<char>, v: NbtTree) -> Seq<(Seq<char>, NbtTree)> {
    match key_index(m, k) {
        Some(i) => m.update(i, (k, v)),
        None => m.push((k, v)),
    }
}

/// Inserting a leaf into a compound leaves the compound no taller.
pub proof fn lemma_insert_leaf_height(m: Seq<(Seq<char>, NbtTree)>, k: Seq<char>, v: NbtTree)
    requires
        height(v) == 0,
    ensures
        height(NbtTree::Compound(compound_insert(m, k, v))) <= height(NbtTree::Compound(m)),
{
    lemma_key_index(m, k);
    match key_index(m, k) {
        Some(i) => {
            assert(m[i].0 == k);
            assert(m.update(i, (k, v)) == m.update(i, (m[i].0, v)));
            lemma_entries_height_update(m, m.len(), i, v);
        },
        None => {
            lemma_entries_height_push(m, m.len(), (k, v));
        },
    }
}

/// Inserts `value` under `key` into a compound's entries (replacing the
/// value of an existing entry of that name).
pub fn insert_entry(entries: &mut Vec<(String, NbtValue)>, key: &str, value: NbtValue)
    ensures
        entries_view(final(entries)@) == compound_insert(entries_view(old(entries)@), key@, value@),
        distinct_names(NbtTree::Compound(entries_view(old(entries)@))) && distinct_names(value@)
            ==> distinct_names(NbtTree::Compound(entries_view(final(entries)@))),
{
    proof {
        if distinct_names(NbtTree::Compound(entries_view(entries@))) && distinct_names(value@) {
            lemma_insert_distinct(entries_view(entries@), key@, value@);
        }
    }
    let ghost before = entries_view(entries@);
    proof {
        assert(before =~= Seq::new(entries@.len(), |k: int| (entries@[k].0@, entries@[k].1@)));
    }
    let ghost vv = value@;
    match find_key(entries, key) {
        Some(i) => {
            entries.set(i, (key.to_owned(), value));
            assert(entries_view(entries@) =~= before.update(i as int, (key@, vv)));
        },
        None => {
            entries.push((key.to_owned(), value));
            assert(entries_view(entries@) =~= before.push((key@, vv)));
        },
    }
}

/// Editing a scalar from text never makes the tree taller.
pub proof fn lemma_edit_outcome_height(
    root: NbtTree,
    path: Seq<Segment>,
    input: Seq<char>,
    float_bits: Option<u32>,
    double_bits: Option<u64>,
)
    ensures
        edit_outcome(root, path, input, float_bits, double_bits) matches Ok(u) ==> height(u) <= height(root),
{
    if let Some(current) = tree_get(root, path) {
        if let Ok(v) = scalar_from_text(current, input, float_bits, double_bits) {
            assert(height(v) == 0);
            lemma_get_set(root, path, v);
            lemma_set_height(root, path, v);
        }
    }
}

/// Entering the text that an integer or a string is previewed as gives the
/// same value back.
pub proof fn lemma_preview_roundtrip(t: NbtTree, float_bits: Option<u32>, double_bits: Option<u64>)
    requires
        t is Byte || t is Short || t is Int || t is Long || t is String,
    ensures
        preview_of(t) matches PreviewModel::Text(s) && scalar_from_text(t, s, float_bits, double_bits)
            == Ok::<NbtTree, ErrorModel>(t),
{
    match t {
        NbtTree::Byte(v) => lemma_parse_int_dec(v as int),
        NbtTree::Short(v) => lemma_parse_int_dec(v as int),
        NbtTree::Int(v) => lemma_parse_int_dec(v as int),
        NbtTree::Long(v) => lemma_parse_int_dec(v as int),
        _ => {},
    }
}

/// Entering text never changes a value's tag: whatever the text parses to
/// is a value of the tag that the edited value had.
pub proof fn lemma_scalar_keeps_tag(
    current: NbtTree,
    input: Seq<char>,
    float_bits: Option<u32>,
    double_bits: Option<u64>,
)
    ensures
        scalar_from_text(current, input, float_bits, double_bits) matches Ok(v) ==> tag_name(v)
            == tag_name(current),
{
}

/// An integer value takes exactly the texts that denote a number in its
/// type's range, and then holds that number; any other text is refused as
/// an invalid number, quoting the text.
pub proof fn lemma_integers_take_their_range(
    current: NbtTree,
    input: Seq<char>,
    float_bits: Option<u32>,
    double_bits: Option<u64>,
)
    requires
        current is Byte || current is Short || current is Int || current is Long,
    ensures
        current is Byte ==> (scalar_from_text(current, input, float_bits, double_bits) is Ok <==> (
        parse_int(input) matches Some(n) && -128 <= n <= 127)),
        current is Short ==> (scalar_from_text(current, input, float_bits, double_bits) is Ok <==> (
        parse_int(input) matches Some(n) && -32768 <= n <= 32767)),
        current is Int ==> (scalar_from_text(current, input, float_bits, double_bits) is Ok <==> (
        parse_int(input) matches Some(n) && -2147483648 <= n <= 2147483647)),
        current is Long ==> (scalar_from_text(current, input, float_bits, double_bits) is Ok <==> (
        parse_int(input) matches Some(n) && -9223372036854775808 <= n <= 9223372036854775807)),
        scalar_from_text(current, input, float_bits, double_bits) matches Ok(v) ==> as_int(v)
            == parse_int(input),
        scalar_from_text(current, input, float_bits, double_bits) matches Err(e) ==> e
            == ErrorModel::InvalidNumber(input),
{
}

/// Each number of a list that parses in `lo..=hi` lies in that range.
proof fn lemma_number_list_in_range(input: Seq<char>, lo: int, hi: int)
    ensures
        number_list(input, lo, hi) matches Some(w) ==> forall|i: int|
            0 <= i < w.len() ==> lo <= #[trigger] w[i] <= hi,
{
    if number_list(input, lo, hi) is Some && trim(input).len() != 0 {
        let pieces = split_on(input, ',');
        let w = number_list(input, lo, hi).unwrap();
        assert forall|i: int| 0 <= i < w.len() implies lo <= #[trigger] w[i] <= hi by {
            assert(parse_int_in(trim(pieces[i]), lo, hi) is Some);
        }
    }
}

/// An array takes every comma-separated list of numbers that fit its
/// element type (`i8` for a byte array, `i32` for an int array, `i64` for a
/// long array): the edited array holds exactly those numbers, in order, and
/// keeps its tag. A list with a number that does not fit is refused.
pub proof fn lemma_arrays_take_number_lists(
    input: Seq<char>,
    bytes: Seq<i8>,
    ints: Seq<i32>,
    longs: Seq<i64>,
    float_bits: Option<u32>,
    double_bits: Option<u64>,
)
    ensures
        number_list(input, i8::MIN as int, i8::MAX as int) matches Some(w) ==> scalar_from_text(
            NbtTree::ByteArray(bytes),
            input,
            float_bits,
            double_bits,
        ) matches Ok(NbtTree::ByteArray(a)) && a.len() == w.len() && forall|i: int|
            0 <= i < w.len() ==> #[trigger] a[i] as int == w[i],
        number_list(input, i32::MIN as int, i32::MAX as int) matches Some(w) ==> scalar_from_text(
            NbtTree::IntArray(ints),
            input,
            float_bits,
            double_bits,
        ) matches Ok(NbtTree::IntArray(a)) && a.len() == w.len() && forall|i: int|
            0 <= i < w.len() ==> #[trigger] a[i] as int == w[i],
        number_list(input, i64::MIN as int, i64::MAX as int) matches Some(w) ==> scalar_from_text(
            NbtTree::LongArray(longs),
            input,
            float_bits,
            double_bits,
        ) matches Ok(NbtTree::LongArray(a)) && a.len() == w.len() && forall|i: int|
            0 <= i < w.len() ==> #[trigger] a[i] as int == w[i],
        number_list(input, i8::MIN as int, i8::MAX as int) is None ==> scalar_from_text(
            NbtTree::ByteArray(bytes),
            input,
            float_bits,
            double_bits,
        ) is Err,
        number_list(input, i32::MIN as int, i32::MAX as int) is None ==> scalar_from_text(
            NbtTree::IntArray(ints),
            input,
            float_bits,
            double_bits,
        ) is Err,
        number_list(input, i64::MIN as int, i64::MAX as int) is None ==> scalar_from_text(
            NbtTree::LongArray(longs),
            input,
            float_bits,
            double_bits,
        ) is Err,
{
    lemma_number_list_in_range(input, i8::MIN as int, i8::MAX as int);
    lemma_number_list_in_range(input, i32::MIN as int, i32::MAX as int);
    lemma_number_list_in_range(input, i64::MIN as int, i64::MAX as int);
}

// ---------------------------------------------------------------------------
// Every row names the value it describes
// ---------------------------------------------------------------------------

/// Whether no compound in the tree holds two entries of the same name (as
/// in every tree read from a file).
pub open spec fn distinct_names(t: NbtTree) -> bool
    decreases t, 1nat, 0nat,
{
    match t {
        NbtTree::Compound(m) => (forall|i: int, j: int|
            0 <= i < j < m.len() ==> (#[trigger] m[i]).0 != (#[trigger] m[j]).0) && entries_distinct(
            m,
            m.len(),
        ),
        NbtTree::List(l) => items_distinct(l, l.len()),
        _ => true,
    }
}

pub open spec fn entries_distinct(m: Seq<(Seq<char>, NbtTree)>, k: nat) -> bool
    decreases m, 0nat, k,
{
    if k == 0 || k > m.len() {
        true
    } else {
        entries_distinct(m, (k - 1) as nat) && distinct_names(m[k - 1].1)
    }
}

pub open spec fn items_distinct(l: Seq<NbtTree>, k: nat) -> bool
    decreases l, 0nat, k,
{
    if k == 0 || k > l.len() {
        true
    } else {
        items_distinct(l, (k - 1) as nat) && distinct_names(l[k - 1])
    }
}

proof fn lemma_entries_distinct(m: Seq<(Seq<char>, NbtTree)>, k: nat, i: int)
    requires
        entries_distinct(m, k),
        0 <= i < k <= m.len(),
    ensures
        distinct_names(m[i].1),
    decreases k,
{
    if i < k - 1 {
        lemma_entries_distinct(m, (k - 1) as nat, i);
    }
}

proof fn lemma_items_distinct(l: Seq<NbtTree>, k: nat, i: int)
    requires
        items_distinct(l, k),
        0 <= i < k <= l.len(),
    ensures
        distinct_names(l[i]),
    decreases k,
{
    if i < k - 1 {
        lemma_items_distinct(l, (k - 1) as nat, i);
    }
}

/// Whether row `e`, listed below the path `base` of the value `root`,
/// describes the value its path leads to from `root`: its tag name,
/// preview and editability are those of that value.
pub open spec fn row_describes(root: NbtTree, e: EntryModel, base: Seq<Segment>) -> bool {
    &&& base.len() <= e.path.len()
    &&& e.path.take(base.len() as int) == base
    &&& match tree_get(root, e.path.skip(base.len() as int)) {
        Some(v) => e.type_label == tag_name(v) && e.preview == preview_of(v) && e.editable == is_leaf(v),
        None => false,
    }
}

proof fn lemma_row_lift(t: NbtTree, c: NbtTree, seg: Segment, e: EntryModel, base: Seq<Segment>)
    requires
        step(t, seg) == Some(c),
        row_describes(c, e, base.push(seg)),
    ensures
        row_describes(t, e, base),
{
    let n = base.len() as int;
    assert(e.path.take(n + 1) == base.push(seg));
    assert(e.path.take(n) =~= e.path.take(n + 1).take(n));
    assert(base.push(seg).take(n) =~= base);
    assert(e.path.take(n) == base);
    assert(e.path.take(n + 1)[n] == seg);
    let rest = e.path.skip(n);
    assert(rest.len() > 0);
    assert(rest[0] == seg);
    assert(rest.drop_first() =~= e.path.skip(n + 1));
    assert(tree_get(t, rest) == tree_get(c, rest.drop_first()));
    assert(tree_get(t, rest) == tree_get(c, e.path.skip(n + 1)));
}

proof fn lemma_rows_concat(root: NbtTree, a: Seq<EntryModel>, b: Seq<EntryModel>, base: Seq<Segment>)
    requires
        forall|i: int| 0 <= i < a.len() ==> row_describes(root, #[trigger] a[i], base),
        forall|i: int| 0 <= i < b.len() ==> row_describes(root, #[trigger] b[i], base),
    ensures
        forall|i: int| 0 <= i < (a + b).len() ==> row_describes(root, #[trigger] (a + b)[i], base),
{
    assert forall|i: int| 0 <= i < (a + b).len() implies row_describes(root, #[trigger] (a + b)[i], base) by {
        if i < a.len() {
            assert((a + b)[i] == a[i]);
        } else {
            assert((a + b)[i] == b[i - a.len()]);
        }
    }
}

/// Every row of a flattened tree describes the value that its path leads
/// to (when no compound repeats a name).
pub proof fn lemma_flat_rows(t: NbtTree, path: Seq<Segment>, depth: nat, label: Seq<char>)
    requires
        distinct_names(t),
    ensures
        forall|i: int| 0 <= i < flat(t, path, depth, label).len() ==> row_describes(
            t,
            #[trigger] flat(t, path, depth, label)[i],
            path,
        ),
    decreases t, 1nat, 0nat,
{
    let head = seq![entry_of(t, path, depth, label)];
    assert(path.take(path.len() as int) =~= path);
    assert(path.skip(path.len() as int) =~= Seq::<Segment>::empty());
    assert(row_describes(t, head[0], path));
    let tail = match t {
        NbtTree::Compound(m) => flat_entries(m, compound_order(m), compound_order(m).len(), path, depth + 1),
        NbtTree::List(l) => flat_items(l, l.len(), path, depth + 1),
        _ => Seq::empty(),
    };
    match t {
        NbtTree::Compound(m) => {
            crate::order::lemma_sorted_order(compound_keys(m), m.len());
            lemma_flat_entries_rows(m, compound_order(m), compound_order(m).len(), path, depth + 1);
        },
        NbtTree::List(l) => {
            lemma_flat_items_rows(l, l.len(), path, depth + 1);
        },
        _ => {},
    }
    lemma_rows_concat(t, head, tail, path);
}

proof fn lemma_flat_entries_rows(
    m: Seq<(Seq<char>, NbtTree)>,
    order: Seq<int>,
    k: nat,
    path: Seq<Segment>,
    depth: nat,
)
    requires
        distinct_names(NbtTree::Compound(m)),
    ensures
        forall|i: int| 0 <= i < flat_entries(m, order, k, path, depth).len() ==> row_describes(
            NbtTree::Compound(m),
            #[trigger] flat_entries(m, order, k, path, depth)[i],
            path,
        ),
    decreases m, 0nat, k,
{
    if k == 0 || k > order.len() {
    } else {
        let idx = order[k - 1];
        let rest = flat_entries(m, order, (k - 1) as nat, path, depth);
        lemma_flat_entries_rows(m, order, (k - 1) as nat, path, depth);
        if 0 <= idx < m.len() {
            let seg = Segment::Key(m[idx].0);
            let c = m[idx].1;
            lemma_entries_distinct(m, m.len(), idx);
            lemma_key_index_unique(m, m[idx].0, idx);
            assert(step(NbtTree::Compound(m), seg) == Some(c));
            let child = flat(c, path.push(seg), depth, m[idx].0);
            lemma_flat_rows(c, path.push(seg), depth, m[idx].0);
            assert forall|i: int| 0 <= i < child.len() implies row_describes(
                NbtTree::Compound(m),
                #[trigger] child[i],
                path,
            ) by {
                lemma_row_lift(NbtTree::Compound(m), c, seg, child[i], path);
            }
            lemma_rows_concat(NbtTree::Compound(m), rest, child, path);
        }
    }
}

proof fn lemma_flat_items_rows(l: Seq<NbtTree>, k: nat, path: Seq<Segment>, depth: nat)
    requires
        distinct_names(NbtTree::List(l)),
    ensures
        forall|i: int| 0 <= i < flat_items(l, k, path, depth).len() ==> row_describes(
            NbtTree::List(l),
            #[trigger] flat_items(l, k, path, depth)[i],
            path,
        ),
    decreases l, 0nat, k,
{
    if k == 0 || k > l.len() {
    } else {
        let rest = flat_items(l, (k - 1) as nat, path, depth);
        lemma_flat_items_rows(l, (k - 1) as nat, path, depth);
        let seg = Segment::Index((k - 1) as nat);
        let c = l[k - 1];
        lemma_items_distinct(l, l.len(), k - 1);
        assert(step(NbtTree::List(l), seg) == Some(c));
        let child = flat(c, path.push(seg), depth, nat_dec((k - 1) as nat));
        lemma_flat_rows(c, path.push(seg), depth, nat_dec((k - 1) as nat));
        assert forall|i: int| 0 <= i < child.len() implies row_describes(
            NbtTree::List(l),
            #[trigger] child[i],
            path,
        ) by {
            lemma_row_lift(NbtTree::List(l), c, seg, child[i], path);
        }
        lemma_rows_concat(NbtTree::List(l), rest, child, path);
    }
}

/// Every row of a whole flattened tree names, by its path from the root,
/// the value it describes (when no compound repeats a name).
pub proof fn lemma_flatten_rows(root: NbtTree)
    requires
        distinct_names(root),
    ensures
        forall|i: int| 0 <= i < flat(root, Seq::empty(), 0, "root"@).len() ==> (tree_get(
            root,
            (#[trigger] flat(root, Seq::empty(), 0, "root"@)[i]).path,
        ) matches Some(v) && flat(root, Seq::empty(), 0, "root"@)[i].type_label == tag_name(v)
            && flat(root, Seq::empty(), 0, "root"@)[i].preview == preview_of(v)
            && flat(root, Seq::empty(), 0, "root"@)[i].editable == is_leaf(v)),
{
    lemma_flat_rows(root, Seq::empty(), 0, "root"@);
    assert forall|i: int| 0 <= i < flat(root, Seq::empty(), 0, "root"@).len() implies (tree_get(
        root,
        (#[trigger] flat(root, Seq::empty(), 0, "root"@)[i]).path,
    ) matches Some(v) && flat(root, Seq::empty(), 0, "root"@)[i].type_label == tag_name(v)
        && flat(root, Seq::empty(), 0, "root"@)[i].preview == preview_of(v)
        && flat(root, Seq::empty(), 0, "root"@)[i].editable == is_leaf(v)) by {
        let e = flat(root, Seq::empty(), 0, "root"@)[i];
        assert(row_describes(root, e, Seq::empty()));
        assert(e.path.skip(0) =~= e.path);
    }
}

// ---------------------------------------------------------------------------
// Edits keep names distinct
// ---------------------------------------------------------------------------

proof fn lemma_entries_distinct_update(m: Seq<(Seq<char>, NbtTree)>, k: nat, i: int, c: NbtTree)
    requires
        0 <= i < m.len(),
        k <= m.len(),
        entries_distinct(m, k),
        distinct_names(c),
    ensures
        entries_distinct(m.update(i, (m[i].0, c)), k),
    decreases k,
{
    if k > 0 {
        lemma_entries_distinct_update(m, (k - 1) as nat, i, c);
    }
}

proof fn lemma_items_distinct_update(l: Seq<NbtTree>, k: nat, i: int, c: NbtTree)
    requires
        0 <= i < l.len(),
        k <= l.len(),
        items_distinct(l, k),
        distinct_names(c),
    ensures
        items_distinct(l.update(i, c), k),
    decreases k,
{
    if k > 0 {
        lemma_items_distinct_update(l, (k - 1) as nat, i, c);
    }
}

proof fn lemma_entries_distinct_push(m: Seq<(Seq<char>, NbtTree)>, k: nat, e: (Seq<char>, NbtTree))
    requires
        k <= m.len(),
    ensures
        entries_distinct(m.push(e), k) == entries_distinct(m, k),
    decreases k,
{
    if k > 0 {
        lemma_entries_distinct_push(m, (k - 1) as nat, e);
    }
}

proof fn lemma_compound_update_distinct(m: Seq<(Seq<char>, NbtTree)>, i: int, c: NbtTree)
    requires
        0 <= i < m.len(),
        distinct_names(NbtTree::Compound(m)),
        distinct_names(c),
    ensures
        distinct_names(NbtTree::Compound(m.update(i, (m[i].0, c)))),
{
    let m2 = m.update(i, (m[i].0, c));
    assert forall|a: int, b: int| 0 <= a < b < m2.len() implies (#[trigger] m2[a]).0 != (#[trigger] m2[b]).0 by {
        assert(m2[a].0 == m[a].0);
        assert(m2[b].0 == m[b].0);
        assert(m[a].0 != m[b].0);
    }
    lemma_entries_distinct_update(m, m.len(), i, c);
}

/// Replacing a value by one whose compounds repeat no name keeps a tree's
/// compounds free of repeated names.
pub proof fn lemma_set_distinct(t: NbtTree, p: Seq<Segment>, new: NbtTree)
    requires
        distinct_names(t),
        distinct_names(new),
    ensures
        tree_set(t, p, new) matches Some(u) ==> distinct_names(u),
    decreases p.len(),
{
    if p.len() > 0 {
        match (t, p[0]) {
            (NbtTree::Compound(m), Segment::Key(k)) => {
                if let Some(i) = key_index(m, k) {
                    crate::domain::nbt::value::lemma_key_index(m, k);
                    lemma_entries_distinct(m, m.len(), i);
                    lemma_set_distinct(m[i].1, p.drop_first(), new);
                    if let Some(c) = tree_set(m[i].1, p.drop_first(), new) {
                        lemma_compound_update_distinct(m, i, c);
                    }
                }
            },
            (NbtTree::List(l), Segment::Index(i)) => {
                if i < l.len() {
                    lemma_items_distinct(l, l.len(), i as int);
                    lemma_set_distinct(l[i as int], p.drop_first(), new);
                    if let Some(c) = tree_set(l[i as int], p.drop_first(), new) {
                        lemma_items_distinct_update(l, l.len(), i as int, c);
                    }
                }
            },
            _ => {},
        }
    }
}

/// The value at a path of a tree whose compounds repeat no name repeats
/// none either.
pub proof fn lemma_get_distinct(t: NbtTree, p: Seq<Segment>)
    requires
        distinct_names(t),
    ensures
        tree_get(t, p) matches Some(v) ==> distinct_names(v),
    decreases p.len(),
{
    if p.len() > 0 {
        match (t, p[0]) {
            (NbtTree::Compound(m), Segment::Key(k)) => {
                if let Some(i) = key_index(m, k) {
                    crate::domain::nbt::value::lemma_key_index(m, k);
                    lemma_entries_distinct(m, m.len(), i);
                    lemma_get_distinct(m[i].1, p.drop_first());
                }
            },
            (NbtTree::List(l), Segment::Index(i)) => {
                if i < l.len() {
                    lemma_items_distinct(l, l.len(), i as int);
                    lemma_get_distinct(l[i as int], p.drop_first());
                }
            },
            _ => {},
        }
    }
}

/// Inserting into a compound whose names are distinct keeps them distinct
/// (`HashMap::insert` replaces the entry of an existing name).
pub proof fn lemma_insert_distinct(m: Seq<(Seq<char>, NbtTree)>, k: Seq<char>, v: NbtTree)
    requires
        distinct_names(NbtTree::Compound(m)),
        distinct_names(v),
    ensures
        distinct_names(NbtTree::Compound(compound_insert(m, k, v))),
{
    crate::domain::nbt::value::lemma_key_index(m, k);
    match key_index(m, k) {
        Some(i) => {
            assert(m.update(i, (k, v)) == m.update(i, (m[i].0, v)));
            lemma_compound_update_distinct(m, i, v);
        },
        None => {
            let m2 = m.push((k, v));
            assert forall|a: int, b: int| 0 <= a < b < m2.len() implies (#[trigger] m2[a]).0 != (#[trigger] m2[b]).0 by {
                if b < m.len() {
                    assert(m2[a] == m[a] && m2[b] == m[b]);
                    assert(m[a].0 != m[b].0);
                } else {
                    assert(m2[a] == m[a]);
                    assert(m[a].0 != k);
                }
            }
            lemma_entries_distinct_push(m, m.len(), (k, v));
        },
    }
}

} // verus!
