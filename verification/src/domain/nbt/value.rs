//! The NBT value tree and the conversions that the rest of the crate reads.
//!
//! Floating-point payloads are carried as their IEEE-754 bit patterns: the
//! library decides on them exactly without ever doing floating-point
//! arithmetic.
use vstd::prelude::*;
use vstd::arithmetic::power2::*;

verus! {

/// One NBT value. A compound holds its entries as a list of (name, value)
/// pairs; its names are distinct in every tree that the codec produces
/// (`distinct_names`), and the editing functions keep them so.
#[derive(Debug, PartialEq)]
pub enum NbtValue {
    Byte(i8),
    Short(i16),
    Int(i32),
    Long(i64),
    /// An `f32`, as its bit pattern.
    Float(u32),
    /// An `f64`, as its bit pattern.
    Double(u64),
    String(String),
    ByteArray(Vec<i8>),
    IntArray(Vec<i32>),
    LongArray(Vec<i64>),
    List(Vec<NbtValue>),
    Compound(Vec<(String, NbtValue)>),
}

/// The mathematical model of an NBT value.
pub enum NbtTree {
    Byte(i8),
    Short(i16),
    Int(i32),
    Long(i64),
    Float(u32),
    Double(u64),
    String(Seq<char>),
    ByteArray(Seq<i8>),
    IntArray(Seq<i32>),
    LongArray(Seq<i64>),
    List(Seq<NbtTree>),
    Compound(Seq<(Seq<char>, NbtTree)>),
}

impl View for NbtValue {
    type V = NbtTree;

    open spec fn view(&self) -> NbtTree
        decreases self, 0nat,
    {
        match self {
            NbtValue::Byte(v) => NbtTree::Byte(*v),
            NbtValue::Short(v) => NbtTree::Short(*v),
            NbtValue::Int(v) => NbtTree::Int(*v),
            NbtValue::Long(v) => NbtTree::Long(*v),
            NbtValue::Float(v) => NbtTree::Float(*v),
            NbtValue::Double(v) => NbtTree::Double(*v),
            NbtValue::String(s) => NbtTree::String(s@),
            NbtValue::ByteArray(a) => NbtTree::ByteArray(a@),
            NbtValue::IntArray(a) => NbtTree::IntArray(a@),
            NbtValue::LongArray(a) => NbtTree::LongArray(a@),
            NbtValue::List(l) => NbtTree::List(items_view_upto(l@, l@.len())),
            NbtValue::Compound(m) => NbtTree::Compound(entries_view_upto(m@, m@.len())),
        }
    }
}

/// The models of the first `k` items of a list.
pub open spec fn items_view_upto(s: Seq<NbtValue>, k: nat) -> Seq<NbtTree>
    decreases s, k,
{
    if k == 0 || k > s.len() {
        Seq::empty()
    } else {
        items_view_upto(s, (k - 1) as nat).push(s[k - 1].view())
    }
}

/// The models of the first `k` entries of a compound.
pub open spec fn entries_view_upto(m: Seq<(String, NbtValue)>, k: nat) -> Seq<(Seq<char>, NbtTree)>
    decreases m, k,
{
    if k == 0 || k > m.len() {
        Seq::empty()
    } else {
        entries_view_upto(m, (k - 1) as nat).push((m[k - 1].0@, m[k - 1].1.view()))
    }
}

/// The model of a compound's entries.
pub open spec fn entries_view(m: Seq<(String, NbtValue)>) -> Seq<(Seq<char>, NbtTree)> {
    Seq::new(m.len(), |k: int| (m[k].0@, m[k].1@))
}

/// The model of a list's items.
pub open spec fn items_view(l: Seq<NbtValue>) -> Seq<NbtTree> {
    Seq::new(l.len(), |k: int| l[k]@)
}

pub proof fn lemma_items_view_upto(s: Seq<NbtValue>, k: nat)
    requires
        k <= s.len(),
    ensures
        items_view_upto(s, k) =~= items_view(s.take(k as int)),
    decreases k,
{
    if k > 0 {
        lemma_items_view_upto(s, (k - 1) as nat);
        assert(items_view(s.take(k as int)) =~= items_view(s.take(k - 1)).push(s[k - 1]@));
    }
}

pub proof fn lemma_entries_view_upto(m: Seq<(String, NbtValue)>, k: nat)
    requires
        k <= m.len(),
    ensures
        entries_view_upto(m, k) =~= entries_view(m.take(k as int)),
    decreases k,
{
    if k > 0 {
        lemma_entries_view_upto(m, (k - 1) as nat);
        assert(entries_view(m.take(k as int)) =~= entries_view(m.take(k - 1)).push(
            (m[k - 1].0@, m[k - 1].1@),
        ));
    }
}

pub proof fn lemma_compound_view(entries: &Vec<(String, NbtValue)>)
    ensures
        NbtValue::Compound(*entries)@ == NbtTree::Compound(entries_view(entries@)),
{
    lemma_entries_view_upto(entries@, entries@.len());
    assert(entries@.take(entries@.len() as int) =~= entries@);
}

pub proof fn lemma_list_view(items: &Vec<NbtValue>)
    ensures
        NbtValue::List(*items)@ == NbtTree::List(items_view(items@)),
{
    lemma_items_view_upto(items@, items@.len());
    assert(items@.take(items@.len() as int) =~= items@);
}

/// The name of a value's tag, as `value_type_name` returns it.
pub open spec fn tag_name(t: NbtTree) -> Seq<char> {
    match t {
        NbtTree::Byte(_) => "Byte"@,
        NbtTree::Short(_) => "Short"@,
        NbtTree::Int(_) => "Int"@,
        NbtTree::Long(_) => "Long"@,
        NbtTree::Float(_) => "Float"@,
        NbtTree::Double(_) => "Double"@,
        NbtTree::String(_) => "String"@,
        NbtTree::ByteArray(_) => "ByteArray"@,
        NbtTree::IntArray(_) => "IntArray"@,
        NbtTree::LongArray(_) => "LongArray"@,
        NbtTree::List(_) => "List"@,
        NbtTree::Compound(_) => "Compound"@,
    }
}

/// Whether a value is a leaf (neither a list nor a compound).
pub open spec fn is_leaf(t: NbtTree) -> bool {
    !(t is List || t is Compound)
}

/// The name of the value's tag.
pub fn value_type_name(value: &NbtValue) -> (r: &'static str)
    ensures
        r@ == tag_name(value@),
{
    match value {
        NbtValue::Byte(_) => "Byte",
        NbtValue::Short(_) => "Short",
        NbtValue::Int(_) => "Int",
        NbtValue::Long(_) => "Long",
        NbtValue::Float(_) => "Float",
        NbtValue::Double(_) => "Double",
        NbtValue::String(_) => "String",
        NbtValue::ByteArray(_) => "ByteArray",
        NbtValue::IntArray(_) => "IntArray",
        NbtValue::LongArray(_) => "LongArray",
        NbtValue::List(_) => "List",
        NbtValue::Compound(_) => "Compound",
    }
}

/// Whether the value can be edited inline (it is neither a list nor a
/// compound).
pub fn is_scalar(value: &NbtValue) -> (r: bool)
    ensures
        r == is_leaf(value@),
{
    !matches!(value, NbtValue::Compound(_) | NbtValue::List(_))
}

/// Whether the value is an editable scalar; the same test as `is_scalar`.
pub fn is_editable_scalar(value: &NbtValue) -> (r: bool)
    ensures
        r == is_leaf(value@),
{
    !matches!(value, NbtValue::Compound(_) | NbtValue::List(_))
}

// ---------------------------------------------------------------------------
// Numeric readings (`Value::as_i64`, `Value::as_f64`, `Value::as_str`)
// ---------------------------------------------------------------------------

/// `f32 as i64` on the value with bit pattern `bits`: truncation toward
/// zero, saturating at the bounds of `i64`, and 0 for NaN.
pub open spec fn f32_bits_as_i64(bits: u32) -> int {
    let exp = (bits as int / pow2(23) as int) % 256;
    let frac = bits as int % pow2(23) as int;
    let neg = bits as int >= pow2(31) as int;
    if exp == 255 {
        if frac != 0 {
            0
        } else if neg {
            i64::MIN as int
        } else {
            i64::MAX as int
        }
    } else if exp < 127 {
        0
    } else {
        let m = pow2(23) as int + frac;
        let mag = if exp >= 150 {
            m * pow2((exp - 150) as nat) as int
        } else {
            m / pow2((150 - exp) as nat) as int
        };
        saturate_i64(if neg { -mag } else { mag })
    }
}

/// `f64 as i64` on the value with bit pattern `bits`.
pub open spec fn f64_bits_as_i64(bits: u64) -> int {
    let exp = (bits as int / pow2(52) as int) % 2048;
    let frac = bits as int % pow2(52) as int;
    let neg = bits as int >= pow2(63) as int;
    if exp == 2047 {
        if frac != 0 {
            0
        } else if neg {
            i64::MIN as int
        } else {
            i64::MAX as int
        }
    } else if exp < 1023 {
        0
    } else {
        let m = pow2(52) as int + frac;
        let mag = if exp >= 1075 {
            m * pow2((exp - 1075) as nat) as int
        } else {
            m / pow2((1075 - exp) as nat) as int
        };
        saturate_i64(if neg { -mag } else { mag })
    }
}

pub open spec fn saturate_i64(v: int) -> int {
    if v < i64::MIN {
        i64::MIN as int
    } else if v > i64::MAX {
        i64::MAX as int
    } else {
        v
    }
}

/// What `Value::as_i64` returns: numbers converted with `as i64`, anything
/// else `None`.
pub open spec fn as_int(t: NbtTree) -> Option<int> {
    match t {
        NbtTree::Byte(v) => Some(v as int),
        NbtTree::Short(v) => Some(v as int),
        NbtTree::Int(v) => Some(v as int),
        NbtTree::Long(v) => Some(v as int),
        NbtTree::Float(b) => Some(f32_bits_as_i64(b)),
        NbtTree::Double(b) => Some(f64_bits_as_i64(b)),
        _ => None,
    }
}

fn pow2_exec(e: u64) -> (r: u64)
    requires
        e < 64,
    ensures
        r as int == pow2(e as nat) as int,
{
    let mut r: u64 = 1;
    let mut i: u64 = 0;
    proof {
        lemma2_to64();
    }
    while i < e
        invariant
            i <= e < 64,
            r as int == pow2(i as nat) as int,
        decreases e - i,
    {
        proof {
            lemma_pow2_unfold((i + 1) as nat);
            lemma_pow2_le((i + 1) as nat, 63);
            lemma2_to64();
            lemma_pow2_facts();
            assert(r * 2 == pow2((i + 1) as nat));
        }
        r = r * 2;
        i = i + 1;
    }
    r
}

/// The powers of two that the conversions use.
proof fn lemma_pow2_facts()
    ensures
        pow2(10) == 1024,
        pow2(11) == 2048,
        pow2(23) == 8388608,
        pow2(31) == 2147483648,
        pow2(39) == 549755813888,
        pow2(40) == 1099511627776,
        pow2(52) == 4503599627370496,
        pow2(63) == 9223372036854775808,
{
    lemma2_to64();
    lemma_pow2_adds(32, 7);
    lemma_pow2_adds(32, 8);
    lemma_pow2_adds(32, 20);
    lemma_pow2_adds(32, 31);
}

proof fn lemma_pow2_le(a: nat, b: nat)
    requires
        a <= b,
    ensures
        pow2(a) <= pow2(b),
{
    if a < b {
        lemma_pow2_strictly_increases(a, b);
    }
}

/// Magnitude bounds shared by both conversions: a significand `m` in
/// `[lo, hi)` scaled by `2^shift` is at least `lo * 2^shift` and below
/// `hi * 2^shift`.
proof fn lemma_scaled_bounds(m: int, lo: int, hi: int, p: int)
    requires
        lo <= m < hi,
        0 < p,
        0 <= lo,
    ensures
        lo * p <= m * p < hi * p,
        m / p <= m,
        0 <= m / p,
{
    assert(lo * p <= m * p < hi * p) by (nonlinear_arith)
        requires
            lo <= m < hi,
            0 < p,
    ;
    assert(m / p <= m) by (nonlinear_arith)
        requires
            0 <= m,
            0 < p,
    ;
    assert(0 <= m / p) by (nonlinear_arith)
        requires
            0 <= m,
            0 < p,
    ;
}

/// `f32 as i64` on a bit pattern.
pub fn f32_bits_to_i64(bits: u32) -> (r: i64)
    ensures
        r as int == f32_bits_as_i64(bits),
{
    proof {
        lemma2_to64();
        lemma_pow2_facts();
    }
    let exp: u32 = (bits / 8388608) % 256;
    let frac: u32 = bits % 8388608;
    let neg: bool = bits >= 2147483648u32;
    if exp == 255 {
        if frac != 0 {
            0
        } else if neg {
            i64::MIN
        } else {
            i64::MAX
        }
    } else if exp < 127 {
        0
    } else {
        let m: u64 = 8388608u64 + frac as u64;
        if exp >= 150 {
            let shift: u64 = (exp - 150) as u64;
            if shift >= 40 {
                proof {
                    lemma_pow2_le(40, shift as nat);
                    lemma_pow2_facts();
                    lemma_pow2_pos(shift as nat);
                    lemma_scaled_bounds(m as int, 8388608, 16777216, pow2(shift as nat) as int);
                    assert(8388608 * pow2(shift as nat) as int >= 8388608 * 1099511627776) by (nonlinear_arith)
                        requires
                            pow2(shift as nat) >= 1099511627776int,
                    ;
                }
                if neg {
                    i64::MIN
                } else {
                    i64::MAX
                }
            } else {
                let p = pow2_exec(shift);
                proof {
                    lemma_pow2_le(shift as nat, 39);
                    lemma_pow2_facts();
                    lemma_pow2_pos(shift as nat);
                    lemma_scaled_bounds(m as int, 8388608, 16777216, p as int);
                    assert(16777216 * (p as int) <= 16777216 * 549755813888) by (nonlinear_arith)
                        requires
                            p <= 549755813888int,
                    ;
                }
                let mag: u64 = m * p;
                if neg {
                    -(mag as i64)
                } else {
                    mag as i64
                }
            }
        } else {
            let p = pow2_exec((150 - exp) as u64);
            proof {
                lemma_pow2_pos((150 - exp) as nat);
                lemma_scaled_bounds(m as int, 8388608, 16777216, p as int);
            }
            let mag: u64 = m / p;
            if neg {
                -(mag as i64)
            } else {
                mag as i64
            }
        }
    }
}

/// `f64 as i64` on a bit pattern.
pub fn f64_bits_to_i64(bits: u64) -> (r: i64)
    ensures
        r as int == f64_bits_as_i64(bits),
{
    proof {
        lemma2_to64();
        lemma_pow2_facts();
    }
    let two52: u64 = 4503599627370496u64;
    let exp: u64 = (bits / two52) % 2048;
    let frac: u64 = bits % two52;
    let neg: bool = bits >= 9223372036854775808u64;
    if exp == 2047 {
        if frac != 0 {
            0
        } else if neg {
            i64::MIN
        } else {
            i64::MAX
        }
    } else if exp < 1023 {
        0
    } else {
        let m: u64 = two52 + frac;
        if exp >= 1075 {
            let shift: u64 = exp - 1075;
            if shift >= 11 {
                proof {
                    lemma_pow2_le(11, shift as nat);
                    lemma_pow2_facts();
                    lemma_pow2_pos(shift as nat);
                    lemma_scaled_bounds(m as int, 4503599627370496, 9007199254740992, pow2(shift as nat) as int);
                    assert(4503599627370496 * pow2(shift as nat) as int >= 4503599627370496 * 2048) by (nonlinear_arith)
                        requires
                            pow2(shift as nat) >= 2048int,
                    ;
                }
                if neg {
                    i64::MIN
                } else {
                    i64::MAX
                }
            } else {
                let p = pow2_exec(shift);
                proof {
                    lemma_pow2_le(shift as nat, 10);
                    lemma_pow2_facts();
                    lemma_pow2_pos(shift as nat);
                    lemma_scaled_bounds(m as int, 4503599627370496, 9007199254740992, p as int);
                    assert(9007199254740992 * (p as int) <= 9007199254740992 * 1024) by (nonlinear_arith)
                        requires
                            p <= 1024int,
                    ;
                }
                let mag: u64 = m * p;
                if neg {
                    -(mag as i64)
                } else {
                    mag as i64
                }
            }
        } else {
            let p = pow2_exec(1075 - exp);
            proof {
                lemma_pow2_pos((1075 - exp) as nat);
                lemma_scaled_bounds(m as int, 4503599627370496, 9007199254740992, p as int);
            }
            let mag: u64 = m / p;
            if neg {
                -(mag as i64)
            } else {
                mag as i64
            }
        }
    }
}

/// `Value::as_i64`.
pub fn as_i64(value: &NbtValue) -> (r: Option<i64>)
    ensures
        r matches Some(v) ==> as_int(value@) == Some(v as int),
        r is None ==> as_int(value@) is None,
{
    match value {
        NbtValue::Byte(v) => Some(*v as i64),
        NbtValue::Short(v) => Some(*v as i64),
        NbtValue::Int(v) => Some(*v as i64),
        NbtValue::Long(v) => Some(*v),
        NbtValue::Float(b) => Some(f32_bits_to_i64(*b)),
        NbtValue::Double(b) => Some(f64_bits_to_i64(*b)),
        _ => None,
    }
}

/// A number read from NBT where the original reads a floating-point value
/// (`Value::as_f64`): the stored number itself, from which the `f64` (and,
/// where a field is `f32`, the `f32`) is obtained by Rust's `as` conversions.
#[derive(Debug, Clone, Copy, PartialEq, Eq, Structural)]
pub enum Numeric {
    /// An integer tag, widened to `i64`.
    Integer(i64),
    /// An `f32` bit pattern.
    Float(u32),
    /// An `f64` bit pattern.
    Double(u64),
}

/// What `Value::as_f64` reads, before conversion.
pub open spec fn as_numeric_spec(t: NbtTree) -> Option<Numeric> {
    match t {
        NbtTree::Byte(v) => Some(Numeric::Integer(v as i64)),
        NbtTree::Short(v) => Some(Numeric::Integer(v as i64)),
        NbtTree::Int(v) => Some(Numeric::Integer(v as i64)),
        NbtTree::Long(v) => Some(Numeric::Integer(v)),
        NbtTree::Float(b) => Some(Numeric::Float(b)),
        NbtTree::Double(b) => Some(Numeric::Double(b)),
        _ => None,
    }
}

/// The number that `Value::as_f64` converts, if the value is numeric.
pub fn as_numeric(value: &NbtValue) -> (r: Option<Numeric>)
    ensures
        r == as_numeric_spec(value@),
{
    match value {
        NbtValue::Byte(v) => Some(Numeric::Integer(*v as i64)),
        NbtValue::Short(v) => Some(Numeric::Integer(*v as i64)),
        NbtValue::Int(v) => Some(Numeric::Integer(*v as i64)),
        NbtValue::Long(v) => Some(Numeric::Integer(*v)),
        NbtValue::Float(b) => Some(Numeric::Float(*b)),
        NbtValue::Double(b) => Some(Numeric::Double(*b)),
        _ => None,
    }
}

/// `Value::as_str`.
pub fn as_str(value: &NbtValue) -> (r: Option<&String>)
    ensures
        r matches Some(s) ==> value@ == NbtTree::String(s@),
        r is None ==> !(value@ is String),
{
    match value {
        NbtValue::String(s) => Some(s),
        _ => None,
    }
}

// ---------------------------------------------------------------------------
// Compound lookup
// ---------------------------------------------------------------------------

/// The position of the first entry named `key`.
pub open spec fn key_index(entries: Seq<(Seq<char>, NbtTree)>, key: Seq<char>) -> Option<int>
    decreases entries.len(),
{
    if entries.len() == 0 {
        None
    } else if entries[0].0 == key {
        Some(0)
    } else {
        match key_index(entries.drop_first(), key) {
            Some(i) => Some(i + 1),
            None => None,
        }
    }
}

/// The value named `key` in a compound.
pub open spec fn field(t: NbtTree, key: Seq<char>) -> Option<NbtTree> {
    match t {
        NbtTree::Compound(m) => match key_index(m, key) {
            Some(i) => Some(m[i].1),
            None => None,
        },
        _ => None,
    }
}

/// What `key_index` finds: the first matching position, or none at all.
pub proof fn lemma_key_index(entries: Seq<(Seq<char>, NbtTree)>, key: Seq<char>)
    ensures
        key_index(entries, key) matches Some(i) ==> 0 <= i < entries.len() && entries[i].0 == key
            && forall|j: int| 0 <= j < i ==> #[trigger] entries[j].0 != key,
        key_index(entries, key) is None ==> forall|j: int|
            0 <= j < entries.len() ==> #[trigger] entries[j].0 != key,
    decreases entries.len(),
{
    if entries.len() > 0 {
        let rest = entries.drop_first();
        lemma_key_index(rest, key);
        assert forall|j: int| 1 <= j < entries.len() implies #[trigger] entries[j] == rest[j - 1] by {}
    }
}

pub proof fn lemma_key_index_unique(entries: Seq<(Seq<char>, NbtTree)>, key: Seq<char>, i: int)
    requires
        0 <= i < entries.len(),
        entries[i].0 == key,
        forall|j: int| 0 <= j < i ==> entries[j].0 != key,
    ensures
        key_index(entries, key) == Some(i),
{
    lemma_key_index(entries, key);
    match key_index(entries, key) {
        Some(w) => {
            if w < i {
                assert(entries[w].0 != key);
            } else if w > i {
                assert(entries[i].0 != key);
            }
        },
        None => {
            assert(entries[i].0 != key);
        },
    }
}

/// Finds the first entry named `key` in a compound's entries.
pub fn find_key(entries: &Vec<(String, NbtValue)>, key: &str) -> (r: Option<usize>)
    ensures
        r matches Some(i) ==> i < entries@.len(),
        r matches Some(i) ==> key_index(
            Seq::new(entries@.len(), |k: int| (entries@[k].0@, entries@[k].1@)),
            key@,
        ) == Some(i as int),
        r is None ==> key_index(
            Seq::new(entries@.len(), |k: int| (entries@[k].0@, entries@[k].1@)),
            key@,
        ) is None,
{
    let ghost model = Seq::new(entries@.len(), |k: int| (entries@[k].0@, entries@[k].1@));
    let kc = crate::text::chars_of(key);
    let mut i: usize = 0;
    while i < entries.len()
        invariant
            i <= entries.len(),
            kc@ == key@,
            model == Seq::new(entries@.len(), |k: int| (entries@[k].0@, entries@[k].1@)),
            forall|j: int| 0 <= j < i ==> model[j].0 != key@,
        decreases entries.len() - i,
    {
        let name = crate::text::chars_of(entries[i].0.as_str());
        if crate::text::chars_eq(&name, &kc) {
            proof {
                lemma_key_index_unique(model, key@, i as int);
            }
            return Some(i);
        }
        i = i + 1;
    }
    proof {
        lemma_key_index(model, key@);
        if let Some(w) = key_index(model, key@) {
            assert(model[w].0 != key@);
        }
    }
    None
}

/// The value named `key` in a compound (`HashMap::get` on the entries).
pub fn get_field<'a>(value: &'a NbtValue, key: &str) -> (r: Option<&'a NbtValue>)
    ensures
        r matches Some(v) ==> field(value@, key@) == Some(v@),
        r is None ==> field(value@, key@) is None,
{
    match value {
        NbtValue::Compound(entries) => {
            match find_key(entries, key) {
                Some(i) => {
                    proof {
                        lemma_compound_view(entries);
                        assert(entries_view(entries@) =~= Seq::new(
                            entries@.len(),
                            |k: int| (entries@[k].0@, entries@[k].1@),
                        ));
                    }
                    Some(&entries[i].1)
                },
                None => {
                    proof {
                        lemma_compound_view(entries);
                        assert(entries_view(entries@) =~= Seq::new(
                            entries@.len(),
                            |k: int| (entries@[k].0@, entries@[k].1@),
                        ));
                    }
                    None
                },
            }
        },
        _ => None,
    }
}

impl NbtValue {
    /// A copy of the whole tree.
    pub fn deep_copy(&self) -> (r: NbtValue)
        ensures
            r@ == self@,
    {
        crate::domain::nbt::edit::copy_tree(self)
    }
}

} // verus!
