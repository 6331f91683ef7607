//! A stable ordering of names: the order in which `sort` / `sort_by` on
//! `String` keys leaves a list, given as the sequence of original positions.
use vstd::prelude::*;
use crate::text::{lex_lt, lex_le, chars_lt, lemma_lex_total, lemma_lex_trans};

verus! {

/// `order` with position `j` inserted before the first position whose name
/// sorts strictly after name `j` (so after every equal name: stability).
pub open spec fn insert_index(keys: Seq<Seq<char>>, order: Seq<int>, j: int) -> Seq<int>
    decreases order.len(),
{
    if order.len() == 0 {
        seq![j]
    } else if lex_lt(keys[j], keys[order[0]]) {
        seq![j] + order
    } else {
        seq![order[0]] + insert_index(keys, order.drop_first(), j)
    }
}

/// The positions `0..n` of `keys` in ascending, stable name order.
pub open spec fn sorted_order(keys: Seq<Seq<char>>, n: nat) -> Seq<int>
    decreases n,
{
    if n == 0 {
        Seq::empty()
    } else {
        insert_index(keys, sorted_order(keys, (n - 1) as nat), n - 1)
    }
}

/// The names of a vector of character vectors.
pub open spec fn names_view(keys: Seq<Vec<char>>) -> Seq<Seq<char>> {
    Seq::new(keys.len(), |i: int| keys[i]@)
}

proof fn lemma_insert_index_split(keys: Seq<Seq<char>>, order: Seq<int>, j: int, p: int)
    requires
        0 <= p <= order.len(),
        forall|q: int| 0 <= q < p ==> !lex_lt(keys[j], keys[#[trigger] order[q]]),
        p == order.len() || lex_lt(keys[j], keys[order[p]]),
    ensures
        insert_index(keys, order, j) == order.take(p) + seq![j] + order.skip(p),
    decreases order.len(),
{
    if order.len() == 0 {
        assert(order.take(p) + seq![j] + order.skip(p) =~= seq![j]);
    } else if p == 0 {
        assert(order.take(p) + seq![j] + order.skip(p) =~= seq![j] + order);
    } else {
        let rest = order.drop_first();
        assert forall|q: int| 0 <= q < p - 1 implies !lex_lt(keys[j], keys[#[trigger] rest[q]]) by {
            assert(rest[q] == order[q + 1]);
        }
        assert(!lex_lt(keys[j], keys[order[0]]));
        lemma_insert_index_split(keys, rest, j, p - 1);
        assert(order.take(p) + seq![j] + order.skip(p) =~= seq![order[0]] + (rest.take(p - 1)
            + seq![j] + rest.skip(p - 1)));
    }
}

/// The positions of `keys` in ascending, stable order of the names.
pub fn sort_order(keys: &Vec<Vec<char>>) -> (r: Vec<usize>)
    ensures
        r@.len() == keys@.len(),
        forall|i: int| 0 <= i < r@.len() ==> #[trigger] r@[i] as int == sorted_order(
            names_view(keys@),
            keys@.len() as nat,
        )[i],
{
    let ghost names = names_view(keys@);
    let mut order: Vec<usize> = Vec::new();
    let mut j: usize = 0;
    while j < keys.len()
        invariant
            j <= keys@.len(),
            names == names_view(keys@),
            order@.len() == sorted_order(names, j as nat).len(),
            forall|i: int| 0 <= i < order@.len() ==> #[trigger] order@[i] as int == sorted_order(
                names,
                j as nat,
            )[i],
            forall|i: int| 0 <= i < order@.len() ==> #[trigger] order@[i] < j,
        decreases keys.len() - j,
    {
        let ghost before = sorted_order(names, j as nat);
        let mut p: usize = 0;
        while p < order.len() && !chars_lt(&keys[j], &keys[order[p]])
            invariant
                p <= order@.len(),
                j < keys@.len(),
                names == names_view(keys@),
                order@.len() == before.len(),
                forall|i: int| 0 <= i < order@.len() ==> #[trigger] order@[i] as int == before[i],
                forall|i: int| 0 <= i < order@.len() ==> #[trigger] order@[i] < j,
                forall|q: int| 0 <= q < p ==> !lex_lt(names[j as int], names[#[trigger] before[q]]),
            decreases order.len() - p,
        {
            assert(names[order@[p as int] as int] == keys@[order@[p as int] as int]@);
            p = p + 1;
        }
        proof {
            if p < order@.len() {
                assert(names[order@[p as int] as int] == keys@[order@[p as int] as int]@);
            }
            lemma_insert_index_split(names, before, j as int, p as int);
        }
        let ghost prev = order@;
        order.insert(p, j);
        proof {
            let after = sorted_order(names, (j + 1) as nat);
            assert(after == insert_index(names, before, j as int));
            assert(after =~= before.take(p as int) + seq![j as int] + before.skip(p as int));
            assert forall|i: int| 0 <= i < order@.len() implies #[trigger] order@[i] as int
                == after[i] by {
                if i < p {
                    assert(order@[i] == prev[i]);
                } else if i > p {
                    assert(order@[i] == prev[i - 1]);
                }
            }
            assert forall|i: int| 0 <= i < order@.len() implies #[trigger] order@[i] < j + 1 by {
                if i < p {
                    assert(order@[i] == prev[i]);
                } else if i > p {
                    assert(order@[i] == prev[i - 1]);
                }
            }
        }
        j = j + 1;
    }
    proof {
        lemma_sorted_order(names, keys@.len() as nat);
    }
    order
}

// ---------------------------------------------------------------------------
// What the order is: a permutation of the positions, in ascending name order
// ---------------------------------------------------------------------------

/// Every position of `order` is in `0..n` and occurs once.
pub open spec fn is_permutation_of_range(order: Seq<int>, n: nat) -> bool {
    &&& order.len() == n
    &&& forall|i: int| 0 <= i < order.len() ==> 0 <= #[trigger] order[i] < n
    &&& forall|i: int, k: int| 0 <= i < k < order.len() ==> order[i] != order[k]
}

/// The names at consecutive positions of `order` never decrease.
pub open spec fn is_ascending(keys: Seq<Seq<char>>, order: Seq<int>) -> bool {
    forall|i: int, k: int| 0 <= i < k < order.len() ==> lex_le(keys[order[i]], keys[order[k]])
}

proof fn lemma_insert_index_content(keys: Seq<Seq<char>>, order: Seq<int>, j: int)
    ensures
        insert_index(keys, order, j).len() == order.len() + 1,
        forall|x: int| #[trigger] insert_index(keys, order, j).contains(x) <==> (order.contains(x) || x == j),
    decreases order.len(),
{
    if order.len() == 0 {
        assert forall|x: int| insert_index(keys, order, j).contains(x) <==> (order.contains(x)
            || x == j) by {
            if x == j {
                assert(insert_index(keys, order, j)[0] == j);
            }
        }
    } else if lex_lt(keys[j], keys[order[0]]) {
        let r = seq![j] + order;
        assert forall|x: int| r.contains(x) <==> (order.contains(x) || x == j) by {
            if order.contains(x) {
                let i = choose|i: int| 0 <= i < order.len() && order[i] == x;
                assert(r[i + 1] == x);
            }
            if x == j {
                assert(r[0] == j);
            }
            if r.contains(x) && x != j {
                let i = choose|i: int| 0 <= i < r.len() && r[i] == x;
                assert(order[i - 1] == x);
            }
        }
    } else {
        let rest = order.drop_first();
        lemma_insert_index_content(keys, rest, j);
        let sub = insert_index(keys, rest, j);
        let r = seq![order[0]] + sub;
        assert forall|x: int| r.contains(x) <==> (order.contains(x) || x == j) by {
            if order.contains(x) {
                let i = choose|i: int| 0 <= i < order.len() && order[i] == x;
                if i == 0 {
                    assert(r[0] == x);
                } else {
                    assert(rest[i - 1] == x);
                    assert(rest.contains(x));
                    assert(sub.contains(x));
                    let k = choose|k: int| 0 <= k < sub.len() && sub[k] == x;
                    assert(r[k + 1] == x);
                }
            }
            if x == j {
                assert(sub.contains(x));
                let k = choose|k: int| 0 <= k < sub.len() && sub[k] == x;
                assert(r[k + 1] == x);
            }
            if r.contains(x) {
                let i = choose|i: int| 0 <= i < r.len() && r[i] == x;
                if i == 0 {
                    assert(order[0] == x);
                } else {
                    assert(sub[i - 1] == x);
                    assert(sub.contains(x));
                    if x != j {
                        assert(rest.contains(x));
                        let k = choose|k: int| 0 <= k < rest.len() && rest[k] == x;
                        assert(order[k + 1] == x);
                    }
                }
            }
        }
    }
}

proof fn lemma_insert_index_sorted(keys: Seq<Seq<char>>, order: Seq<int>, j: int)
    requires
        is_ascending(keys, order),
    ensures
        is_ascending(keys, insert_index(keys, order, j)),
    decreases order.len(),
{
    let r = insert_index(keys, order, j);
    if order.len() == 0 {
    } else if lex_lt(keys[j], keys[order[0]]) {
        assert forall|i: int, k: int| 0 <= i < k < r.len() implies lex_le(
            keys[r[i]],
            keys[r[k]],
        ) by {
            if i == 0 {
                if k > 1 {
                    assert(lex_le(keys[order[0]], keys[order[k - 1]]));
                    if keys[order[0]] != keys[order[k - 1]] {
                        lemma_lex_trans(keys[j], keys[order[0]], keys[order[k - 1]]);
                    }
                }
            } else {
                assert(r[i] == order[i - 1] && r[k] == order[k - 1]);
            }
        }
    } else {
        let rest = order.drop_first();
        assert(is_ascending(keys, rest)) by {
            assert forall|i: int, k: int| 0 <= i < k < rest.len() implies lex_le(
                keys[rest[i]],
                keys[rest[k]],
            ) by {
                assert(rest[i] == order[i + 1] && rest[k] == order[k + 1]);
            }
        }
        lemma_insert_index_sorted(keys, rest, j);
        lemma_insert_index_content(keys, rest, j);
        let sub = insert_index(keys, rest, j);
        lemma_lex_total(keys[j], keys[order[0]]);
        assert forall|i: int, k: int| 0 <= i < k < r.len() implies lex_le(
            keys[r[i]],
            keys[r[k]],
        ) by {
            if i == 0 {
                let x = sub[k - 1];
                assert(sub.contains(x));
                assert(r[k] == x);
                if x == j {
                } else {
                    assert(rest.contains(x));
                    let m = choose|m: int| 0 <= m < rest.len() && rest[m] == x;
                    assert(order[m + 1] == x);
                }
            } else {
                assert(r[i] == sub[i - 1] && r[k] == sub[k - 1]);
            }
        }
    }
}

/// `sorted_order(keys, n)` lists each position in `0..n` once, in ascending
/// order of the names.
pub proof fn lemma_sorted_order(keys: Seq<Seq<char>>, n: nat)
    ensures
        is_permutation_of_range(sorted_order(keys, n), n),
        is_ascending(keys, sorted_order(keys, n)),
    decreases n,
{
    if n > 0 {
        let prev = sorted_order(keys, (n - 1) as nat);
        lemma_sorted_order(keys, (n - 1) as nat);
        lemma_insert_index_content(keys, prev, n - 1);
        lemma_insert_index_sorted(keys, prev, n - 1);
        let r = sorted_order(keys, n);
        assert forall|i: int| 0 <= i < r.len() implies 0 <= #[trigger] r[i] < n by {
            assert(r.contains(r[i]));
            if r[i] != n - 1 {
                assert(prev.contains(r[i]));
            }
        }
        assert forall|i: int, k: int| 0 <= i < k < r.len() implies r[i] != r[k] by {
            if r[i] == r[k] {
                // Both occurrences come from `prev` or are the new position;
                // a count argument settles it.
                lemma_distinct_insert(keys, prev, n - 1, i, k);
            }
        }
    }
}

proof fn lemma_distinct_insert(keys: Seq<Seq<char>>, order: Seq<int>, j: int, i: int, k: int)
    requires
        forall|a: int, b: int| 0 <= a < b < order.len() ==> order[a] != order[b],
        !order.contains(j),
        0 <= i < k < insert_index(keys, order, j).len(),
    ensures
        insert_index(keys, order, j)[i] != insert_index(keys, order, j)[k],
    decreases order.len(),
{
    let r = insert_index(keys, order, j);
    lemma_insert_index_content(keys, order, j);
    if order.len() == 0 {
    } else if lex_lt(keys[j], keys[order[0]]) {
        if i == 0 {
            assert(order.contains(r[k]));
        } else {
            assert(r[i] == order[i - 1] && r[k] == order[k - 1]);
        }
    } else {
        let rest = order.drop_first();
        lemma_insert_index_content(keys, rest, j);
        let sub = insert_index(keys, rest, j);
        if i == 0 {
            let x = sub[k - 1];
            assert(sub.contains(x));
            assert(r[k] == x);
            if x == j {
            } else {
                assert(rest.contains(x));
                let m = choose|m: int| 0 <= m < rest.len() && rest[m] == x;
                assert(order[m + 1] == x);
            }
        } else {
            assert forall|a: int, b: int| 0 <= a < b < rest.len() implies rest[a] != rest[b] by {
                assert(rest[a] == order[a + 1] && rest[b] == order[b + 1]);
            }
            assert(!rest.contains(j)) by {
                if rest.contains(j) {
                    let m = choose|m: int| 0 <= m < rest.len() && rest[m] == j;
                    assert(order[m + 1] == j);
                }
            }
            lemma_distinct_insert(keys, rest, j, i - 1, k - 1);
        }
    }
}

} // verus!
