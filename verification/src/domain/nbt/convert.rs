//! Views of a value as a compound.
use vstd::prelude::*;
use crate::domain::nbt::value::{NbtValue, NbtTree, entries_view, lemma_compound_view};

verus! {

/// The entries of a compound (`None` for any other value).
pub fn as_compound(value: &NbtValue) -> (r: Option<&Vec<(String, NbtValue)>>)
    ensures
        r matches Some(m) ==> value@ == NbtTree::Compound(entries_view(m@)),
        r is None ==> !(value@ is Compound),
{
    match value {
        NbtValue::Compound(m) => {
            proof {
                lemma_compound_view(m);
            }
            Some(m)
        },
        _ => None,
    }
}

/// The entries of a compound, to be changed (`None` for any other value).
pub fn as_compound_mut(value: &mut NbtValue) -> (r: Option<&mut Vec<(String, NbtValue)>>)
    ensures
        *old(value) is Compound <==> r is Some,
        r matches Some(m) ==> *m == (*old(value))->Compound_0 && *final(value) == NbtValue::Compound(
            *final(m),
        ),
        r is None ==> *final(value) == *old(value),
{
    match value {
        NbtValue::Compound(m) => Some(m),
        _ => None,
    }
}

} // verus!
