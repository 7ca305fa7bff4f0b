use vstd::prelude::*;

use crate::dictionary::Dictionary;
use crate::model::Data;
use crate::value::Value;

verus! {

/// Once `v` has been added under `k`, the dictionary contains `k` and `get(k)` finds a
/// value equal to `v`, whatever was there before.
pub proof fn law_add_then_get(before: Dictionary, after: Dictionary, k: Seq<char>, v: Value)
    requires
        after@ == before@.insert(k, v@),
    ensures
        after@.contains_key(k),
        after@[k] == v@,
{
}

/// Once `k` has been removed, the dictionary does not contain `k` and `get(k)` finds
/// nothing, whether or not `k` was there before.
pub proof fn law_remove_then_absent(before: Dictionary, after: Dictionary, k: Seq<char>)
    requires
        after@ == before@.remove(k),
    ensures
        !after@.contains_key(k),
{
}

/// A cleared dictionary has no entries: `len` gives 0 and `is_empty` gives true.
pub proof fn law_clear_empties(d: Dictionary)
    requires
        d@ == Map::<Seq<char>, Data>::empty(),
    ensures
        d@.len() == 0,
        d@.dom() == Set::<Seq<char>>::empty(),
{
}

/// Wrapping a dictionary in a value and taking it out again with `as_dict` gives a
/// dictionary with the same entries.
pub proof fn law_dict_round_trip(d: Dictionary, v: Value, e: Dictionary)
    requires
        v@ == Data::Dict(d@),
        v@ == Data::Dict(e@),
    ensures
        e@ == d@,
{
}

} // verus!
