//! Choosing the default search fields of a schema.
//!
//! The benchmark queries every indexed field by default.  The schema is
//! summarised for this crate as one flag per field, in field order:
//! whether the field is indexed.  The selected fields are named by their
//! position in that order.

use vstd::prelude::*;

verus! {

/// The positions of the set flags in `indexed`, in order.
pub open spec fn indexed_fields(indexed: Seq<bool>) -> Seq<u32>
    decreases indexed.len(),
{
    if indexed.len() == 0 {
        Seq::empty()
    } else if indexed.last() {
        indexed_fields(indexed.drop_last()).push((indexed.len() - 1) as u32)
    } else {
        indexed_fields(indexed.drop_last())
    }
}

/// Collects the field identifiers of the indexed fields: those are the
/// fields a query is parsed against when it names no field itself.
pub fn extract_search_fields(indexed: &Vec<bool>) -> (r: Vec<u32>)
    requires
        indexed@.len() <= u32::MAX,
    ensures
        r@ == indexed_fields(indexed@),
{
    let mut r: Vec<u32> = Vec::new();
    let mut i: usize = 0;
    while i < indexed.len()
        invariant
            0 <= i <= indexed@.len() <= u32::MAX,
            r@ == indexed_fields(indexed@.take(i as int)),
        decreases indexed@.len() - i,
    {
        proof {
            assert(indexed@.take(i + 1).drop_last() =~= indexed@.take(i as int));
            assert(indexed@.take(i + 1).last() == indexed@[i as int]);
        }
        if indexed[i] {
            r.push(i as u32);
        }
        i = i + 1;
    }
    proof {
        assert(indexed@.take(indexed@.len() as int) =~= indexed@);
    }
    r
}

} // verus!
