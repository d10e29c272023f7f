//! Allocation of entity identifiers from the set already in use.
use vstd::prelude::*;

verus! {

/// The largest identifier among `ids`, or 0 when there is none.
pub open spec fn max_id(ids: Seq<u32>) -> nat
    decreases ids.len(),
{
    if ids.len() == 0 {
        0
    } else {
        let rest = max_id(ids.drop_last());
        let last = ids.last() as nat;
        if last > rest {
            last
        } else {
            rest
        }
    }
}

/// `max_id` bounds every identifier and is one of them (or 0).
pub proof fn lemma_max_id(ids: Seq<u32>)
    ensures
        forall|i: int| 0 <= i < ids.len() ==> ids[i] <= max_id(ids),
        max_id(ids) <= u32::MAX,
        ids.len() == 0 ==> max_id(ids) == 0,
        ids.len() > 0 ==> exists|i: int| 0 <= i < ids.len() && ids[i] == max_id(ids),
    decreases ids.len(),
{
    if ids.len() > 0 {
        lemma_max_id(ids.drop_last());
        let rest = ids.drop_last();
        assert forall|i: int| 0 <= i < ids.len() implies ids[i] <= max_id(ids) by {
            if i < ids.len() - 1 {
                assert(ids[i] == rest[i]);
            }
        }
        if rest.len() > 0 && max_id(ids) == max_id(rest) {
            let i = choose|i: int| 0 <= i < rest.len() && rest[i] == max_id(rest);
            assert(ids[i] == rest[i]);
        } else {
            assert(ids[ids.len() - 1] == max_id(ids));
        }
    }
}

/// Every identifier of `ids` is below `n`.
pub open spec fn all_below(ids: Seq<u32>, n: int) -> bool {
    forall|i: int| 0 <= i < ids.len() ==> ids[i] < n
}

/// Why an identifier could not be allocated.
#[derive(Clone, Copy, Debug, PartialEq, Eq, Structural)]
pub enum IdError {
    /// The largest identifier in use is already `u32::MAX`.
    Exhausted,
}

/// The largest identifier in use, or 0 when none is.
pub fn max_entity_id(ids: &Vec<u32>) -> (r: u32)
    ensures
        r == max_id(ids@),
        all_below(ids@, r as int + 1),
{
    let mut max: u32 = 0;
    let mut i: usize = 0;
    while i < ids.len()
        invariant
            i <= ids.len(),
            max == max_id(ids@.take(i as int)),
        decreases ids.len() - i,
    {
        assert(ids@.take(i as int + 1).drop_last() == ids@.take(i as int));
        if ids[i] > max {
            max = ids[i];
        }
        i += 1;
    }
    assert(ids@.take(ids.len() as int) == ids@);
    proof {
        lemma_max_id(ids@);
    }
    max
}

/// The next entity identifier: one more than the largest in use, or 1 when
/// none is in use.
pub fn next_entity_id(ids: &Vec<u32>) -> (r: Result<u32, IdError>)
    ensures
        max_id(ids@) < u32::MAX <==> r.is_ok(),
        r is Err ==> max_id(ids@) == u32::MAX,
        r matches Ok(id) ==> id == max_id(ids@) + 1,
        r matches Ok(id) ==> all_below(ids@, id as int),
{
    let max = max_entity_id(ids);
    if max == u32::MAX {
        Err(IdError::Exhausted)
    } else {
        Ok(max + 1)
    }
}

/// Once an allocated identifier joins the identifiers in use, the next
/// allocation is exactly one higher: two allocations in a row give two
/// distinct, consecutive identifiers.
pub proof fn lemma_successive_ids(ids: Seq<u32>)
    requires
        max_id(ids) < u32::MAX,
    ensures
        max_id(ids.push((max_id(ids) + 1) as u32)) == max_id(ids) + 1,
{
    assert(ids.push((max_id(ids) + 1) as u32).drop_last() == ids);
}

} // verus!
