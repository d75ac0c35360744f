//! The order in which a B-tree set of identifier values yields them.
use vstd::prelude::*;
use vstd::std_specs::btree::increasing_seq;
use vstd::std_specs::cmp::OrdSpec;

verus! {

/// An increasing sequence of values holds them in strictly ascending order.
pub proof fn lemma_increasing_u128(s: Seq<&u128>, i: int, j: int)
    requires
        increasing_seq(s),
        0 <= i < j < s.len(),
    ensures
        *s[i] < *s[j],
{
    broadcast use vstd::laws_cmp::group_laws_cmp;
    assert(vstd::laws_cmp::obeys_cmp::<u128>());
    assert(vstd::laws_cmp::obeys_cmp::<&u128>());
    vstd::std_specs::btree::axiom_increasing_seq_meaning::<&u128>(s);
    assert(OrdSpec::cmp_spec(&s[i], &s[j]) is Less);
}

} // verus!
