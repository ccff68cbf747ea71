//! The order that `PartialOrd` gives, as seen in specifications.

use core::cmp::Ordering;
use vstd::laws_cmp::obeys_partial_cmp_spec_properties;
use vstd::prelude::*;
use vstd::std_specs::cmp::PartialOrdSpec;

verus! {

/// `a < b` in the order that `PartialOrd` gives.
pub open spec fn less_than<S: PartialOrd>(a: S, b: S) -> bool {
    a.partial_cmp_spec(&b) == Some(Ordering::Less)
}

/// `PartialOrd` on `S` computes `partial_cmp_spec`, which is a strict partial
/// order.
pub open spec fn ordered<S: PartialOrd>() -> bool {
    S::obeys_partial_cmp_spec() && obeys_partial_cmp_spec_properties::<S>()
}

/// `PartialOrd` on `S` is a strict total order: of two values, one is less
/// than the other or they are the same value.
pub open spec fn total_order<S: PartialOrd>() -> bool {
    &&& ordered::<S>()
    &&& forall|a: S, b: S| #[trigger] less_than(a, b) || less_than(b, a) || a == b
}

/// Two values of a totally ordered type compare one way or the other, or are
/// the same.
pub proof fn lemma_total<S: PartialOrd>(a: S, b: S)
    requires
        total_order::<S>(),
    ensures
        less_than(a, b) || less_than(b, a) || a == b,
{
    assert(less_than(a, b) || less_than(b, a) || a == b);
}

/// Nothing is less than itself.
pub proof fn lemma_less_than_irreflexive<S: PartialOrd>(x: S)
    requires
        ordered::<S>(),
    ensures
        !less_than(x, x),
{
    reveal(obeys_partial_cmp_spec_properties);
}

/// `<` is transitive.
pub proof fn lemma_less_than_transitive<S: PartialOrd>(x: S, y: S, z: S)
    requires
        ordered::<S>(),
        less_than(x, y),
        less_than(y, z),
    ensures
        less_than(x, z),
{
    reveal(obeys_partial_cmp_spec_properties);
}

} // verus!
