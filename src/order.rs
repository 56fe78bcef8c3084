use crate::deps::DependencySet;
use crate::graph::Node;
use crate::resource::ResourceHandle;
use vstd::prelude::*;

verus! {

/// Node `a`, declared at position `ai`, must run before node `b`, declared
/// at `bi`, on account of resource `r`: `a` writes `r`, and `b` either only
/// reads it, or writes it too and was declared later.
pub open spec fn conflict_on(
    a: DependencySet,
    ai: int,
    b: DependencySet,
    bi: int,
    r: ResourceHandle,
) -> bool {
    &&& ai != bi
    &&& a.writes@.contains(r)
    &&& (b.writes@.contains(r) && ai < bi) || (b.reads@.contains(r) && !b.writes@.contains(r))
}

/// Node `i` must run before node `j`: there is a resource on whose account
/// it must. Outside this module the relation is used through the two
/// lemmas below.
pub closed spec fn must_precede<W>(ns: Seq<Node<W>>, i: int, j: int) -> bool {
    exists|r: ResourceHandle| conflict_on(ns[i].deps, i, ns[j].deps, j, r)
}

/// A conflict on one resource is enough for `i` to precede `j`.
pub proof fn lemma_conflict_precedes<W>(ns: Seq<Node<W>>, i: int, j: int, r: ResourceHandle)
    requires
        conflict_on(ns[i].deps, i, ns[j].deps, j, r),
    ensures
        must_precede(ns, i, j),
{
}

/// When `i` must precede `j`, the two differ and some resource is the
/// reason.
pub proof fn lemma_precedes_conflict<W>(ns: Seq<Node<W>>, i: int, j: int) -> (r: ResourceHandle)
    requires
        must_precede(ns, i, j),
    ensures
        i != j,
        conflict_on(ns[i].deps, i, ns[j].deps, j, r),
{
    choose|r: ResourceHandle| conflict_on(ns[i].deps, i, ns[j].deps, j, r)
}

} // verus!
