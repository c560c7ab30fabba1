//! Contracts for the array-based disjoint-set forest of the `disjoint_sets`
//! crate.
//!
//! The forest is opaque here. What the rest of the library knows of it is the
//! representative of every element, and how the operations below read or
//! change those representatives.

use disjoint_sets::UnionFind;
use vstd::prelude::*;

verus! {

/// A `disjoint_sets::UnionFind<usize>`, kept out of the verifier's sight.
#[verifier::external_body]
pub struct Forest {
    sets: UnionFind<usize>,
}

/// The representative of every element of the forest: entry `i` is the
/// element that `find(i)` returns. Path halving rearranges parent links but
/// never changes this sequence.
pub uninterp spec fn representatives(forest: Forest) -> Seq<usize>;

/// How joining the sets of `a` and `b` changes the representatives: the two
/// sets end up with one common representative, which is the former
/// representative of one of them, and every other element keeps its own.
pub open spec fn joined(before: Seq<usize>, after: Seq<usize>, a: int, b: int) -> bool {
    &&& after.len() == before.len()
    &&& after[a] == before[a] || after[a] == before[b]
    &&& forall|i: int|
        0 <= i < before.len() ==> #[trigger] after[i] == if before[i] == before[a] || before[i]
            == before[b] {
            after[a]
        } else {
            before[i]
        }
}

/// `UnionFind::new`: a forest of `size` singleton sets, each element its own
/// representative.
#[verifier::external_body]
pub(crate) fn singletons(size: usize) -> (forest: Forest)
    ensures
        representatives(forest) == Seq::new(size as nat, |i: int| i as usize),
{
    Forest { sets: UnionFind::new(size) }
}

/// `UnionFind::union`: joins the sets of `a` and `b`, and reports whether they
/// were different sets before. Both elements must exist, since the forest
/// indexes its arrays with them.
#[verifier::external_body]
pub(crate) fn join(forest: &mut Forest, a: usize, b: usize) -> (changed: bool)
    requires
        a < representatives(*old(forest)).len(),
        b < representatives(*old(forest)).len(),
    ensures
        changed == (representatives(*old(forest))[a as int] != representatives(*old(forest))[b as int]),
        joined(representatives(*old(forest)), representatives(*final(forest)), a as int, b as int),
{
    forest.sets.union(a, b)
}

/// `UnionFind::find`: the representative of the set of `element`, which must
/// exist.
#[verifier::external_body]
pub(crate) fn representative(forest: &Forest, element: usize) -> (root: usize)
    requires
        element < representatives(*forest).len(),
    ensures
        root == representatives(*forest)[element as int],
{
    forest.sets.find(element)
}

/// `UnionFind::equiv`: whether `a` and `b`, which must exist, are in the same
/// set, that is, have the same representative.
#[verifier::external_body]
pub(crate) fn same_set(forest: &Forest, a: usize, b: usize) -> (same: bool)
    requires
        a < representatives(*forest).len(),
        b < representatives(*forest).len(),
    ensures
        same == (representatives(*forest)[a as int] == representatives(*forest)[b as int]),
{
    forest.sets.equiv(a, b)
}

/// `UnionFind::len`: the number of elements.
#[verifier::external_body]
pub(crate) fn element_count(forest: &Forest) -> (count: usize)
    ensures
        count == representatives(*forest).len(),
{
    forest.sets.len()
}

} // verus!
