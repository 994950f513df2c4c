//! Laws of the comparison.
use crate::compare::{holds, lemma_relation_reflexive, relation, PyComparisonOp, Relation};
use vstd::prelude::*;

verus! {

/// Two sequences are equal exactly where they hold the same bytes.
pub proof fn law_equal_is_same(a: Seq<u8>, b: Seq<u8>)
    ensures
        relation(a, b) == Relation::Equal <==> a == b,
    decreases a.len(),
{
    if a == b {
        lemma_relation_reflexive(a);
    } else if a.len() > 0 && b.len() > 0 && a[0] == b[0] {
        if a.drop_first() == b.drop_first() {
            assert(a =~= seq![a[0]] + a.drop_first());
            assert(b =~= seq![b[0]] + b.drop_first());
        }
        law_equal_is_same(a.drop_first(), b.drop_first());
    } else if a.len() == 0 && b.len() == 0 {
        assert(a =~= b);
    }
}

/// Seen from the other side, the relation is the opposite one.
pub proof fn law_opposite(a: Seq<u8>, b: Seq<u8>)
    ensures
        relation(a, b) == Relation::Less <==> relation(b, a) == Relation::Greater,
        relation(a, b) == Relation::Equal <==> relation(b, a) == Relation::Equal,
    decreases a.len(),
{
    if a.len() > 0 && b.len() > 0 && a[0] == b[0] {
        law_opposite(a.drop_first(), b.drop_first());
    }
}

/// What comes before something that comes before a third comes before the third.
pub proof fn law_transitive(a: Seq<u8>, b: Seq<u8>, c: Seq<u8>)
    requires
        relation(a, b) == Relation::Less,
        relation(b, c) == Relation::Less,
    ensures
        relation(a, c) == Relation::Less,
    decreases a.len(),
{
    if a.len() > 0 && b.len() > 0 && c.len() > 0 && a[0] == b[0] && b[0] == c[0] {
        law_transitive(a.drop_first(), b.drop_first(), c.drop_first());
    }
}

/// A sequence comes before those that it begins.
pub proof fn law_prefix_first(a: Seq<u8>, b: Seq<u8>)
    requires
        b.len() > 0,
    ensures
        relation(a, a + b) == Relation::Less,
    decreases a.len(),
{
    if a.len() > 0 {
        assert((a + b).drop_first() =~= a.drop_first() + b);
        law_prefix_first(a.drop_first(), b);
    }
}

/// Each operator is the negation of one other.
pub proof fn law_negations(rel: Relation)
    ensures
        holds(PyComparisonOp::Eq, rel) == !holds(PyComparisonOp::Ne, rel),
        holds(PyComparisonOp::Lt, rel) == !holds(PyComparisonOp::Ge, rel),
        holds(PyComparisonOp::Gt, rel) == !holds(PyComparisonOp::Le, rel),
{
}

} // verus!
