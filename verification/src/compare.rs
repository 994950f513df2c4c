//! The order of byte sequences.
use crate::object::Operand;
use crate::object::PyObject;
use vstd::prelude::*;

verus! {

/// A comparison operator.
#[derive(Debug, Clone, Copy, PartialEq, Eq, Structural)]
pub enum PyComparisonOp {
    Lt,
    Gt,
    Ne,
    Eq,
    Le,
    Ge,
}

/// The value of a comparison, or that the operands cannot be compared.
#[derive(Debug, Clone, Copy, PartialEq, Eq, Structural)]
pub enum PyComparisonValue {
    NotImplemented,
    Implemented(bool),
}

/// How one sequence stands to another.
#[derive(Debug, Clone, Copy, PartialEq, Eq, Structural)]
pub enum Relation {
    Less,
    Equal,
    Greater,
}

/// How `a` stands to `b`: by the first bytes in which they differ; a sequence comes before those
/// that it begins.
pub open spec fn relation(a: Seq<u8>, b: Seq<u8>) -> Relation
    decreases a.len(),
{
    if a.len() == 0 && b.len() == 0 {
        Relation::Equal
    } else if a.len() == 0 {
        Relation::Less
    } else if b.len() == 0 {
        Relation::Greater
    } else if a[0] < b[0] {
        Relation::Less
    } else if a[0] > b[0] {
        Relation::Greater
    } else {
        relation(a.drop_first(), b.drop_first())
    }
}

/// Whether `op` holds of operands that stand in the relation `rel`.
pub open spec fn holds(op: PyComparisonOp, rel: Relation) -> bool {
    match op {
        PyComparisonOp::Lt => rel == Relation::Less,
        PyComparisonOp::Gt => rel == Relation::Greater,
        PyComparisonOp::Ne => rel != Relation::Equal,
        PyComparisonOp::Eq => rel == Relation::Equal,
        PyComparisonOp::Le => rel != Relation::Greater,
        PyComparisonOp::Ge => rel != Relation::Less,
    }
}

/// The value of the comparison of the byte array with the contents `s` with `other`: of the bytes,
/// where `other` is bytes-like.
pub open spec fn comparison(s: Seq<u8>, other: Operand, op: PyComparisonOp) -> PyComparisonValue {
    match other {
        Operand::Itself => PyComparisonValue::Implemented(holds(op, relation(s, s))),
        Operand::Object(PyObject::Bytes(v)) => PyComparisonValue::Implemented(
            holds(op, relation(s, v@)),
        ),
        Operand::Object(_) => PyComparisonValue::NotImplemented,
    }
}

/// How `a` stands to `b`.
pub fn relate(a: &[u8], b: &[u8]) -> (r: Relation)
    ensures
        r == relation(a@, b@),
{
    let mut i: usize = 0;
    assert(a@.skip(0) =~= a@ && b@.skip(0) =~= b@);
    while i < a.len() && i < b.len()
        invariant
            i <= a.len(),
            i <= b.len(),
            relation(a@, b@) == relation(a@.skip(i as int), b@.skip(i as int)),
        decreases a.len() - i,
    {
        if a[i] < b[i] {
            return Relation::Less;
        }
        if a[i] > b[i] {
            return Relation::Greater;
        }
        assert(a@.skip(i as int).drop_first() =~= a@.skip(i + 1));
        assert(b@.skip(i as int).drop_first() =~= b@.skip(i + 1));
        i += 1;
    }
    if i < b.len() {
        Relation::Less
    } else if i < a.len() {
        Relation::Greater
    } else {
        Relation::Equal
    }
}

impl PyComparisonOp {
    /// Whether the operator holds of operands that stand in the relation `rel`.
    pub fn eval(self, rel: Relation) -> (r: bool)
        ensures
            r == holds(self, rel),
    {
        match self {
            PyComparisonOp::Lt => rel == Relation::Less,
            PyComparisonOp::Gt => rel == Relation::Greater,
            PyComparisonOp::Ne => rel != Relation::Equal,
            PyComparisonOp::Eq => rel == Relation::Equal,
            PyComparisonOp::Le => rel != Relation::Greater,
            PyComparisonOp::Ge => rel != Relation::Less,
        }
    }

    /// The value of the comparison of an object with itself, where it follows from the identity
    /// alone: an object is equal to itself.
    pub fn identical_optimization(self, identical: bool) -> (r: Option<bool>)
        ensures
            r == match self {
                PyComparisonOp::Eq => if identical {
                    Some(true)
                } else {
                    None
                },
                PyComparisonOp::Ne => if identical {
                    Some(false)
                } else {
                    None
                },
                _ => None,
            },
    {
        match self {
            PyComparisonOp::Eq => if identical {
                Some(true)
            } else {
                None
            },
            PyComparisonOp::Ne => if identical {
                Some(false)
            } else {
                None
            },
            _ => None,
        }
    }
}

/// Every sequence is equal to itself.
pub proof fn lemma_relation_reflexive(s: Seq<u8>)
    ensures
        relation(s, s) == Relation::Equal,
    decreases s.len(),
{
    if s.len() > 0 {
        lemma_relation_reflexive(s.drop_first());
    }
}

} // verus!
