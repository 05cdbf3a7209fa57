//! The operator and condition-tree model, and the De Morgan negation
//! rewrite that keeps explicit `NOT` nodes out of the produced tree.

use crate::number::{NumV, Number};
use crate::FieldId;
use vstd::prelude::*;

verus! {

/// The mathematical model of an [`Operator`].
pub enum OpV {
    GreaterThan(NumV),
    GreaterThanOrEqual(NumV),
    /// String equality on the case-folded comparand; the number is present
    /// when the comparand also reads as one.
    Equal(Option<NumV>, Seq<char>),
    NotEqual(Option<NumV>, Seq<char>),
    LowerThan(NumV),
    LowerThanOrEqual(NumV),
    /// Inclusive range, `from` then `to`, exactly as written.
    Between(NumV, NumV),
    /// Within (`GeoLowerThan`) or beyond (`GeoGreaterThan`) a circle:
    /// latitude, longitude, radius.
    GeoLowerThan(NumV, NumV, NumV),
    GeoGreaterThan(NumV, NumV, NumV),
}

/// One comparison against a single field.
#[derive(Debug, PartialEq)]
pub enum Operator {
    GreaterThan(Number),
    GreaterThanOrEqual(Number),
    /// String equality on the case-folded comparand; the number is present
    /// when the comparand also reads as one.
    Equal(Option<Number>, String),
    NotEqual(Option<Number>, String),
    LowerThan(Number),
    LowerThanOrEqual(Number),
    /// Inclusive range, `from` then `to`, exactly as written.
    Between(Number, Number),
    /// Within (`GeoLowerThan`) or beyond (`GeoGreaterThan`) a circle:
    /// latitude, longitude, radius.
    GeoLowerThan(Number, Number, Number),
    GeoGreaterThan(Number, Number, Number),
}

/// The model of an optional number payload.
pub open spec fn opt_num_view(n: Option<Number>) -> Option<NumV> {
    match n {
        Some(x) => Some(x@),
        None => None,
    }
}

impl View for Operator {
    type V = OpV;

    open spec fn view(&self) -> OpV {
        match self {
            Operator::GreaterThan(n) => OpV::GreaterThan(n@),
            Operator::GreaterThanOrEqual(n) => OpV::GreaterThanOrEqual(n@),
            Operator::Equal(n, s) => OpV::Equal(opt_num_view(*n), s@),
            Operator::NotEqual(n, s) => OpV::NotEqual(opt_num_view(*n), s@),
            Operator::LowerThan(n) => OpV::LowerThan(n@),
            Operator::LowerThanOrEqual(n) => OpV::LowerThanOrEqual(n@),
            Operator::Between(a, b) => OpV::Between(a@, b@),
            Operator::GeoLowerThan(lat, lng, r) => OpV::GeoLowerThan(lat@, lng@, r@),
            Operator::GeoGreaterThan(lat, lng, r) => OpV::GeoGreaterThan(lat@, lng@, r@),
        }
    }
}

/// The De Morgan rule for a single comparison. Every operator negates to
/// one operator, except `Between`, which negates to the disjunction of the
/// two returned operators.
pub open spec fn spec_negate_op(op: OpV) -> (OpV, Option<OpV>) {
    match op {
        OpV::GreaterThan(n) => (OpV::LowerThanOrEqual(n), None),
        OpV::GreaterThanOrEqual(n) => (OpV::LowerThan(n), None),
        OpV::Equal(n, s) => (OpV::NotEqual(n, s), None),
        OpV::NotEqual(n, s) => (OpV::Equal(n, s), None),
        OpV::LowerThan(n) => (OpV::GreaterThanOrEqual(n), None),
        OpV::LowerThanOrEqual(n) => (OpV::GreaterThan(n), None),
        OpV::Between(a, b) => (OpV::LowerThan(a), Some(OpV::GreaterThan(b))),
        OpV::GeoLowerThan(lat, lng, r) => (OpV::GeoGreaterThan(lat, lng, r), None),
        OpV::GeoGreaterThan(lat, lng, r) => (OpV::GeoLowerThan(lat, lng, r), None),
    }
}

impl Operator {
    /// Negates this comparison. The second operator is returned only for
    /// `Between`, whose negation is the disjunction of the two.
    pub fn negate(self) -> (r: (Operator, Option<Operator>))
        ensures
            r.0@ == spec_negate_op(self@).0,
            opt_op_view(r.1) == spec_negate_op(self@).1,
    {
        match self {
            Operator::GreaterThan(n) => (Operator::LowerThanOrEqual(n), None),
            Operator::GreaterThanOrEqual(n) => (Operator::LowerThan(n), None),
            Operator::Equal(n, s) => (Operator::NotEqual(n, s), None),
            Operator::NotEqual(n, s) => (Operator::Equal(n, s), None),
            Operator::LowerThan(n) => (Operator::GreaterThanOrEqual(n), None),
            Operator::LowerThanOrEqual(n) => (Operator::GreaterThan(n), None),
            Operator::Between(a, b) => (
                Operator::LowerThan(a),
                Some(Operator::GreaterThan(b)),
            ),
            Operator::GeoLowerThan(lat, lng, r) => (
                Operator::GeoGreaterThan(lat, lng, r),
                None,
            ),
            Operator::GeoGreaterThan(lat, lng, r) => (
                Operator::GeoLowerThan(lat, lng, r),
                None,
            ),
        }
    }
}

/// The model of an optional operator.
pub open spec fn opt_op_view(op: Option<Operator>) -> Option<OpV> {
    match op {
        Some(x) => Some(x@),
        None => None,
    }
}

/// The mathematical model of a [`FilterCondition`] tree.
pub enum CondV {
    Operator(FieldId, OpV),
    Or(Box<CondV>, Box<CondV>),
    And(Box<CondV>, Box<CondV>),
    Empty,
}

/// The condition tree handed to the execution engine: a binary tree of
/// `And`/`Or` nodes over leaf comparisons. `Empty` marks a geo clause whose
/// reserved geo field is absent from the schema.
#[derive(Debug, PartialEq)]
pub enum FilterCondition {
    Operator(FieldId, Operator),
    Or(Box<FilterCondition>, Box<FilterCondition>),
    And(Box<FilterCondition>, Box<FilterCondition>),
    Empty,
}

/// The model of a [`FilterCondition`] tree.
pub open spec fn cond_view(c: FilterCondition) -> CondV
    decreases c,
{
    match c {
        FilterCondition::Operator(fid, op) => CondV::Operator(fid, op@),
        FilterCondition::Or(l, r) => CondV::Or(Box::new(cond_view(*l)), Box::new(cond_view(*r))),
        FilterCondition::And(l, r) => CondV::And(
            Box::new(cond_view(*l)),
            Box::new(cond_view(*r)),
        ),
        FilterCondition::Empty => CondV::Empty,
    }
}

impl View for FilterCondition {
    type V = CondV;

    open spec fn view(&self) -> CondV {
        cond_view(*self)
    }
}

/// The De Morgan rewrite of a whole tree: `And`/`Or` swap and the rewrite
/// recurses; a leaf negates by [`spec_negate_op`], a `Between` leaf
/// becoming the disjunction of its two negations; `Empty` stays `Empty`.
pub open spec fn spec_negate(c: CondV) -> CondV
    decreases c,
{
    match c {
        CondV::Operator(fid, op) => {
            match spec_negate_op(op) {
                (o1, Some(o2)) => CondV::Or(
                    Box::new(CondV::Operator(fid, o1)),
                    Box::new(CondV::Operator(fid, o2)),
                ),
                (o1, None) => CondV::Operator(fid, o1),
            }
        },
        CondV::Or(l, r) => CondV::And(Box::new(spec_negate(*l)), Box::new(spec_negate(*r))),
        CondV::And(l, r) => CondV::Or(Box::new(spec_negate(*l)), Box::new(spec_negate(*r))),
        CondV::Empty => CondV::Empty,
    }
}

impl FilterCondition {
    /// Negates this tree by the De Morgan rewrite of [`spec_negate`].
    pub fn negate(self) -> (r: FilterCondition)
        ensures
            r@ == spec_negate(self@),
        decreases self,
    {
        match self {
            FilterCondition::Operator(fid, op) => {
                let ghost opv = op@;
                let (o1, o2opt) = op.negate();
                match o2opt {
                    Some(o2) => {
                        proof {
                            reveal_with_fuel(cond_view, 3);
                            assert(spec_negate_op(opv) == (o1@, Some(o2@)));
                        }
                        FilterCondition::Or(
                            Box::new(FilterCondition::Operator(fid, o1)),
                            Box::new(FilterCondition::Operator(fid, o2)),
                        )
                    },
                    None => {
                        proof {
                            reveal_with_fuel(cond_view, 3);
                            assert(spec_negate_op(opv) == (o1@, None::<OpV>));
                        }
                        FilterCondition::Operator(fid, o1)
                    },
                }
            },
            FilterCondition::Or(l, r) => FilterCondition::And(
                Box::new(l.negate()),
                Box::new(r.negate()),
            ),
            FilterCondition::And(l, r) => FilterCondition::Or(
                Box::new(l.negate()),
                Box::new(r.negate()),
            ),
            FilterCondition::Empty => FilterCondition::Empty,
        }
    }
}

/// Whether a tree contains no `Between` leaf.
pub open spec fn no_between(c: CondV) -> bool
    decreases c,
{
    match c {
        CondV::Operator(_, op) => !(op is Between),
        CondV::Or(l, r) => no_between(*l) && no_between(*r),
        CondV::And(l, r) => no_between(*l) && no_between(*r),
        CondV::Empty => true,
    }
}

/// Double negation is the identity on every operator except `Between`:
/// negating any other operator yields a single operator, and negating that
/// one again restores the original.
pub proof fn lemma_negate_op_involutive(op: OpV)
    requires
        !(op is Between),
    ensures
        spec_negate_op(op).1 is None,
        spec_negate_op(spec_negate_op(op).0) == (op, None::<OpV>),
{
}

/// `Between` negates to the two operators whose disjunction the tree
/// rewrite emits: strictly below the range or strictly above it.
pub proof fn lemma_negate_between(fid: FieldId, a: NumV, b: NumV)
    ensures
        spec_negate(CondV::Operator(fid, OpV::Between(a, b))) == CondV::Or(
            Box::new(CondV::Operator(fid, OpV::LowerThan(a))),
            Box::new(CondV::Operator(fid, OpV::GreaterThan(b))),
        ),
{
}

/// Double negation is the identity on every tree without a `Between`
/// leaf.
pub proof fn lemma_negate_involutive(c: CondV)
    requires
        no_between(c),
    ensures
        spec_negate(spec_negate(c)) == c,
    decreases c,
{
    match c {
        CondV::Operator(fid, op) => {
            lemma_negate_op_involutive(op);
        },
        CondV::Or(l, r) => {
            lemma_negate_involutive(*l);
            lemma_negate_involutive(*r);
        },
        CondV::And(l, r) => {
            lemma_negate_involutive(*l);
            lemma_negate_involutive(*r);
        },
        CondV::Empty => {},
    }
}

} // verus!
