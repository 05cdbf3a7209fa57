//! A verified parser for a small boolean filter language over document
//! attributes: comparisons, numeric ranges, and geographic radius
//! constraints. A raw filter string is turned into a condition tree of
//! `And`/`Or` nodes over leaf comparisons, with attribute names resolved
//! against a caller-supplied schema and `NOT` eliminated by a De Morgan
//! rewrite during parsing.

pub mod condition;
pub mod error;
pub mod laws;
pub mod number;
pub mod parser;
pub mod schema;
pub mod text;

use crate::condition::{CondV, FilterCondition};
use crate::error::{ErrV, FilterError};
use crate::parser::{spec_expression, PRes};
use crate::schema::{CtxV, ParseContext};
use vstd::prelude::*;

verus! {

/// A field identifier: the small integer the execution engine uses in
/// place of an attribute name.
pub type FieldId = u16;

/// One fragment of a combined filter: either a single filter string, or
/// several alternatives to be joined with implicit `OR`.
#[derive(Debug, PartialEq)]
pub enum FilterFragment {
    /// One filter string.
    Single(String),
    /// Filter strings combined with implicit `OR`.
    AnyOf(Vec<String>),
}

/// The model of a [`FilterFragment`].
pub enum FragV {
    Single(Seq<char>),
    AnyOf(Seq<Seq<char>>),
}

/// The models of a run of strings.
pub open spec fn strs_view(v: Seq<String>) -> Seq<Seq<char>> {
    Seq::new(v.len(), |i: int| v[i]@)
}

impl View for FilterFragment {
    type V = FragV;

    open spec fn view(&self) -> FragV {
        match self {
            FilterFragment::Single(s) => FragV::Single(s@),
            FilterFragment::AnyOf(v) => FragV::AnyOf(strs_view(v@)),
        }
    }
}

/// The models of a run of fragments.
pub open spec fn frags_view(v: Seq<FilterFragment>) -> Seq<FragV> {
    Seq::new(v.len(), |i: int| v[i]@)
}

/// The model of an optional tree.
pub open spec fn opt_cond_view(o: Option<FilterCondition>) -> Option<CondV> {
    match o {
        Some(c) => Some(c@),
        None => None,
    }
}

/// Joins one more conjunct onto an accumulated tree.
pub open spec fn and_acc(acc: Option<CondV>, c: CondV) -> Option<CondV> {
    match acc {
        Some(a) => Some(CondV::And(Box::new(a), Box::new(c))),
        None => Some(c),
    }
}

/// Joins one more disjunct onto an accumulated tree.
pub open spec fn or_acc(acc: Option<CondV>, c: CondV) -> Option<CondV> {
    match acc {
        Some(a) => Some(CondV::Or(Box::new(a), Box::new(c))),
        None => Some(c),
    }
}

/// The left-associative `OR` fold of an inner fragment list: each string
/// parses with the full grammar, and the first failure aborts.
pub open spec fn spec_ors(ctx: CtxV, ss: Seq<Seq<char>>, acc: Option<CondV>) -> Result<
    Option<CondV>,
    ErrV,
>
    decreases ss.len(),
{
    if ss.len() == 0 {
        Ok(acc)
    } else {
        match spec_expression(ctx, ss[0], 0) {
            PRes::Parsed(p, c) => spec_ors(ctx, ss.drop_first(), or_acc(acc, c)),
            PRes::Failed(h, e) => Err(e),
        }
    }
}

/// The `AND`-of-`OR`s fold over filter fragments: outer fragments join
/// with implicit `AND`, inner lists with implicit `OR`, using the same
/// node constructors as the grammar itself; the first failing fragment
/// aborts, and an empty inner list contributes nothing.
pub open spec fn spec_from_array_rec(ctx: CtxV, frags: Seq<FragV>, acc: Option<CondV>) -> Result<
    Option<CondV>,
    ErrV,
>
    decreases frags.len(),
{
    if frags.len() == 0 {
        Ok(acc)
    } else {
        match frags[0] {
            FragV::Single(s0) => match spec_expression(ctx, s0, 0) {
                PRes::Parsed(p, c) => spec_from_array_rec(ctx, frags.drop_first(), and_acc(acc, c)),
                PRes::Failed(h, e) => Err(e),
            },
            FragV::AnyOf(ss) => match spec_ors(ctx, ss, None) {
                Result::Err(e) => Err(e),
                Result::Ok(None) => spec_from_array_rec(ctx, frags.drop_first(), acc),
                Result::Ok(Some(c)) => spec_from_array_rec(
                    ctx,
                    frags.drop_first(),
                    and_acc(acc, c),
                ),
            },
        }
    }
}

/// What [`FilterCondition::from_array`] returns.
pub open spec fn spec_from_array(ctx: CtxV, frags: Seq<FragV>) -> Result<Option<CondV>, ErrV> {
    spec_from_array_rec(ctx, frags, None)
}

/// Folds one inner fragment list with implicit `OR`, per [`spec_ors`].
fn parse_ors(ctx: &ParseContext, v: &Vec<String>) -> (r: Result<
    Option<FilterCondition>,
    FilterError,
>)
    requires
        ctx.wf(),
    ensures
        match r {
            Ok(o) => spec_ors(ctx@, strs_view(v@), None) == Result::<Option<CondV>, ErrV>::Ok(
                opt_cond_view(o),
            ),
            Err(e) => spec_ors(ctx@, strs_view(v@), None) == Result::<Option<CondV>, ErrV>::Err(
                e@,
            ),
        },
{
    let ghost ss = strs_view(v@);
    let mut ors: Option<FilterCondition> = None;
    let mut j: usize = 0;
    proof {
        assert(ss.skip(0) =~= ss);
    }
    while j < v.len()
        invariant
            ctx.wf(),
            j <= v@.len(),
            ss == strs_view(v@),
            spec_ors(ctx@, ss, None) == spec_ors(ctx@, ss.skip(j as int), opt_cond_view(ors)),
        decreases v@.len() - j,
    {
        let ghost orest = ss.skip(j as int);
        let ghost ors0 = opt_cond_view(ors);
        proof {
            assert(orest[0] == v@[j as int]@);
            assert(orest.drop_first() =~= ss.skip(j + 1));
        }
        let c = match FilterCondition::from_str(ctx, v[j].as_str()) {
            Ok(c) => c,
            Err(e) => {
                proof {
                    let h = choose|h: bool|
                        spec_expression(ctx@, v@[j as int]@, 0) == PRes::<CondV>::Failed(h, e@);
                    assert(spec_expression(ctx@, v@[j as int]@, 0) == PRes::<CondV>::Failed(
                        h,
                        e@,
                    ));
                }
                return Err(e);
            },
        };
        proof {
            let p = choose|p: int| spec_expression(ctx@, v@[j as int]@, 0) == PRes::Parsed(p, c@);
            assert(spec_expression(ctx@, v@[j as int]@, 0) == PRes::Parsed(p, c@));
            assert(spec_ors(ctx@, orest, ors0) == spec_ors(ctx@, ss.skip(j + 1), or_acc(ors0, c@)));
        }
        ors = match ors {
            Some(o) => Some(FilterCondition::Or(Box::new(o), Box::new(c))),
            None => Some(c),
        };
        proof {
            assert(opt_cond_view(ors) == or_acc(ors0, c@));
        }
        j = j + 1;
    }
    proof {
        assert(ss.skip(v@.len() as int) =~= Seq::<Seq<char>>::empty());
    }
    Ok(ors)
}

impl FilterCondition {
    /// Parses one filter string into its condition tree, per
    /// [`spec_expression`]; input after the recognized expression is left
    /// unread.
    pub fn from_str(ctx: &ParseContext, input: &str) -> (r: Result<FilterCondition, FilterError>)
        requires
            ctx.wf(),
        ensures
            match r {
                Ok(c) => exists|p: int| spec_expression(ctx@, input@, 0) == PRes::Parsed(p, c@),
                Err(e) => exists|h: bool|
                    spec_expression(ctx@, input@, 0) == PRes::<CondV>::Failed(h, e@),
            },
    {
        match ctx.parse_expression(input) {
            Ok((p, c)) => {
                proof {
                    assert(spec_expression(ctx@, input@, 0) == PRes::Parsed(p as int, c@));
                }
                Ok(c)
            },
            Err(e) => Err(e),
        }
    }

    /// Combines filter fragments into one tree — outer fragments with
    /// implicit `AND`, inner lists with implicit `OR` — exactly as
    /// [`spec_from_array`] folds them. `None` when no fragment
    /// contributed a tree.
    #[verifier::rlimit(100)]
    pub fn from_array(ctx: &ParseContext, fragments: Vec<FilterFragment>) -> (r: Result<
        Option<FilterCondition>,
        FilterError,
    >)
        requires
            ctx.wf(),
        ensures
            match r {
                Ok(o) => spec_from_array(ctx@, frags_view(fragments@)) == Result::<
                    Option<CondV>,
                    ErrV,
                >::Ok(opt_cond_view(o)),
                Err(e) => spec_from_array(ctx@, frags_view(fragments@)) == Result::<
                    Option<CondV>,
                    ErrV,
                >::Err(e@),
            },
    {
        let ghost allfrags = frags_view(fragments@);
        let mut acc: Option<FilterCondition> = None;
        let mut i: usize = 0;
        proof {
            assert(allfrags.skip(0) =~= allfrags);
        }
        while i < fragments.len()
            invariant
                ctx.wf(),
                i <= fragments@.len(),
                allfrags == frags_view(fragments@),
                spec_from_array_rec(ctx@, allfrags, None) == spec_from_array_rec(
                    ctx@,
                    allfrags.skip(i as int),
                    opt_cond_view(acc),
                ),
            decreases fragments@.len() - i,
        {
            let ghost rest = allfrags.skip(i as int);
            proof {
                assert(rest[0] == fragments@[i as int]@);
                assert(rest.drop_first() =~= allfrags.skip(i + 1));
            }
            match &fragments[i] {
                FilterFragment::Single(s) => {
                    let c = match FilterCondition::from_str(ctx, s.as_str()) {
                        Ok(c) => c,
                        Err(e) => {
                            proof {
                                let h = choose|h: bool|
                                    spec_expression(ctx@, s@, 0) == PRes::<CondV>::Failed(h, e@);
                                assert(spec_expression(ctx@, s@, 0) == PRes::<CondV>::Failed(
                                    h,
                                    e@,
                                ));
                            }
                            return Err(e);
                        },
                    };
                    proof {
                        let p = choose|p: int|
                            spec_expression(ctx@, s@, 0) == PRes::Parsed(p, c@);
                        assert(spec_expression(ctx@, s@, 0) == PRes::Parsed(p, c@));
                    }
                    acc = match acc {
                        Some(a) => Some(
                            FilterCondition::And(Box::new(a), Box::new(c)),
                        ),
                        None => Some(c),
                    };
                },
                FilterFragment::AnyOf(v) => {
                    let ors = match parse_ors(ctx, v) {
                        Ok(o) => o,
                        Err(e) => {
                            return Err(e);
                        },
                    };
                    match ors {
                        Some(c) => {
                            acc = match acc {
                                Some(a) => Some(
                                    FilterCondition::And(Box::new(a), Box::new(c)),
                                ),
                                None => Some(c),
                            };
                        },
                        None => {},
                    }
                },
            }
            i = i + 1;
        }
        proof {
            assert(allfrags.skip(fragments@.len() as int) =~= Seq::<FragV>::empty());
        }
        Ok(acc)
    }
}

} // verus!
