//! Laws of the parser as a whole, proved over the mathematical grammar.

use crate::condition::{spec_negate, spec_negate_op, CondV, OpV};
use crate::error::ErrV;
use crate::number::spec_number;
use crate::parser::{
    geo_field,
    is_key_char,
    is_prefix,
    is_space,
    key_count,
    skip_ws,
    spec_and,
    spec_and_rest,
    spec_cmp_tag,
    spec_condition,
    spec_expression,
    spec_not,
    spec_or,
    spec_or_rest,
    spec_primary,
    spec_value,
    till_count,
    ws_count,
    CmpOp,
    PRes,
};
use crate::schema::{has_name, spec_resolve, CtxV};
use crate::text::lower_of;
use vstd::prelude::*;

verus! {

/// Whether a tree is free of the degenerate `Empty` node.
pub open spec fn no_empty(c: CondV) -> bool
    decreases c,
{
    match c {
        CondV::Operator(_, _) => true,
        CondV::Or(l, r) => no_empty(*l) && no_empty(*r),
        CondV::And(l, r) => no_empty(*l) && no_empty(*r),
        CondV::Empty => false,
    }
}

/// Whether a production's outcome, when it is a tree, is free of `Empty`.
pub open spec fn parsed_no_empty(r: PRes<CondV>) -> bool {
    match r {
        PRes::Parsed(p, c) => no_empty(c),
        PRes::Failed(h, e) => true,
    }
}

/// The De Morgan rewrite never introduces an `Empty` node.
pub proof fn lemma_negate_no_empty(c: CondV)
    requires
        no_empty(c),
    ensures
        no_empty(spec_negate(c)),
    decreases c,
{
    match c {
        CondV::Operator(fid, op) => {
            reveal_with_fuel(no_empty, 3);
            let r = spec_negate_op(op);
            assert(r == (r.0, r.1));
            match r.1 {
                Some(o2) => {},
                None => {},
            }
        },
        CondV::Or(l, r) => {
            lemma_negate_no_empty(*l);
            lemma_negate_no_empty(*r);
        },
        CondV::And(l, r) => {
            lemma_negate_no_empty(*l);
            lemma_negate_no_empty(*r);
        },
        CondV::Empty => {},
    }
}

proof fn lemma_skip_ws_le_law(s: Seq<char>, pos: int)
    requires
        0 <= pos <= s.len(),
    ensures
        skip_ws(s, pos) <= s.len(),
    decreases s.len() - pos,
{
    if pos < s.len() && is_space(s[pos]) {
        lemma_skip_ws_le_law(s, pos + 1);
        assert(skip_ws(s, pos) == skip_ws(s, pos + 1));
    }
}

proof fn lemma_primary_no_empty(ctx: CtxV, s: Seq<char>, pos: int)
    requires
        has_name(ctx.names, geo_field()),
    ensures
        parsed_no_empty(spec_primary(ctx, s, pos)),
    decreases s.len() - pos, 0int,
{
    let p = skip_ws(s, pos);
    if p < s.len() && s[p] == '(' {
        lemma_or_no_empty(ctx, s, p + 1);
    }
}

proof fn lemma_not_no_empty(ctx: CtxV, s: Seq<char>, pos: int)
    requires
        has_name(ctx.names, geo_field()),
    ensures
        parsed_no_empty(spec_not(ctx, s, pos)),
    decreases s.len() - pos, 1int,
{
    if 0 <= pos && pos < s.len() && s[pos] == '!' {
        lemma_not_no_empty(ctx, s, pos + 1);
        match spec_not(ctx, s, pos + 1) {
            PRes::Parsed(q, node) => {
                lemma_negate_no_empty(node);
            },
            PRes::Failed(h, e) => {
                if !h {
                    lemma_primary_no_empty(ctx, s, pos);
                }
            },
        }
    } else if is_prefix(s, pos, seq!['N', 'O', 'T']) {
        lemma_not_no_empty(ctx, s, pos + 3);
        match spec_not(ctx, s, pos + 3) {
            PRes::Parsed(q, node) => {
                lemma_negate_no_empty(node);
            },
            PRes::Failed(h, e) => {
                if !h {
                    lemma_primary_no_empty(ctx, s, pos);
                }
            },
        }
    } else {
        lemma_primary_no_empty(ctx, s, pos);
    }
}

#[verifier::rlimit(50)]
proof fn lemma_and_rest_no_empty(ctx: CtxV, s: Seq<char>, pos: int, acc: CondV)
    requires
        has_name(ctx.names, geo_field()),
        no_empty(acc),
    ensures
        parsed_no_empty(spec_and_rest(ctx, s, pos, acc)),
    decreases s.len() - pos, 0int,
{
    let p = skip_ws(s, pos);
    if is_prefix(s, p, seq!['A', 'N', 'D']) {
        assert(seq!['A', 'N', 'D'].len() == 3);
        lemma_skip_ws_le_law(s, p + 3);
        let p2 = skip_ws(s, p + 3);
        lemma_not_no_empty(ctx, s, p2);
        match spec_not(ctx, s, p2) {
            PRes::Parsed(q2, node2) => {
                if pos < q2 && q2 <= s.len() {
                    lemma_and_rest_no_empty(
                        ctx,
                        s,
                        q2,
                        CondV::And(Box::new(acc), Box::new(node2)),
                    );
                }
            },
            PRes::Failed(h, e) => {},
        }
    }
}

proof fn lemma_and_no_empty(ctx: CtxV, s: Seq<char>, pos: int)
    requires
        has_name(ctx.names, geo_field()),
    ensures
        parsed_no_empty(spec_and(ctx, s, pos)),
    decreases s.len() - pos, 2int,
{
    lemma_not_no_empty(ctx, s, pos);
    match spec_not(ctx, s, pos) {
        PRes::Parsed(q, node) => {
            if pos < q && q <= s.len() {
                lemma_and_rest_no_empty(ctx, s, q, node);
            }
        },
        PRes::Failed(h, e) => {},
    }
}

#[verifier::rlimit(50)]
proof fn lemma_or_rest_no_empty(ctx: CtxV, s: Seq<char>, pos: int, acc: CondV)
    requires
        has_name(ctx.names, geo_field()),
        no_empty(acc),
    ensures
        parsed_no_empty(spec_or_rest(ctx, s, pos, acc)),
    decreases s.len() - pos, 1int,
{
    let p = skip_ws(s, pos);
    if is_prefix(s, p, seq!['O', 'R']) {
        assert(seq!['O', 'R'].len() == 2);
        lemma_skip_ws_le_law(s, p + 2);
        let p2 = skip_ws(s, p + 2);
        lemma_and_no_empty(ctx, s, p2);
        match spec_and(ctx, s, p2) {
            PRes::Parsed(q2, node2) => {
                if pos < q2 && q2 <= s.len() {
                    lemma_or_rest_no_empty(
                        ctx,
                        s,
                        q2,
                        CondV::Or(Box::new(acc), Box::new(node2)),
                    );
                }
            },
            PRes::Failed(h, e) => {},
        }
    }
}

proof fn lemma_or_no_empty(ctx: CtxV, s: Seq<char>, pos: int)
    requires
        has_name(ctx.names, geo_field()),
    ensures
        parsed_no_empty(spec_or(ctx, s, pos)),
    decreases s.len() - pos, 3int,
{
    lemma_and_no_empty(ctx, s, pos);
    match spec_and(ctx, s, pos) {
        PRes::Parsed(q, node) => {
            if pos < q && q <= s.len() {
                lemma_or_rest_no_empty(ctx, s, q, node);
            }
        },
        PRes::Failed(h, e) => {},
    }
}

/// An unknown or unfilterable attribute never yields a silently empty
/// tree. As long as the schema knows the reserved geo field — the one
/// source of the degenerate `Empty` node — a successful parse yields a
/// tree free of `Empty`; an unresolvable attribute instead fails the whole
/// parse with its `AttributeNotFilterable` error, as the grammar's leaf
/// productions state.
pub proof fn lemma_no_silent_empty(ctx: CtxV, s: Seq<char>, pos: int)
    requires
        has_name(ctx.names, geo_field()),
    ensures
        parsed_no_empty(spec_expression(ctx, s, pos)),
{
    lemma_or_no_empty(ctx, s, pos);
}

/// The attribute-and-equals prefix written ahead of each comparand
/// spelling in the quote-style law.
pub open spec fn attr_eq_prefix() -> Seq<char> {
    seq!['a', 't', 't', 'r', ' ', '=', ' ']
}

/// Two outcomes that agree up to the position consumed: the same tree, or
/// the same failure.
pub open spec fn same_outcome(a: PRes<CondV>, b: PRes<CondV>) -> bool {
    match (a, b) {
        (PRes::Parsed(p1, c1), PRes::Parsed(p2, c2)) => c1 == c2,
        (PRes::Failed(h1, e1), PRes::Failed(h2, e2)) => h1 == h2 && e1 == e2,
        _ => false,
    }
}

proof fn lemma_key_run(s: Seq<char>, pos: int, n: int)
    requires
        0 <= pos,
        0 <= n,
        pos + n <= s.len(),
        forall|i: int| 0 <= i < n ==> is_key_char(#[trigger] s[pos + i]),
        pos + n == s.len() || !is_key_char(s[pos + n]),
    ensures
        key_count(s, pos) == n,
    decreases n,
{
    if n > 0 {
        assert(is_key_char(s[pos + 0]));
        assert forall|i: int| 0 <= i < n - 1 implies is_key_char(#[trigger] s[pos + 1 + i]) by {
            assert(is_key_char(s[pos + (i + 1)]));
        }
        lemma_key_run(s, pos + 1, n - 1);
    }
}

proof fn lemma_till_run(s: Seq<char>, pos: int, n: int, stop: char)
    requires
        0 <= pos,
        0 <= n,
        pos + n < s.len(),
        forall|i: int| 0 <= i < n ==> #[trigger] s[pos + i] != stop,
        s[pos + n] == stop,
    ensures
        till_count(s, pos, stop) == n,
    decreases n,
{
    if n > 0 {
        assert(s[pos + 0] != stop);
        assert forall|i: int| 0 <= i < n - 1 implies #[trigger] s[pos + 1 + i] != stop by {
            assert(s[pos + (i + 1)] != stop);
        }
        lemma_till_run(s, pos + 1, n - 1, stop);
    }
}

/// When a comparison condition spans the whole input and starts with an
/// ordinary attribute character, the full expression grammar returns
/// exactly that condition's outcome.
#[verifier::rlimit(100)]
proof fn lemma_expr_is_condition(ctx: CtxV, s: Seq<char>)
    requires
        s.len() > 0,
        !is_space(s[0]),
        s[0] != '!',
        s[0] != '(',
        !is_prefix(s, 0, seq!['N', 'O', 'T']),
        match spec_condition(ctx, s, 0) {
            PRes::Parsed(p, c) => p == s.len(),
            PRes::Failed(h, e) => h,
        },
    ensures
        same_outcome(spec_expression(ctx, s, 0), spec_condition(ctx, s, 0)),
{
    assert(skip_ws(s, 0) == 0);
    match spec_condition(ctx, s, 0) {
        PRes::Parsed(p, c) => {
            assert(spec_primary(ctx, s, 0) == PRes::Parsed(p, c));
            assert(spec_not(ctx, s, 0) == PRes::Parsed(p, c));
            assert(skip_ws(s, p) == p);
            assert(!is_prefix(s, p, seq!['A', 'N', 'D'])) by {
                assert(seq!['A', 'N', 'D'].len() == 3);
            }
            assert(spec_and_rest(ctx, s, p, c) == PRes::Parsed(p, c));
            assert(spec_and(ctx, s, 0) == PRes::Parsed(p, c));
            assert(!is_prefix(s, p, seq!['O', 'R'])) by {
                assert(seq!['O', 'R'].len() == 2);
            }
            assert(spec_or_rest(ctx, s, p, c) == PRes::Parsed(p, c));
            assert(spec_or(ctx, s, 0) == PRes::Parsed(p, c));
        },
        PRes::Failed(h, e) => {
            assert(spec_primary(ctx, s, 0) == PRes::<CondV>::Failed(true, e));
            assert(spec_not(ctx, s, 0) == PRes::<CondV>::Failed(true, e));
            assert(spec_and(ctx, s, 0) == PRes::<CondV>::Failed(true, e));
            assert(spec_or(ctx, s, 0) == PRes::<CondV>::Failed(true, e));
        },
    }
}

/// What an equality condition of the shape `attr = <comparand>` yields,
/// given how the comparand token reads.
proof fn lemma_condition_shape(ctx: CtxV, s: Seq<char>, x: Seq<char>)
    requires
        s.len() >= 8,
        forall|i: int| 0 <= i < 7 ==> s[i] == attr_eq_prefix()[i],
        spec_value(s, 6) == PRes::<Seq<char>>::Parsed(s.len() as int, x),
    ensures
        spec_condition(ctx, s, 0) == (match spec_resolve(ctx, seq!['a', 't', 't', 'r']) {
            Some(fid) => PRes::<CondV>::Parsed(
                s.len() as int,
                CondV::Operator(fid, OpV::Equal(spec_number(x), lower_of(x))),
            ),
            None => PRes::<CondV>::Failed(
                true,
                ErrV::AttributeNotFilterable(seq!['a', 't', 't', 'r']),
            ),
        }),
{
    reveal_with_fuel(ws_count, 3);
    assert(s[0] == 'a' && s[1] == 't' && s[2] == 't' && s[3] == 'r' && s[4] == ' ' && s[5] == '='
        && s[6] == ' ');
    assert(skip_ws(s, 0) == 0);
    lemma_key_run(s, 0, 4);
    assert(s.subrange(0, 4) =~= seq!['a', 't', 't', 'r']);
    assert(skip_ws(s, 4) == 5);
    assert(spec_value(s, 0) == PRes::<Seq<char>>::Parsed(5, seq!['a', 't', 't', 'r']));
    assert(!is_prefix(s, 5, seq!['<', '='])) by {
        assert(seq!['<', '='][0] == '<');
    }
    assert(!is_prefix(s, 5, seq!['>', '='])) by {
        assert(seq!['>', '='][0] == '>');
    }
    assert(!is_prefix(s, 5, seq!['!', '='])) by {
        assert(seq!['!', '='][0] == '!');
    }
    assert(!is_prefix(s, 5, seq!['<'])) by {
        assert(seq!['<'][0] == '<');
    }
    assert(!is_prefix(s, 5, seq!['>'])) by {
        assert(seq!['>'][0] == '>');
    }
    assert(is_prefix(s, 5, seq!['='])) by {
        assert(seq!['='].len() == 1 && seq!['='][0] == '=');
    }
    assert(spec_cmp_tag(s, 5) == Some((CmpOp::Eq, 6int)));
}

/// The single outcome every spelling of `attr = x` shares (the position
/// in a success is immaterial under [`same_outcome`]).
spec fn attr_eq_outcome(ctx: CtxV, x: Seq<char>) -> PRes<CondV> {
    match spec_resolve(ctx, seq!['a', 't', 't', 'r']) {
        Some(fid) => PRes::Parsed(
            0,
            CondV::Operator(fid, OpV::Equal(spec_number(x), lower_of(x))),
        ),
        None => PRes::Failed(true, ErrV::AttributeNotFilterable(seq!['a', 't', 't', 'r'])),
    }
}

/// Any spelling whose comparand token reads as `x` parses to the shared
/// outcome.
#[verifier::rlimit(100)]
proof fn lemma_attr_eq_spelling(ctx: CtxV, s: Seq<char>, x: Seq<char>)
    requires
        s.len() >= 8,
        forall|i: int| 0 <= i < 7 ==> s[i] == attr_eq_prefix()[i],
        spec_value(s, 6) == PRes::<Seq<char>>::Parsed(s.len() as int, x),
    ensures
        same_outcome(spec_expression(ctx, s, 0), attr_eq_outcome(ctx, x)),
{
    lemma_condition_shape(ctx, s, x);
    assert(s[0] == 'a' && !is_space(s[0]) && s[0] != '!' && s[0] != '(');
    assert(!is_prefix(s, 0, seq!['N', 'O', 'T'])) by {
        assert(seq!['N', 'O', 'T'][0] == 'N');
    }
    lemma_expr_is_condition(ctx, s);
}

/// The bare spelling of a word comparand reads as that word.
proof fn lemma_value_bare(x: Seq<char>)
    requires
        x.len() > 0,
        forall|i: int| 0 <= i < x.len() ==> is_key_char(x[i]),
    ensures
        spec_value(attr_eq_prefix() + x, 6) == PRes::<Seq<char>>::Parsed(
            (attr_eq_prefix() + x).len() as int,
            x,
        ),
{
    let s = attr_eq_prefix() + x;
    reveal_with_fuel(ws_count, 3);
    assert(s[6] == ' ');
    assert(s[7] == x[0] && is_key_char(s[7]));
    assert(!is_space(s[7]));
    assert(skip_ws(s, 6) == 7);
    assert(s[7] != '\'' && s[7] != '"');
    assert(forall|i: int| 0 <= i < x.len() ==> s[7 + i] == x[i]);
    lemma_key_run(s, 7, x.len() as int);
    assert(s.subrange(7, 7 + x.len() as int) =~= x);
    assert(skip_ws(s, s.len() as int) == s.len());
}

/// A quoted spelling of a quote-free comparand reads as that comparand.
proof fn lemma_value_quoted(x: Seq<char>, quote: char)
    requires
        quote == '\'' || quote == '"',
        forall|i: int| 0 <= i < x.len() ==> is_key_char(x[i]),
    ensures
        spec_value(attr_eq_prefix() + seq![quote] + x + seq![quote], 6)
            == PRes::<Seq<char>>::Parsed(
            (attr_eq_prefix() + seq![quote] + x + seq![quote]).len() as int,
            x,
        ),
{
    let s = attr_eq_prefix() + seq![quote] + x + seq![quote];
    let n = x.len() as int;
    reveal_with_fuel(ws_count, 3);
    assert(s.len() == 9 + n);
    assert(s[6] == ' ');
    assert(s[7] == quote);
    assert(skip_ws(s, 6) == 7);
    assert(forall|i: int| 0 <= i < n ==> s[8 + i] == x[i]);
    assert(s[8 + n] == quote);
    assert(forall|i: int| 0 <= i < n ==> #[trigger] s[8 + i] != quote) by {
        assert(forall|i: int| 0 <= i < n ==> is_key_char(#[trigger] x[i]));
    }
    lemma_till_run(s, 8, n, quote);
    assert(s.subrange(8, 8 + n) =~= x);
    assert(skip_ws(s, s.len() as int) == s.len());
}

/// One comparand, three spellings, the same tree: for a nonempty word
/// `x`, the filters `attr = x`, `attr = 'x'` and `attr = "x"` parse to
/// identical outcomes — the same `Equal` condition when `attr` resolves,
/// and the same failure when it does not.
#[verifier::rlimit(100)]
pub proof fn lemma_quote_styles_agree(ctx: CtxV, x: Seq<char>)
    requires
        x.len() > 0,
        forall|i: int| 0 <= i < x.len() ==> is_key_char(x[i]),
    ensures
        same_outcome(
            spec_expression(ctx, attr_eq_prefix() + x, 0),
            spec_expression(ctx, attr_eq_prefix() + seq!['\''] + x + seq!['\''], 0),
        ),
        same_outcome(
            spec_expression(ctx, attr_eq_prefix() + seq!['\''] + x + seq!['\''], 0),
            spec_expression(ctx, attr_eq_prefix() + seq!['"'] + x + seq!['"'], 0),
        ),
{
    let s1 = attr_eq_prefix() + x;
    let s2 = attr_eq_prefix() + seq!['\''] + x + seq!['\''];
    let s3 = attr_eq_prefix() + seq!['"'] + x + seq!['"'];
    lemma_value_bare(x);
    lemma_value_quoted(x, '\'');
    lemma_value_quoted(x, '"');
    assert(forall|i: int| 0 <= i < 7 ==> s1[i] == attr_eq_prefix()[i]);
    assert(forall|i: int| 0 <= i < 7 ==> s2[i] == attr_eq_prefix()[i]);
    assert(forall|i: int| 0 <= i < 7 ==> s3[i] == attr_eq_prefix()[i]);
    lemma_attr_eq_spelling(ctx, s1, x);
    lemma_attr_eq_spelling(ctx, s2, x);
    lemma_attr_eq_spelling(ctx, s3, x);
}

/// When a possibly negated clause spans the whole input, the full
/// expression grammar returns exactly that clause's outcome.
proof fn lemma_expr_is_not_clause(ctx: CtxV, s: Seq<char>)
    requires
        match spec_not(ctx, s, 0) {
            PRes::Parsed(p, c) => p == s.len() && s.len() > 0,
            PRes::Failed(h, e) => h,
        },
    ensures
        same_outcome(spec_expression(ctx, s, 0), spec_not(ctx, s, 0)),
{
    match spec_not(ctx, s, 0) {
        PRes::Parsed(p, c) => {
            assert(skip_ws(s, p) == p);
            assert(!is_prefix(s, p, seq!['A', 'N', 'D'])) by {
                assert(seq!['A', 'N', 'D'].len() == 3);
            }
            assert(spec_and_rest(ctx, s, p, c) == PRes::Parsed(p, c));
            assert(spec_and(ctx, s, 0) == PRes::Parsed(p, c));
            assert(!is_prefix(s, p, seq!['O', 'R'])) by {
                assert(seq!['O', 'R'].len() == 2);
            }
            assert(spec_or_rest(ctx, s, p, c) == PRes::Parsed(p, c));
            assert(spec_or(ctx, s, 0) == PRes::Parsed(p, c));
        },
        PRes::Failed(h, e) => {
            assert(spec_and(ctx, s, 0) == PRes::<CondV>::Failed(true, e));
            assert(spec_or(ctx, s, 0) == PRes::<CondV>::Failed(true, e));
        },
    }
}

/// The input `NOT attr < ` ahead of a numeric comparand.
pub open spec fn not_lt_prefix() -> Seq<char> {
    seq!['N', 'O', 'T', ' ', 'a', 't', 't', 'r', ' ', '<', ' ']
}

/// What the comparison behind the `NOT` keyword of
/// [`not_lt_prefix`]`+ x` yields.
#[verifier::rlimit(100)]
proof fn lemma_not_lt_condition(ctx: CtxV, x: Seq<char>)
    requires
        x.len() > 0,
        forall|i: int| 0 <= i < x.len() ==> is_key_char(x[i]),
    ensures
        spec_condition(ctx, not_lt_prefix() + x, 3) == (match spec_resolve(
            ctx,
            seq!['a', 't', 't', 'r'],
        ) {
            Some(fid) => match spec_number(x) {
                Some(nv) => PRes::<CondV>::Parsed(
                    (not_lt_prefix() + x).len() as int,
                    CondV::Operator(fid, OpV::LowerThan(nv)),
                ),
                None => PRes::<CondV>::Failed(true, ErrV::InvalidNumber(Some(x[0]))),
            },
            None => PRes::<CondV>::Failed(
                true,
                ErrV::AttributeNotFilterable(seq!['a', 't', 't', 'r']),
            ),
        }),
{
    let s = not_lt_prefix() + x;
    let n = x.len() as int;
    reveal_with_fuel(ws_count, 3);
    assert(s[0] == 'N' && s[1] == 'O' && s[2] == 'T' && s[3] == ' ' && s[4] == 'a' && s[5] == 't'
        && s[6] == 't' && s[7] == 'r' && s[8] == ' ' && s[9] == '<' && s[10] == ' ');
    assert(s.len() == 11 + n);
    assert(skip_ws(s, 3) == 4);
    assert forall|i: int| 0 <= i < 4 implies is_key_char(#[trigger] s[4 + i]) by {}
    lemma_key_run(s, 4, 4);
    assert(s.subrange(4, 8) =~= seq!['a', 't', 't', 'r']);
    assert(skip_ws(s, 8) == 9);
    assert(spec_value(s, 3) == PRes::<Seq<char>>::Parsed(9, seq!['a', 't', 't', 'r']));
    assert(!is_prefix(s, 9, seq!['<', '='])) by {
        assert(seq!['<', '='][1] == '=');
    }
    assert(!is_prefix(s, 9, seq!['>', '='])) by {
        assert(seq!['>', '='][0] == '>');
    }
    assert(!is_prefix(s, 9, seq!['!', '='])) by {
        assert(seq!['!', '='][0] == '!');
    }
    assert(is_prefix(s, 9, seq!['<'])) by {
        assert(seq!['<'].len() == 1 && seq!['<'][0] == '<');
    }
    assert(spec_cmp_tag(s, 9) == Some((CmpOp::Lt, 10int)));
    assert(s[11] == x[0] && is_key_char(s[11]));
    assert(skip_ws(s, 10) == 11);
    assert(s[11] != '\'' && s[11] != '"');
    assert(forall|i: int| 0 <= i < n ==> s[11 + i] == x[i]);
    lemma_key_run(s, 11, n);
    assert(s.subrange(11, 11 + n) =~= x);
    assert(skip_ws(s, s.len() as int) == s.len());
    assert(spec_value(s, 10) == PRes::<Seq<char>>::Parsed(s.len() as int, x));
}

/// A clause that is a bare comparison: when no negation keyword and no
/// parenthesis opens at `pos`, the clause is the comparison itself, a
/// hard failure passing through.
#[verifier::rlimit(100)]
proof fn lemma_clause_is_condition(ctx: CtxV, s: Seq<char>, pos: int)
    requires
        0 <= pos < s.len(),
        s[pos] != '!',
        !is_prefix(s, pos, seq!['N', 'O', 'T']),
        skip_ws(s, pos) >= s.len() || s[skip_ws(s, pos)] != '(',
        match spec_condition(ctx, s, pos) {
            PRes::Parsed(p, c) => true,
            PRes::Failed(h, e) => h,
        },
    ensures
        spec_not(ctx, s, pos) == (match spec_condition(ctx, s, pos) {
            PRes::Parsed(p, c) => PRes::Parsed(p, c),
            PRes::Failed(h, e) => PRes::<CondV>::Failed(true, e),
        }),
{
    match spec_condition(ctx, s, pos) {
        PRes::Parsed(p, c) => {
            assert(spec_primary(ctx, s, pos) == PRes::Parsed(p, c));
        },
        PRes::Failed(h, e) => {
            assert(spec_primary(ctx, s, pos) == PRes::<CondV>::Failed(true, e));
        },
    }
}

/// The clause behind the `NOT` keyword, lifted through `primary`.
#[verifier::rlimit(100)]
proof fn lemma_not_lt_clause(ctx: CtxV, x: Seq<char>)
    requires
        x.len() > 0,
        forall|i: int| 0 <= i < x.len() ==> is_key_char(x[i]),
    ensures
        spec_not(ctx, not_lt_prefix() + x, 3) == (match spec_resolve(
            ctx,
            seq!['a', 't', 't', 'r'],
        ) {
            Some(fid) => match spec_number(x) {
                Some(nv) => PRes::<CondV>::Parsed(
                    (not_lt_prefix() + x).len() as int,
                    CondV::Operator(fid, OpV::LowerThan(nv)),
                ),
                None => PRes::<CondV>::Failed(true, ErrV::InvalidNumber(Some(x[0]))),
            },
            None => PRes::<CondV>::Failed(
                true,
                ErrV::AttributeNotFilterable(seq!['a', 't', 't', 'r']),
            ),
        }),
{
    let s = not_lt_prefix() + x;
    lemma_not_lt_condition(ctx, x);
    reveal_with_fuel(ws_count, 3);
    assert(s[3] == ' ' && s[4] == 'a');
    assert(s[3] != '!');
    assert(skip_ws(s, 3) == 4 && s[4] != '(');
    assert(!is_prefix(s, 3, seq!['N', 'O', 'T'])) by {
        assert(seq!['N', 'O', 'T'][0] == 'N');
    }
    lemma_clause_is_condition(ctx, s, 3);
}

/// Reading a `NOT` keyword negates the clause behind it, or passes its
/// hard failure through.
proof fn lemma_not_wrap(ctx: CtxV, s: Seq<char>)
    requires
        s.len() >= 3,
        s[0] == 'N' && s[1] == 'O' && s[2] == 'T',
        match spec_not(ctx, s, 3) {
            PRes::Parsed(p, c) => true,
            PRes::Failed(h, e) => h,
        },
    ensures
        spec_not(ctx, s, 0) == (match spec_not(ctx, s, 3) {
            PRes::Parsed(p, c) => PRes::Parsed(p, spec_negate(c)),
            PRes::Failed(h, e) => PRes::<CondV>::Failed(true, e),
        }),
{
    assert(s[0] != '!');
    assert(is_prefix(s, 0, seq!['N', 'O', 'T'])) by {
        assert(seq!['N', 'O', 'T'].len() == 3);
        assert(seq!['N', 'O', 'T'][0] == 'N' && seq!['N', 'O', 'T'][1] == 'O' && seq!['N', 'O',
            'T'][2] == 'T');
    }
}

/// `NOT` inverts a comparison by the De Morgan rule: for every word
/// comparand `x`, the filter `NOT attr < x` parses to
/// `GreaterThanOrEqual` of exactly the number `x` names — or fails with
/// the attribute's resolution error, or with `InvalidNumber` on `x`'s
/// first character when `x` names no number.
#[verifier::rlimit(100)]
pub proof fn lemma_not_inverts_comparison(ctx: CtxV, x: Seq<char>)
    requires
        x.len() > 0,
        forall|i: int| 0 <= i < x.len() ==> is_key_char(x[i]),
    ensures
        ({
            let s = not_lt_prefix() + x;
            let r = spec_expression(ctx, s, 0);
            match spec_resolve(ctx, seq!['a', 't', 't', 'r']) {
                Some(fid) => match spec_number(x) {
                    Some(nv) => same_outcome(
                        r,
                        PRes::Parsed(0, CondV::Operator(fid, OpV::GreaterThanOrEqual(nv))),
                    ),
                    None => r == PRes::<CondV>::Failed(
                        true,
                        ErrV::InvalidNumber(Some(x[0])),
                    ),
                },
                None => r == PRes::<CondV>::Failed(
                    true,
                    ErrV::AttributeNotFilterable(seq!['a', 't', 't', 'r']),
                ),
            }
        }),
{
    let s = not_lt_prefix() + x;
    lemma_not_lt_clause(ctx, x);
    assert(s[0] == 'N' && s[1] == 'O' && s[2] == 'T');
    lemma_not_wrap(ctx, s);
    match spec_not(ctx, s, 3) {
        PRes::Parsed(p, c) => {
            let fid = spec_resolve(ctx, seq!['a', 't', 't', 'r'])->0;
            let nv = spec_number(x)->0;
            assert(c == CondV::Operator(fid, OpV::LowerThan(nv)));
            assert(spec_negate_op(OpV::LowerThan(nv)) == (
                OpV::GreaterThanOrEqual(nv),
                None::<OpV>,
            ));
            assert(spec_negate(c) == CondV::Operator(fid, OpV::GreaterThanOrEqual(nv)));
            lemma_expr_is_not_clause(ctx, s);
        },
        PRes::Failed(h, e) => {
            lemma_expr_is_not_clause(ctx, s);
            assert(spec_expression(ctx, s, 0) == PRes::<CondV>::Failed(true, e));
        },
    }
}

} // verus!
