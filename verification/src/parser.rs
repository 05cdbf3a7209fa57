//! The recursive-descent grammar over the filter language, stated first as
//! a mathematical parser over character sequences and then implemented by
//! executable functions proved equal to it.
//!
//! ```text
//! expression = or
//! or         = and ("OR" and)*
//! and        = not ("AND" not)*
//! not        = ("NOT" | "!") not | primary
//! primary    = "(" expression ")" | condition | range | georadius
//! condition  = value ("<=" | ">=" | "!=" | "<" | ">" | "=") value
//! range      = value value "TO" value
//! georadius  = "_geoRadius(" float "," float "," float ")"
//! value      = "'" [^']* "'" | '"' [^"]* '"' | [A-Za-z0-9_.-]+
//! ```
//!
//! A failure is either soft — the alternative did not match, and the next
//! one may be tried — or hard, aborting the whole parse, mirroring how the
//! grammar commits once it has recognized the shape of a clause.

use crate::condition::{cond_view, spec_negate, CondV, FilterCondition, OpV, Operator};
use crate::error::{ErrV, FilterError};
use crate::number::{in_lat_range, in_lng_range, spec_lex_float, spec_number, NumV, Number};
use crate::schema::{has_name, name_index, spec_resolve, CtxV, ParseContext};
use crate::text::{chars_to_string, lower_of, lowercase_chars};
use crate::FieldId;
use vstd::prelude::*;

verus! {

/// The outcome of one grammar production: the position after what was
/// consumed and the produced value, or a failure, hard (`true`) or soft.
pub enum PRes<T> {
    Parsed(int, T),
    Failed(bool, ErrV),
}

/// A failure inside the descent: `hard` failures abort the whole parse,
/// soft ones let the enclosing alternation try its next alternative.
#[derive(Debug, PartialEq)]
pub struct PErr {
    pub hard: bool,
    pub error: FilterError,
}

/// Whitespace skipped around values and keywords.
pub open spec fn is_space(c: char) -> bool {
    c == ' ' || c == '\t' || c == '\r' || c == '\n'
}

/// A character a bare word may consist of: ASCII alphanumeric, `_`, `-`
/// or `.`.
pub open spec fn is_key_char(c: char) -> bool {
    let u = c as u32;
    (48 <= u && u <= 57) || (65 <= u && u <= 90) || (97 <= u && u <= 122) || c == '_' || c == '-'
        || c == '.'
}

/// Length of the whitespace run starting at `pos`.
pub open spec fn ws_count(s: Seq<char>, pos: int) -> nat
    decreases s.len() - pos,
{
    if 0 <= pos && pos < s.len() && is_space(s[pos]) {
        1 + ws_count(s, pos + 1)
    } else {
        0
    }
}

/// The first position at or after `pos` that holds no whitespace.
pub open spec fn skip_ws(s: Seq<char>, pos: int) -> int {
    pos + ws_count(s, pos)
}

/// Length of the bare-word run starting at `pos`.
pub open spec fn key_count(s: Seq<char>, pos: int) -> nat
    decreases s.len() - pos,
{
    if 0 <= pos && pos < s.len() && is_key_char(s[pos]) {
        1 + key_count(s, pos + 1)
    } else {
        0
    }
}

/// Length of the run starting at `pos` of characters other than `stop`.
pub open spec fn till_count(s: Seq<char>, pos: int, stop: char) -> nat
    decreases s.len() - pos,
{
    if 0 <= pos && pos < s.len() && s[pos] != stop {
        1 + till_count(s, pos + 1, stop)
    } else {
        0
    }
}

/// Whether `pat` occurs in `s` starting at `pos`.
pub open spec fn is_prefix(s: Seq<char>, pos: int, pat: Seq<char>) -> bool {
    &&& 0 <= pos
    &&& pos + pat.len() <= s.len()
    &&& forall|i: int| 0 <= i < pat.len() ==> s[pos + i] == pat[i]
}

/// One lexical value: a single-quoted run, a double-quoted run, or a bare
/// word, with surrounding whitespace skipped. Fails softly when none of
/// the three alternatives starts here.
pub open spec fn spec_value(s: Seq<char>, pos: int) -> PRes<Seq<char>> {
    let p = skip_ws(s, pos);
    if p < s.len() && s[p] == '\'' {
        let e = p + 1 + till_count(s, p + 1, '\'');
        if e < s.len() {
            PRes::Parsed(skip_ws(s, e + 1), s.subrange(p + 1, e))
        } else {
            PRes::Failed(false, ErrV::Syntax(p))
        }
    } else if p < s.len() && s[p] == '"' {
        let e = p + 1 + till_count(s, p + 1, '"');
        if e < s.len() {
            PRes::Parsed(skip_ws(s, e + 1), s.subrange(p + 1, e))
        } else {
            PRes::Failed(false, ErrV::Syntax(p))
        }
    } else {
        let n = key_count(s, p);
        if n > 0 {
            PRes::Parsed(skip_ws(s, p + n), s.subrange(p, p + n))
        } else {
            PRes::Failed(false, ErrV::Syntax(p))
        }
    }
}

/// A comparison operator token, longer tokens matched before their
/// prefixes.
pub enum CmpOp {
    Le,
    Ge,
    Ne,
    Lt,
    Gt,
    Eq,
}

/// The comparison operator starting exactly at `pos`, and the position
/// after it: `<=`, `>=`, `!=`, `<`, `>` or `=`.
pub open spec fn spec_cmp_tag(s: Seq<char>, pos: int) -> Option<(CmpOp, int)> {
    if is_prefix(s, pos, seq!['<', '=']) {
        Some((CmpOp::Le, pos + 2))
    } else if is_prefix(s, pos, seq!['>', '=']) {
        Some((CmpOp::Ge, pos + 2))
    } else if is_prefix(s, pos, seq!['!', '=']) {
        Some((CmpOp::Ne, pos + 2))
    } else if is_prefix(s, pos, seq!['<']) {
        Some((CmpOp::Lt, pos + 1))
    } else if is_prefix(s, pos, seq!['>']) {
        Some((CmpOp::Gt, pos + 1))
    } else if is_prefix(s, pos, seq!['=']) {
        Some((CmpOp::Eq, pos + 1))
    } else {
        None
    }
}

/// The first character of a token, used in number-format failures.
pub open spec fn first_char(s: Seq<char>) -> Option<char> {
    if s.len() > 0 {
        Some(s[0])
    } else {
        None
    }
}

/// A comparison condition: `value op value`. The attribute resolves
/// through the schema or the parse aborts. For `=` and `!=` the comparand
/// is case-folded and kept as a string, with a numeric reading attached
/// when the token has one; for the four order comparisons the token must
/// read as a number.
pub open spec fn spec_condition(ctx: CtxV, s: Seq<char>, pos: int) -> PRes<CondV> {
    match spec_value(s, pos) {
        PRes::Failed(h, e) => PRes::Failed(h, e),
        PRes::Parsed(p1, key) => match spec_cmp_tag(s, p1) {
            None => PRes::Failed(false, ErrV::Syntax(p1)),
            Some((op, p2)) => match spec_value(s, p2) {
                PRes::Failed(h, e) => PRes::Failed(h, e),
                PRes::Parsed(p3, val) => match spec_resolve(ctx, key) {
                    None => PRes::Failed(true, ErrV::AttributeNotFilterable(key)),
                    Some(fid) => match op {
                        CmpOp::Eq => PRes::Parsed(
                            p3,
                            CondV::Operator(fid, OpV::Equal(spec_number(val), lower_of(val))),
                        ),
                        CmpOp::Ne => PRes::Parsed(
                            p3,
                            CondV::Operator(fid, OpV::NotEqual(spec_number(val), lower_of(val))),
                        ),
                        _ => match spec_number(val) {
                            None => PRes::Failed(true, ErrV::InvalidNumber(first_char(val))),
                            Some(num) => PRes::Parsed(
                                p3,
                                CondV::Operator(
                                    fid,
                                    match op {
                                        CmpOp::Gt => OpV::GreaterThan(num),
                                        CmpOp::Lt => OpV::LowerThan(num),
                                        CmpOp::Le => OpV::LowerThanOrEqual(num),
                                        _ => OpV::GreaterThanOrEqual(num),
                                    },
                                ),
                            ),
                        },
                    },
                },
            },
        },
    }
}

/// A range condition: `value value TO value`, producing `Between` with
/// the bounds exactly as written. Both bounds must read as numbers.
pub open spec fn spec_to(ctx: CtxV, s: Seq<char>, pos: int) -> PRes<CondV> {
    match spec_value(s, pos) {
        PRes::Failed(h, e) => PRes::Failed(h, e),
        PRes::Parsed(p1, key) => match spec_value(s, p1) {
            PRes::Failed(h, e) => PRes::Failed(h, e),
            PRes::Parsed(p2, from) => if !is_prefix(s, p2, seq!['T', 'O']) {
                PRes::Failed(false, ErrV::Syntax(p2))
            } else {
                match spec_value(s, p2 + 2) {
                    PRes::Failed(h, e) => PRes::Failed(h, e),
                    PRes::Parsed(p3, to) => match spec_resolve(ctx, key) {
                        None => PRes::Failed(true, ErrV::AttributeNotFilterable(key)),
                        Some(fid) => match spec_number(from) {
                            None => PRes::Failed(true, ErrV::InvalidNumber(first_char(from))),
                            Some(nf) => match spec_number(to) {
                                None => PRes::Failed(true, ErrV::InvalidNumber(first_char(to))),
                                Some(nt) => PRes::Parsed(
                                    p3,
                                    CondV::Operator(fid, OpV::Between(nf, nt)),
                                ),
                            },
                        },
                    },
                }
            },
        },
    }
}

/// Skips whitespace, per [`skip_ws`].
fn skip_ws_exec(input: &Vec<char>, pos: usize) -> (r: usize)
    requires
        pos <= input@.len(),
    ensures
        r as int == skip_ws(input@, pos as int),
        pos <= r <= input@.len(),
{
    let ghost s = input@;
    let n = input.len();
    let mut p = pos;
    while p < n && (input[p] == ' ' || input[p] == '\t' || input[p] == '\r' || input[p] == '\n')
        invariant
            pos <= p <= n,
            n == s.len(),
            s == input@,
            skip_ws(s, pos as int) == p + ws_count(s, p as int),
        decreases n - p,
    {
        p = p + 1;
    }
    p
}

/// Scans to the next occurrence of `stop`, per [`till_count`].
fn till_exec(input: &Vec<char>, pos: usize, stop: char) -> (r: usize)
    requires
        pos <= input@.len(),
    ensures
        r as int == pos + till_count(input@, pos as int, stop),
        pos <= r <= input@.len(),
{
    let ghost s = input@;
    let n = input.len();
    let mut p = pos;
    while p < n && input[p] != stop
        invariant
            pos <= p <= n,
            n == s.len(),
            s == input@,
            pos + till_count(s, pos as int, stop) == p + till_count(s, p as int, stop),
        decreases n - p,
    {
        p = p + 1;
    }
    p
}

/// Whether `c` may stand in a bare word, per [`is_key_char`].
fn is_key_char_exec(c: char) -> (r: bool)
    ensures
        r == is_key_char(c),
{
    let u = c as u32;
    (48 <= u && u <= 57) || (65 <= u && u <= 90) || (97 <= u && u <= 122) || c == '_' || c == '-'
        || c == '.'
}

/// Scans the bare-word run starting at `pos`, per [`key_count`].
fn key_run_exec(input: &Vec<char>, pos: usize) -> (r: usize)
    requires
        pos <= input@.len(),
    ensures
        r as int == pos + key_count(input@, pos as int),
        pos <= r <= input@.len(),
{
    let ghost s = input@;
    let n = input.len();
    let mut p = pos;
    while p < n && is_key_char_exec(input[p])
        invariant
            pos <= p <= n,
            n == s.len(),
            s == input@,
            pos + key_count(s, pos as int) == p + key_count(s, p as int),
        decreases n - p,
    {
        p = p + 1;
    }
    p
}

/// Copies the characters of `input[from..to]`.
fn copy_range(input: &Vec<char>, from: usize, to: usize) -> (r: Vec<char>)
    requires
        from <= to <= input@.len(),
    ensures
        r@ == input@.subrange(from as int, to as int),
{
    let mut v: Vec<char> = Vec::new();
    let mut i = from;
    while i < to
        invariant
            from <= i <= to <= input@.len(),
            v@ =~= input@.subrange(from as int, i as int),
        decreases to - i,
    {
        v.push(input[i]);
        i = i + 1;
    }
    proof {
        assert(v@ =~= input@.subrange(from as int, to as int));
    }
    v
}

/// Whether the two characters `a`, `b` stand at `pos`.
fn tag2(input: &Vec<char>, pos: usize, a: char, b: char) -> (r: bool)
    requires
        pos <= input@.len(),
    ensures
        r == is_prefix(input@, pos as int, seq![a, b]),
{
    let n = input.len();
    pos < n && input[pos] == a && pos + 1 < n && input[pos + 1] == b
}

/// Whether the three characters `a`, `b`, `c` stand at `pos`.
fn tag3(input: &Vec<char>, pos: usize, a: char, b: char, c: char) -> (r: bool)
    requires
        pos <= input@.len(),
    ensures
        r == is_prefix(input@, pos as int, seq![a, b, c]),
{
    let n = input.len();
    pos < n && input[pos] == a && pos + 1 < n && input[pos + 1] == b && pos + 2 < n && input[pos
        + 2] == c
}

/// Reads one lexical value, per [`spec_value`].
fn parse_value(input: &Vec<char>, pos: usize) -> (r: Result<(usize, Vec<char>), PErr>)
    requires
        pos <= input@.len(),
    ensures
        match r {
            Ok((p, tok)) => spec_value(input@, pos as int) == PRes::Parsed(p as int, tok@) && pos < p
                <= input@.len(),
            Err(e) => spec_value(input@, pos as int) == PRes::<Seq<char>>::Failed(e.hard, e.error@),
        },
{
    let ghost s = input@;
    let n = input.len();
    let p = skip_ws_exec(input, pos);
    if p < n && input[p] == '\'' {
        let e = till_exec(input, p + 1, '\'');
        if e < n {
            let tok = copy_range(input, p + 1, e);
            let p2 = skip_ws_exec(input, e + 1);
            Ok((p2, tok))
        } else {
            Err(PErr { hard: false, error: FilterError::SyntaxError(p) })
        }
    } else if p < n && input[p] == '"' {
        let e = till_exec(input, p + 1, '"');
        if e < n {
            let tok = copy_range(input, p + 1, e);
            let p2 = skip_ws_exec(input, e + 1);
            Ok((p2, tok))
        } else {
            Err(PErr { hard: false, error: FilterError::SyntaxError(p) })
        }
    } else {
        let e = key_run_exec(input, p);
        if e > p {
            let tok = copy_range(input, p, e);
            let p2 = skip_ws_exec(input, e);
            Ok((p2, tok))
        } else {
            Err(PErr { hard: false, error: FilterError::SyntaxError(p) })
        }
    }
}

/// Reads the comparison operator at `pos`, per [`spec_cmp_tag`].
fn parse_cmp_tag(input: &Vec<char>, pos: usize) -> (r: Option<(CmpOp, usize)>)
    requires
        pos <= input@.len(),
    ensures
        match r {
            Some((op, p)) => spec_cmp_tag(input@, pos as int) == Some((op, p as int)) && pos < p
                <= input@.len(),
            None => spec_cmp_tag(input@, pos as int) is None,
        },
{
    let n = input.len();
    proof {
        assert(input@.len() <= usize::MAX);
        assert(seq!['<', '='].len() == 2);
        assert(seq!['>', '='].len() == 2);
        assert(seq!['!', '='].len() == 2);
        assert(seq!['<'].len() == 1 && seq!['<'][0] == '<');
        assert(seq!['>'].len() == 1 && seq!['>'][0] == '>');
        assert(seq!['='].len() == 1 && seq!['='][0] == '=');
    }
    if tag2(input, pos, '<', '=') {
        Some((CmpOp::Le, pos + 2))
    } else if tag2(input, pos, '>', '=') {
        Some((CmpOp::Ge, pos + 2))
    } else if tag2(input, pos, '!', '=') {
        Some((CmpOp::Ne, pos + 2))
    } else if pos < input.len() && input[pos] == '<' {
        proof {
            assert(is_prefix(input@, pos as int, seq!['<']));
        }
        Some((CmpOp::Lt, pos + 1))
    } else if pos < input.len() && input[pos] == '>' {
        proof {
            assert(is_prefix(input@, pos as int, seq!['>']));
        }
        Some((CmpOp::Gt, pos + 1))
    } else if pos < input.len() && input[pos] == '=' {
        proof {
            assert(is_prefix(input@, pos as int, seq!['=']));
        }
        Some((CmpOp::Eq, pos + 1))
    } else {
        None
    }
}

/// Reads a comparison condition, per [`spec_condition`].
fn parse_condition(ctx: &ParseContext, input: &Vec<char>, pos: usize) -> (r: Result<
    (usize, FilterCondition),
    PErr,
>)
    requires
        ctx.wf(),
        pos <= input@.len(),
    ensures
        match r {
            Ok((p, c)) => spec_condition(ctx@, input@, pos as int) == PRes::Parsed(p as int, c@) && pos
                < p <= input@.len(),
            Err(e) => spec_condition(ctx@, input@, pos as int) == PRes::<CondV>::Failed(e.hard, e.error@),
        },
{
    let (p1, key) = match parse_value(input, pos) {
        Ok(v) => v,
        Err(e) => {
            return Err(e);
        },
    };
    let (op, p2) = match parse_cmp_tag(input, p1) {
        Some(v) => v,
        None => {
            return Err(PErr { hard: false, error: FilterError::SyntaxError(p1) });
        },
    };
    let (p3, val) = match parse_value(input, p2) {
        Ok(v) => v,
        Err(e) => {
            return Err(e);
        },
    };
    let fid = match ctx.resolve(&key) {
        Some(fid) => fid,
        None => {
            return Err(
                PErr {
                    hard: true,
                    error: FilterError::AttributeNotFilterable(chars_to_string(&key)),
                },
            );
        },
    };
    match op {
        CmpOp::Eq => {
            let num = Number::parse(&val);
            let folded = lowercase_chars(&val);
            Ok((p3, FilterCondition::Operator(fid, Operator::Equal(num, folded))))
        },
        CmpOp::Ne => {
            let num = Number::parse(&val);
            let folded = lowercase_chars(&val);
            Ok((p3, FilterCondition::Operator(fid, Operator::NotEqual(num, folded))))
        },
        _ => {
            let num = match Number::parse(&val) {
                Some(num) => num,
                None => {
                    let ch: Option<char> = if val.len() > 0 {
                        Some(val[0])
                    } else {
                        None
                    };
                    return Err(PErr { hard: true, error: FilterError::InvalidNumber(ch) });
                },
            };
            let cond = match op {
                CmpOp::Gt => Operator::GreaterThan(num),
                CmpOp::Lt => Operator::LowerThan(num),
                CmpOp::Le => Operator::LowerThanOrEqual(num),
                _ => Operator::GreaterThanOrEqual(num),
            };
            Ok((p3, FilterCondition::Operator(fid, cond)))
        },
    }
}

/// Reads a range condition, per [`spec_to`].
fn parse_to(ctx: &ParseContext, input: &Vec<char>, pos: usize) -> (r: Result<
    (usize, FilterCondition),
    PErr,
>)
    requires
        ctx.wf(),
        pos <= input@.len(),
    ensures
        match r {
            Ok((p, c)) => spec_to(ctx@, input@, pos as int) == PRes::Parsed(p as int, c@) && pos < p
                <= input@.len(),
            Err(e) => spec_to(ctx@, input@, pos as int) == PRes::<CondV>::Failed(e.hard, e.error@),
        },
{
    let (p1, key) = match parse_value(input, pos) {
        Ok(v) => v,
        Err(e) => {
            return Err(e);
        },
    };
    let (p2, from) = match parse_value(input, p1) {
        Ok(v) => v,
        Err(e) => {
            return Err(e);
        },
    };
    if !tag2(input, p2, 'T', 'O') {
        return Err(PErr { hard: false, error: FilterError::SyntaxError(p2) });
    }
    let n = input.len();
    proof {
        assert(input@.len() <= usize::MAX);
        assert(seq!['T', 'O'].len() == 2);
        assert(p2 + 2 <= n);
    }
    let (p3, to) = match parse_value(input, p2 + 2) {
        Ok(v) => v,
        Err(e) => {
            return Err(e);
        },
    };
    let fid = match ctx.resolve(&key) {
        Some(fid) => fid,
        None => {
            return Err(
                PErr {
                    hard: true,
                    error: FilterError::AttributeNotFilterable(chars_to_string(&key)),
                },
            );
        },
    };
    let nf = match Number::parse(&from) {
        Some(n) => n,
        None => {
            let ch: Option<char> = if from.len() > 0 {
                Some(from[0])
            } else {
                None
            };
            return Err(PErr { hard: true, error: FilterError::InvalidNumber(ch) });
        },
    };
    let nt = match Number::parse(&to) {
        Some(n) => n,
        None => {
            let ch: Option<char> = if to.len() > 0 {
                Some(to[0])
            } else {
                None
            };
            return Err(PErr { hard: true, error: FilterError::InvalidNumber(ch) });
        },
    };
    Ok((p3, FilterCondition::Operator(fid, Operator::Between(nf, nt))))
}

/// The reserved geo attribute name.
pub open spec fn geo_field() -> Seq<char> {
    seq!['_', 'g', 'e', 'o']
}

/// The geo-radius keyword.
pub open spec fn geo_tag() -> Seq<char> {
    seq!['_', 'g', 'e', 'o', 'R', 'a', 'd', 'i', 'u', 's']
}

/// The comma-separated float arguments of a geo clause, read up to and
/// including the closing parenthesis. Any failure of the list's shape is
/// the hard argument-form failure.
pub open spec fn spec_geo_args(s: Seq<char>, pos: int) -> PRes<Seq<NumV>>
    decreases s.len() - pos,
{
    let pe = skip_ws(s, pos);
    match spec_lex_float(s, pe) {
        None => PRes::Failed(true, ErrV::GeoArgumentCount),
        Some((num, e)) => {
            let q = skip_ws(s, e);
            if q < s.len() && s[q] == ',' {
                if pos < q + 1 {
                    match spec_geo_args(s, q + 1) {
                        PRes::Failed(h, er) => PRes::Failed(h, er),
                        PRes::Parsed(q2, rest) => PRes::Parsed(q2, seq![num] + rest),
                    }
                } else {
                    PRes::Failed(true, ErrV::GeoArgumentCount)
                }
            } else if q < s.len() && s[q] == ')' {
                PRes::Parsed(q + 1, seq![num])
            } else {
                PRes::Failed(true, ErrV::GeoArgumentCount)
            }
        },
    }
}

/// A geo-radius condition: `_geoRadius(latitude, longitude, radius)`.
/// Exactly three arguments, latitude within `[-90, 90]` and longitude
/// within `[-180, 180]`, or the matching hard failure. The clause reads
/// the reserved geo field rather than an attribute from the input; when
/// the schema lacks that field the clause degrades to the `Empty` tree.
pub open spec fn spec_geo(ctx: CtxV, s: Seq<char>, pos: int) -> PRes<CondV> {
    let p = skip_ws(s, pos);
    if !is_prefix(s, p, geo_tag()) {
        PRes::Failed(false, ErrV::Syntax(p))
    } else {
        let p1 = skip_ws(s, p + 10);
        if !(p1 < s.len() && s[p1] == '(') {
            PRes::Failed(true, ErrV::GeoArgumentCount)
        } else {
            match spec_geo_args(s, p1 + 1) {
                PRes::Failed(h, e) => PRes::Failed(h, e),
                PRes::Parsed(q, args) => {
                    if args.len() != 3 {
                        PRes::Failed(true, ErrV::GeoArgumentCount)
                    } else if !has_name(ctx.names, geo_field()) {
                        PRes::Parsed(q, CondV::Empty)
                    } else if !in_lat_range(args[0]) {
                        PRes::Failed(true, ErrV::GeoLatitudeOutOfRange)
                    } else if !in_lng_range(args[1]) {
                        PRes::Failed(true, ErrV::GeoLongitudeOutOfRange)
                    } else {
                        PRes::Parsed(
                            q,
                            CondV::Operator(
                                name_index(ctx.names, geo_field()) as FieldId,
                                OpV::GeoLowerThan(args[0], args[1], args[2]),
                            ),
                        )
                    }
                },
            }
        }
    }
}

/// A primary clause: a parenthesized expression, or the first of
/// comparison, range and geo-radius whose shape matches. Once an opening
/// parenthesis is consumed, a failure inside it is hard.
pub open spec fn spec_primary(ctx: CtxV, s: Seq<char>, pos: int) -> PRes<CondV>
    decreases s.len() - pos, 0int,
{
    let p = skip_ws(s, pos);
    if p < s.len() && s[p] == '(' {
        match spec_or(ctx, s, p + 1) {
            PRes::Failed(h, e) => if h {
                PRes::Failed(true, e)
            } else {
                PRes::Failed(true, ErrV::Syntax(p))
            },
            PRes::Parsed(q0, node) => {
                let q = skip_ws(s, q0);
                if q < s.len() && s[q] == ')' {
                    PRes::Parsed(skip_ws(s, q + 1), node)
                } else {
                    PRes::Failed(true, ErrV::Syntax(q))
                }
            },
        }
    } else {
        match spec_condition(ctx, s, pos) {
            PRes::Parsed(q, node) => PRes::Parsed(q, node),
            PRes::Failed(h1, e1) => if h1 {
                PRes::Failed(true, e1)
            } else {
                match spec_to(ctx, s, pos) {
                    PRes::Parsed(q, node) => PRes::Parsed(q, node),
                    PRes::Failed(h2, e2) => if h2 {
                        PRes::Failed(true, e2)
                    } else {
                        match spec_geo(ctx, s, pos) {
                            PRes::Parsed(q, node) => PRes::Parsed(q, node),
                            PRes::Failed(h3, e3) => if h3 {
                                PRes::Failed(true, e3)
                            } else {
                                PRes::Failed(false, ErrV::Syntax(p))
                            },
                        }
                    },
                }
            },
        }
    }
}

/// A possibly negated clause: each leading `!` or `NOT` (with no
/// whitespace before it) negates the clause it prefixes, by the De Morgan
/// rewrite; when what follows the keyword does not parse, the keyword is
/// re-read as an ordinary value of a primary clause.
pub open spec fn spec_not(ctx: CtxV, s: Seq<char>, pos: int) -> PRes<CondV>
    decreases s.len() - pos, 1int,
{
    if 0 <= pos && pos < s.len() && s[pos] == '!' {
        match spec_not(ctx, s, pos + 1) {
            PRes::Parsed(q, node) => PRes::Parsed(q, spec_negate(node)),
            PRes::Failed(h, e) => if h {
                PRes::Failed(true, e)
            } else {
                spec_primary(ctx, s, pos)
            },
        }
    } else if is_prefix(s, pos, seq!['N', 'O', 'T']) {
        match spec_not(ctx, s, pos + 3) {
            PRes::Parsed(q, node) => PRes::Parsed(q, spec_negate(node)),
            PRes::Failed(h, e) => if h {
                PRes::Failed(true, e)
            } else {
                spec_primary(ctx, s, pos)
            },
        }
    } else {
        spec_primary(ctx, s, pos)
    }
}

/// Whitespace skipping never runs past the end of the input.
proof fn lemma_skip_ws_le(s: Seq<char>, pos: int)
    requires
        0 <= pos <= s.len(),
    ensures
        skip_ws(s, pos) <= s.len(),
    decreases s.len() - pos,
{
    if pos < s.len() && is_space(s[pos]) {
        lemma_skip_ws_le(s, pos + 1);
        assert(skip_ws(s, pos) == skip_ws(s, pos + 1));
    }
}

/// The `AND` chain after a first clause: a left-associative fold. A soft
/// failure after an `AND` keyword rolls back to before the keyword and
/// ends the chain.
pub open spec fn spec_and_rest(ctx: CtxV, s: Seq<char>, pos: int, acc: CondV) -> PRes<CondV>
    decreases s.len() - pos, 0int,
    via spec_and_rest_decreases
{
    let p = skip_ws(s, pos);
    if is_prefix(s, p, seq!['A', 'N', 'D']) {
        let p2 = skip_ws(s, p + 3);
        match spec_not(ctx, s, p2) {
            PRes::Failed(h, e) => if h {
                PRes::Failed(true, e)
            } else {
                PRes::Parsed(pos, acc)
            },
            PRes::Parsed(q2, node2) => if pos < q2 && q2 <= s.len() {
                spec_and_rest(ctx, s, q2, CondV::And(Box::new(acc), Box::new(node2)))
            } else {
                PRes::Parsed(pos, acc)
            },
        }
    } else {
        PRes::Parsed(pos, acc)
    }
}

#[via_fn]
proof fn spec_and_rest_decreases(ctx: CtxV, s: Seq<char>, pos: int, acc: CondV) {
    let p = skip_ws(s, pos);
    if is_prefix(s, p, seq!['A', 'N', 'D']) {
        assert(seq!['A', 'N', 'D'].len() == 3);
        lemma_skip_ws_le(s, p + 3);
    }
}

/// A conjunction: `not ("AND" not)*`, folded left-associatively.
pub open spec fn spec_and(ctx: CtxV, s: Seq<char>, pos: int) -> PRes<CondV>
    decreases s.len() - pos, 2int,
{
    match spec_not(ctx, s, pos) {
        PRes::Failed(h, e) => PRes::Failed(h, e),
        PRes::Parsed(q, node) => if pos < q && q <= s.len() {
            spec_and_rest(ctx, s, q, node)
        } else {
            PRes::Parsed(q, node)
        },
    }
}

/// The `OR` chain after a first conjunction, as [`spec_and_rest`].
pub open spec fn spec_or_rest(ctx: CtxV, s: Seq<char>, pos: int, acc: CondV) -> PRes<CondV>
    decreases s.len() - pos, 1int,
    via spec_or_rest_decreases
{
    let p = skip_ws(s, pos);
    if is_prefix(s, p, seq!['O', 'R']) {
        let p2 = skip_ws(s, p + 2);
        match spec_and(ctx, s, p2) {
            PRes::Failed(h, e) => if h {
                PRes::Failed(true, e)
            } else {
                PRes::Parsed(pos, acc)
            },
            PRes::Parsed(q2, node2) => if pos < q2 && q2 <= s.len() {
                spec_or_rest(ctx, s, q2, CondV::Or(Box::new(acc), Box::new(node2)))
            } else {
                PRes::Parsed(pos, acc)
            },
        }
    } else {
        PRes::Parsed(pos, acc)
    }
}

#[via_fn]
proof fn spec_or_rest_decreases(ctx: CtxV, s: Seq<char>, pos: int, acc: CondV) {
    let p = skip_ws(s, pos);
    if is_prefix(s, p, seq!['O', 'R']) {
        assert(seq!['O', 'R'].len() == 2);
        lemma_skip_ws_le(s, p + 2);
    }
}

/// A disjunction: `and ("OR" and)*`, folded left-associatively.
pub open spec fn spec_or(ctx: CtxV, s: Seq<char>, pos: int) -> PRes<CondV>
    decreases s.len() - pos, 3int,
{
    match spec_and(ctx, s, pos) {
        PRes::Failed(h, e) => PRes::Failed(h, e),
        PRes::Parsed(q, node) => if pos < q && q <= s.len() {
            spec_or_rest(ctx, s, q, node)
        } else {
            PRes::Parsed(q, node)
        },
    }
}

/// A whole filter expression.
pub open spec fn spec_expression(ctx: CtxV, s: Seq<char>, pos: int) -> PRes<CondV> {
    spec_or(ctx, s, pos)
}

/// The models of a run of parsed numbers.
pub open spec fn nums_view(v: Seq<Number>) -> Seq<NumV> {
    Seq::new(v.len(), |i: int| v[i]@)
}

/// Arguments already read, joined with the rest of the list's outcome.
pub open spec fn geo_args_compose(prefix: Seq<NumV>, r: PRes<Seq<NumV>>) -> PRes<Seq<NumV>> {
    match r {
        PRes::Parsed(q, rest) => PRes::Parsed(q, prefix + rest),
        PRes::Failed(h, e) => PRes::Failed(h, e),
    }
}

/// The reserved geo attribute name, as characters.
fn geo_field_exec() -> (r: Vec<char>)
    ensures
        r@ == geo_field(),
{
    let mut v: Vec<char> = Vec::new();
    v.push('_');
    v.push('g');
    v.push('e');
    v.push('o');
    proof {
        assert(v@ =~= geo_field());
    }
    v
}

/// Whether the geo-radius keyword stands at `pos`.
fn tag_geo(input: &Vec<char>, pos: usize) -> (r: bool)
    requires
        pos <= input@.len(),
    ensures
        r == is_prefix(input@, pos as int, geo_tag()),
{
    proof {
        assert(geo_tag().len() == 10);
        assert(geo_tag()[0] == '_' && geo_tag()[1] == 'g' && geo_tag()[2] == 'e' && geo_tag()[3]
            == 'o' && geo_tag()[4] == 'R' && geo_tag()[5] == 'a' && geo_tag()[6] == 'd'
            && geo_tag()[7] == 'i' && geo_tag()[8] == 'u' && geo_tag()[9] == 's');
    }
    let n = input.len();
    pos < n && input[pos] == '_' && pos + 1 < n && input[pos + 1] == 'g' && pos + 2 < n && input[pos
        + 2] == 'e' && pos + 3 < n && input[pos + 3] == 'o' && pos + 4 < n && input[pos + 4] == 'R'
        && pos + 5 < n && input[pos + 5] == 'a' && pos + 6 < n && input[pos + 6] == 'd' && pos + 7
        < n && input[pos + 7] == 'i' && pos + 8 < n && input[pos + 8] == 'u' && pos + 9 < n
        && input[pos + 9] == 's'
}

/// Reads the argument list of a geo clause, per [`spec_geo_args`].
fn parse_geo_args(input: &Vec<char>, pos: usize) -> (r: Result<(usize, Vec<Number>), PErr>)
    requires
        pos <= input@.len(),
    ensures
        match r {
            Ok((p, args)) => spec_geo_args(input@, pos as int) == PRes::Parsed(
                p as int,
                nums_view(args@),
            ) && pos < p <= input@.len() && forall|i: int|
                0 <= i < args@.len() ==> (#[trigger] args@[i]).wf()
                    && -0x2_0000_0000_0000_0000 <= args@[i]@.exp <= 0x2_0000_0000_0000_0000,
            Err(e) => spec_geo_args(input@, pos as int) == PRes::<Seq<NumV>>::Failed(
                e.hard,
                e.error@,
            ),
        },
{
    let ghost s = input@;
    let mut args: Vec<Number> = Vec::new();
    let mut cur = pos;
    proof {
        assert(nums_view(args@) =~= Seq::<NumV>::empty());
        assert(geo_args_compose(nums_view(args@), spec_geo_args(s, pos as int)) == spec_geo_args(
            s,
            pos as int,
        )) by {
            match spec_geo_args(s, pos as int) {
                PRes::Parsed(q2, rest) => {
                    assert(nums_view(args@) + rest =~= rest);
                },
                PRes::Failed(_, _) => {},
            }
        }
    }
    loop
        invariant
            s == input@,
            pos <= cur <= s.len(),
            spec_geo_args(s, pos as int) == geo_args_compose(
                nums_view(args@),
                spec_geo_args(s, cur as int),
            ),
            forall|i: int|
                0 <= i < args@.len() ==> (#[trigger] args@[i]).wf()
                    && -0x2_0000_0000_0000_0000 <= args@[i]@.exp <= 0x2_0000_0000_0000_0000,
            args@.len() > 0 ==> pos < cur,
        decreases s.len() - cur,
    {
        let ghost cur0 = cur as int;
        let ghost args0 = args@;
        let pe = skip_ws_exec(input, cur);
        match Number::lex(input, pe) {
            None => {
                return Err(PErr { hard: true, error: FilterError::GeoArgumentCount });
            },
            Some((num, e)) => {
                let q = skip_ws_exec(input, e);
                let n = input.len();
                if q < n && input[q] == ',' {
                    proof {
                        let tail = spec_geo_args(s, q + 1);
                        assert(spec_geo_args(s, cur0) == geo_args_compose(seq![num@], tail));
                        assert(nums_view(args0.push(num)) =~= nums_view(args0).push(num@));
                        match tail {
                            PRes::Parsed(q2, rest) => {
                                assert(nums_view(args0) + (seq![num@] + rest) =~= nums_view(
                                    args0.push(num),
                                ) + rest);
                            },
                            PRes::Failed(_, _) => {},
                        }
                    }
                    args.push(num);
                    cur = q + 1;
                } else if q < n && input[q] == ')' {
                    proof {
                        assert(spec_geo_args(s, cur0) == PRes::<Seq<NumV>>::Parsed(
                            q + 1,
                            seq![num@],
                        ));
                        assert(nums_view(args0) + seq![num@] =~= nums_view(args0.push(num)));
                    }
                    args.push(num);
                    return Ok((q + 1, args));
                } else {
                    return Err(PErr { hard: true, error: FilterError::GeoArgumentCount });
                }
            },
        }
    }
}

/// Reads a geo-radius condition, per [`spec_geo`].
fn parse_geo(ctx: &ParseContext, input: &Vec<char>, pos: usize) -> (r: Result<
    (usize, FilterCondition),
    PErr,
>)
    requires
        ctx.wf(),
        pos <= input@.len(),
    ensures
        match r {
            Ok((p, c)) => spec_geo(ctx@, input@, pos as int) == PRes::Parsed(p as int, c@) && pos
                < p <= input@.len(),
            Err(e) => spec_geo(ctx@, input@, pos as int) == PRes::<CondV>::Failed(
                e.hard,
                e.error@,
            ),
        },
{
    let ghost s = input@;
    let p = skip_ws_exec(input, pos);
    if !tag_geo(input, p) {
        return Err(PErr { hard: false, error: FilterError::SyntaxError(p) });
    }
    let n = input.len();
    proof {
        assert(geo_tag().len() == 10);
        assert(p + 10 <= n);
    }
    let p1 = skip_ws_exec(input, p + 10);
    if !(p1 < n && input[p1] == '(') {
        return Err(PErr { hard: true, error: FilterError::GeoArgumentCount });
    }
    let (q, mut args) = match parse_geo_args(input, p1 + 1) {
        Ok(v) => v,
        Err(e) => {
            return Err(e);
        },
    };
    if args.len() != 3 {
        return Err(PErr { hard: true, error: FilterError::GeoArgumentCount });
    }
    let gname = geo_field_exec();
    match ctx.fields_ids_map.id_of_chars(&gname) {
        None => Ok((q, FilterCondition::Empty)),
        Some(fid) => {
            let ghost argsv = nums_view(args@);
            let rad = match args.pop() {
                Some(v) => v,
                None => {
                    return Err(PErr { hard: true, error: FilterError::GeoArgumentCount });
                },
            };
            let lng = match args.pop() {
                Some(v) => v,
                None => {
                    return Err(PErr { hard: true, error: FilterError::GeoArgumentCount });
                },
            };
            let lat = match args.pop() {
                Some(v) => v,
                None => {
                    return Err(PErr { hard: true, error: FilterError::GeoArgumentCount });
                },
            };
            proof {
                assert(lat@ == argsv[0] && lng@ == argsv[1] && rad@ == argsv[2]);
            }
            if !lat.lat_ok() {
                return Err(PErr { hard: true, error: FilterError::GeoLatitudeOutOfRange });
            }
            if !lng.lng_ok() {
                return Err(PErr { hard: true, error: FilterError::GeoLongitudeOutOfRange });
            }
            Ok((q, FilterCondition::Operator(fid, Operator::GeoLowerThan(lat, lng, rad))))
        },
    }
}

/// Reads a primary clause, per [`spec_primary`].
fn parse_primary(ctx: &ParseContext, input: &Vec<char>, pos: usize) -> (r: Result<
    (usize, FilterCondition),
    PErr,
>)
    requires
        ctx.wf(),
        pos <= input@.len(),
    ensures
        match r {
            Ok((p, c)) => spec_primary(ctx@, input@, pos as int) == PRes::Parsed(p as int, c@)
                && pos < p <= input@.len(),
            Err(e) => spec_primary(ctx@, input@, pos as int) == PRes::<CondV>::Failed(
                e.hard,
                e.error@,
            ),
        },
    decreases input@.len() - pos, 0int,
{
    let ghost s = input@;
    let p = skip_ws_exec(input, pos);
    let n = input.len();
    if p < n && input[p] == '(' {
        match parse_or(ctx, input, p + 1) {
            Err(e) => {
                if e.hard {
                    Err(e)
                } else {
                    Err(PErr { hard: true, error: FilterError::SyntaxError(p) })
                }
            },
            Ok((q0, node)) => {
                let q = skip_ws_exec(input, q0);
                if q < n && input[q] == ')' {
                    let p2 = skip_ws_exec(input, q + 1);
                    Ok((p2, node))
                } else {
                    Err(PErr { hard: true, error: FilterError::SyntaxError(q) })
                }
            },
        }
    } else {
        match parse_condition(ctx, input, pos) {
            Ok(v) => Ok(v),
            Err(e1) => {
                if e1.hard {
                    return Err(e1);
                }
                match parse_to(ctx, input, pos) {
                    Ok(v) => Ok(v),
                    Err(e2) => {
                        if e2.hard {
                            return Err(e2);
                        }
                        match parse_geo(ctx, input, pos) {
                            Ok(v) => Ok(v),
                            Err(e3) => {
                                if e3.hard {
                                    return Err(e3);
                                }
                                Err(PErr { hard: false, error: FilterError::SyntaxError(p) })
                            },
                        }
                    },
                }
            },
        }
    }
}

/// Reads a possibly negated clause, per [`spec_not`].
fn parse_not(ctx: &ParseContext, input: &Vec<char>, pos: usize) -> (r: Result<
    (usize, FilterCondition),
    PErr,
>)
    requires
        ctx.wf(),
        pos <= input@.len(),
    ensures
        match r {
            Ok((p, c)) => spec_not(ctx@, input@, pos as int) == PRes::Parsed(p as int, c@) && pos
                < p <= input@.len(),
            Err(e) => spec_not(ctx@, input@, pos as int) == PRes::<CondV>::Failed(
                e.hard,
                e.error@,
            ),
        },
    decreases input@.len() - pos, 1int,
{
    let n = input.len();
    if pos < n && input[pos] == '!' {
        match parse_not(ctx, input, pos + 1) {
            Ok((q, node)) => Ok((q, node.negate())),
            Err(e) => {
                if e.hard {
                    Err(e)
                } else {
                    parse_primary(ctx, input, pos)
                }
            },
        }
    } else if tag3(input, pos, 'N', 'O', 'T') {
        proof {
            assert(seq!['N', 'O', 'T'].len() == 3);
        }
        match parse_not(ctx, input, pos + 3) {
            Ok((q, node)) => Ok((q, node.negate())),
            Err(e) => {
                if e.hard {
                    Err(e)
                } else {
                    parse_primary(ctx, input, pos)
                }
            },
        }
    } else {
        parse_primary(ctx, input, pos)
    }
}

/// Reads a conjunction, per [`spec_and`].
#[verifier::rlimit(50)]
fn parse_and(ctx: &ParseContext, input: &Vec<char>, pos: usize) -> (r: Result<
    (usize, FilterCondition),
    PErr,
>)
    requires
        ctx.wf(),
        pos <= input@.len(),
    ensures
        match r {
            Ok((p, c)) => spec_and(ctx@, input@, pos as int) == PRes::Parsed(p as int, c@) && pos
                < p <= input@.len(),
            Err(e) => spec_and(ctx@, input@, pos as int) == PRes::<CondV>::Failed(
                e.hard,
                e.error@,
            ),
        },
    decreases input@.len() - pos, 2int,
{
    let ghost s = input@;
    let (q0, first) = match parse_not(ctx, input, pos) {
        Ok(v) => v,
        Err(e) => {
            return Err(e);
        },
    };
    let mut acc = first;
    let mut cur = q0;
    loop
        invariant
            ctx.wf(),
            s == input@,
            pos < cur <= s.len(),
            spec_and(ctx@, s, pos as int) == spec_and_rest(ctx@, s, cur as int, acc@),
        decreases s.len() - cur,
    {
        let ghost cur0 = cur as int;
        let ghost acc0 = acc@;
        let p = skip_ws_exec(input, cur);
        let n = input.len();
        if tag3(input, p, 'A', 'N', 'D') {
            proof {
                assert(seq!['A', 'N', 'D'].len() == 3);
                assert(p + 3 <= n);
            }
            let p2 = skip_ws_exec(input, p + 3);
            match parse_not(ctx, input, p2) {
                Ok((q2, node)) => {
                    proof {
                        assert(spec_and_rest(ctx@, s, cur0, acc0) == spec_and_rest(
                            ctx@,
                            s,
                            q2 as int,
                            CondV::And(Box::new(acc0), Box::new(node@)),
                        ));
                    }
                    acc = FilterCondition::And(Box::new(acc), Box::new(node));
                    cur = q2;
                },
                Err(e) => {
                    if e.hard {
                        return Err(e);
                    } else {
                        return Ok((cur, acc));
                    }
                },
            }
        } else {
            return Ok((cur, acc));
        }
    }
}

/// Reads a disjunction, per [`spec_or`].
#[verifier::rlimit(50)]
fn parse_or(ctx: &ParseContext, input: &Vec<char>, pos: usize) -> (r: Result<
    (usize, FilterCondition),
    PErr,
>)
    requires
        ctx.wf(),
        pos <= input@.len(),
    ensures
        match r {
            Ok((p, c)) => spec_or(ctx@, input@, pos as int) == PRes::Parsed(p as int, c@) && pos
                < p <= input@.len(),
            Err(e) => spec_or(ctx@, input@, pos as int) == PRes::<CondV>::Failed(
                e.hard,
                e.error@,
            ),
        },
    decreases input@.len() - pos, 3int,
{
    let ghost s = input@;
    let (q0, first) = match parse_and(ctx, input, pos) {
        Ok(v) => v,
        Err(e) => {
            return Err(e);
        },
    };
    let mut acc = first;
    let mut cur = q0;
    loop
        invariant
            ctx.wf(),
            s == input@,
            pos < cur <= s.len(),
            spec_or(ctx@, s, pos as int) == spec_or_rest(ctx@, s, cur as int, acc@),
        decreases s.len() - cur,
    {
        let ghost cur0 = cur as int;
        let ghost acc0 = acc@;
        let p = skip_ws_exec(input, cur);
        let n = input.len();
        if tag2(input, p, 'O', 'R') {
            proof {
                assert(seq!['O', 'R'].len() == 2);
                assert(p + 2 <= n);
            }
            let p2 = skip_ws_exec(input, p + 2);
            match parse_and(ctx, input, p2) {
                Ok((q2, node)) => {
                    proof {
                        assert(spec_or_rest(ctx@, s, cur0, acc0) == spec_or_rest(
                            ctx@,
                            s,
                            q2 as int,
                            CondV::Or(Box::new(acc0), Box::new(node@)),
                        ));
                    }
                    acc = FilterCondition::Or(Box::new(acc), Box::new(node));
                    cur = q2;
                },
                Err(e) => {
                    if e.hard {
                        return Err(e);
                    } else {
                        return Ok((cur, acc));
                    }
                },
            }
        } else {
            return Ok((cur, acc));
        }
    }
}

impl ParseContext {
    /// Parses a whole filter expression against this schema: the position
    /// after what was consumed, and the condition tree, exactly as
    /// [`spec_expression`] describes; or the failure it describes.
    pub fn parse_expression(&self, input: &str) -> (r: Result<(usize, FilterCondition), FilterError>)
        requires
            self.wf(),
        ensures
            match r {
                Ok((p, c)) => spec_expression(self@, input@, 0) == PRes::Parsed(p as int, c@) && p
                    <= input@.len(),
                Err(e) => exists|h: bool|
                    spec_expression(self@, input@, 0) == PRes::<CondV>::Failed(h, e@),
            },
    {
        let chars = crate::text::str_to_chars(input);
        match parse_or(self, &chars, 0) {
            Ok(v) => Ok(v),
            Err(e) => {
                proof {
                    assert(spec_expression(self@, input@, 0) == PRes::<CondV>::Failed(
                        e.hard,
                        e.error@,
                    ));
                }
                Err(e.error)
            },
        }
    }
}

} // verus!
