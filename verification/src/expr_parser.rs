//! Parsing of rule conditions.
//!
//! The grammar, from the lowest precedence to the highest:
//! - `a or b`, `a and b` (left associative), `not a`;
//! - comparisons `==`, `!=`, `<`, `<=`, `>`, `>=` between two primary
//!   expressions;
//! - primary expressions: `( expr )`, numbers, text strings, `true`,
//!   `false`, `filesize`, `any of them`, `all of them`, rule sets such as
//!   `any of (a, b*)` and `all of (c*)`, `$a`, `#a`,
//!   `#a in (from..to)`, `@a`, `@a[n]`, `!a`, `!a[n]`, and identifiers
//!   followed by `.field` and `[index]` accesses.
//!
//! Each parse starts on a position where no whitespace stands, and reads the
//! whitespace after what it parsed; spans do not hold that whitespace.
use std::ops::Range;
use vstd::prelude::*;

use crate::expression::{rule_set_view, Expression, ExpressionView, ParsedExpr, ParsedExprView, Type};
use crate::lexer::{
    agrees, byte_at_is, remaining, kw_bytes, lemma_keyword_at, byte_is, err_at, ident_end, ident_text, is_digit, is_ident_byte,
    is_ident_start, keyword_at, number, skip_ws, spec_ident_len, spec_keyword_at, spec_number,
    spec_skip, spec_string_literal, spec_text, string_literal, syntax_at, syntax_error, Error,
    ErrorKind, Kw, PRes,
};

verus! {

/// The parsed expression `expr`, of type `ty`, spanning from `a` to `b`.
pub open spec fn pv(expr: ExpressionView, ty: Type, a: int, b: int) -> ParsedExprView {
    ParsedExprView { expr, ty, span: (a, b) }
}

/// The expression `e` where an integer is expected: an error if its type is
/// known and is not `Integer`.
pub open spec fn spec_unwrap_integer(e: ParsedExprView) -> Result<ParsedExprView, Error> {
    if e.ty == Type::Integer || e.ty == Type::Undefined {
        Ok(e)
    } else {
        Err(
            err_at(
                e.span.0,
                e.span.1,
                ErrorKind::ExpressionInvalidType { ty: e.ty, expected_type: Type::Integer },
            ),
        )
    }
}

/// Whether a name is a keyword of conditions, which cannot be an identifier.
pub open spec fn spec_reserved_at(s: Seq<u8>, i: int) -> bool {
    spec_keyword_at(s, i, Kw::And) || spec_keyword_at(s, i, Kw::Or) || spec_keyword_at(s, i, Kw::Not)
        || spec_keyword_at(s, i, Kw::In) || spec_keyword_at(s, i, Kw::Of) || spec_keyword_at(
        s,
        i,
        Kw::Them,
    )
}

/// The comparison operator at `p`: its length, and the expression it builds
/// from two operands. `None` if there is no operator at `p`.
pub open spec fn spec_operator(s: Seq<u8>, p: int) -> Option<(nat, int)> {
    if byte_is(s, p, 61) && byte_is(s, p + 1, 61) {
        Some((2, 0))
    } else if byte_is(s, p, 33) && byte_is(s, p + 1, 61) {
        Some((2, 1))
    } else if byte_is(s, p, 60) && byte_is(s, p + 1, 61) {
        Some((2, 2))
    } else if byte_is(s, p, 62) && byte_is(s, p + 1, 61) {
        Some((2, 3))
    } else if byte_is(s, p, 60) {
        Some((1, 4))
    } else if byte_is(s, p, 62) {
        Some((1, 5))
    } else {
        None
    }
}

/// The expression that the operator of code `op` builds from `l` and `r`,
/// or the error if their types do not fit: `==` and `!=` take two values
/// of the same type, the other operators two integers. A type not known yet
/// fits every other.
pub open spec fn spec_binary(op: int, l: ParsedExprView, r: ParsedExprView) -> Result<
    ParsedExprView,
    Error,
> {
    let fits = if op <= 1 {
        l.ty == r.ty || l.ty == Type::Undefined || r.ty == Type::Undefined
    } else {
        (l.ty == Type::Integer || l.ty == Type::Undefined) && (r.ty == Type::Integer || r.ty
            == Type::Undefined)
    };
    if !fits {
        Err(
            err_at(
                l.span.0,
                r.span.1,
                ErrorKind::ExpressionIncompatibleTypes {
                    left_type: l.ty,
                    left_span: Range { start: l.span.0 as usize, end: l.span.1 as usize },
                    right_type: r.ty,
                    right_span: Range { start: r.span.0 as usize, end: r.span.1 as usize },
                },
            ),
        )
    } else {
        let e = if op == 0 {
            ExpressionView::Eq(Box::new(l), Box::new(r))
        } else if op == 1 {
            ExpressionView::NotEq(Box::new(l), Box::new(r))
        } else {
            ExpressionView::Cmp {
                left: Box::new(l),
                right: Box::new(r),
                less_than: op == 2 || op == 4,
                can_be_equal: op == 2 || op == 3,
            }
        };
        Ok(pv(e, Type::Boolean, l.span.0, r.span.1))
    }
}

/// The rules of a rule set from `j` on, `acc` being those read before: the
/// position after the closing parenthesis, and each element, a rule name or,
/// followed by `*`, a prefix of rule names.
#[verifier::opaque]
pub open spec fn spec_rule_set(s: Seq<u8>, j: int, acc: Seq<(Seq<char>, bool)>) -> Result<
    (int, Seq<(Seq<char>, bool)>),
    Error,
>
    decreases remaining(s, j),
{
    if !(0 <= j < s.len() && is_ident_start(s[j])) {
        Err(syntax_at(j))
    } else {
        let e = j + spec_ident_len(s, j);
        let wildcard = byte_is(s, e, 42);
        let p = spec_skip(s, if wildcard { e + 1 } else { e });
        let acc2 = acc.push((spec_text(s, j, e), wildcard));
        if byte_is(s, p, 44) {
            spec_rule_set(s, spec_skip(s, p + 1), acc2)
        } else if byte_is(s, p, 41) {
            Ok((p + 1, acc2))
        } else {
            Err(syntax_at(p))
        }
    }
}

/// The parts of the grammar of conditions, see [`spec_parse`].
#[derive(Clone, Copy, Debug, PartialEq, Eq, Structural)]
pub enum Part {
    /// `a or b or ...`.
    Or,
    /// The `or b or ...` that follows an expression.
    OrRest,
    /// `a and b and ...`.
    And,
    /// The `and b and ...` that follows an expression.
    AndRest,
    /// `not a`, or a comparison.
    Not,
    /// A comparison, or a primary expression.
    Comparison,
    /// A primary expression.
    Primary,
    /// The `.field` and `[index]` accesses that follow an expression.
    Postfix,
    /// `#a`, or `#a in (from..to)`.
    Count,
    /// The `[n]` index after `@a` or `!a`.
    Occurrence,
    /// `@a`, or `@a[n]`.
    Offset,
    /// `!a`, or `!a[n]`.
    Length,
}

/// The order of the parts in the grammar: a part at a position only
/// refers to parts of a lower level at that position.
pub open spec fn part_level(part: Part) -> int {
    match part {
        Part::Or => 8,
        Part::OrRest => 7,
        Part::And => 6,
        Part::AndRest => 5,
        Part::Not => 4,
        Part::Comparison => 3,
        Part::Primary => 2,
        Part::Postfix => 1,
        Part::Count => 1,
        Part::Occurrence => 0,
        Part::Offset => 1,
        Part::Length => 1,
    }
}

/// The expression given to the parts that do not continue one.
pub open spec fn no_left() -> ParsedExprView {
    pv(ExpressionView::Filesize, Type::Undefined, 0, 0)
}

/// The parse of the part `part` of a condition at `i`; `left` is the
/// expression that the parts `OrRest`, `AndRest` and `Postfix` continue.
/// The functions below name each part.
#[verifier::opaque]
pub open spec fn spec_parse(s: Seq<u8>, i: int, part: Part, left: ParsedExprView) -> PRes<ParsedExprView>
    decreases remaining(s, i), part_level(part),
{
    match part {
        Part::Or => {
            match spec_parse(s, i, Part::And, no_left()) {
                Err(e) => Err(e),
                Ok((k, l)) => match spec_parse(s, i + k, Part::OrRest, l) {
                    Err(e) => Err(e),
                    Ok((k2, x)) => Ok((k + k2, x)),
                },
            }
        },
        Part::OrRest => {
            let p = i;
            if spec_keyword_at(s, p, Kw::Or) {
                proof {
                    lemma_keyword_at(s, p, Kw::Or);
                }
                let q = spec_skip(s, p + 2);
                match spec_parse(s, q, Part::And, no_left()) {
                    Err(e) => Err(e),
                    Ok((k, r)) => {
                        let node = pv(
                            ExpressionView::Or(Box::new(left), Box::new(r)),
                            Type::Boolean,
                            left.span.0,
                            r.span.1,
                        );
                        match spec_parse(s, q + k, Part::OrRest, node) {
                            Err(e) => Err(e),
                            Ok((k2, x)) => Ok(((q + k - p) as nat + k2, x)),
                        }
                    },
                }
            } else {
                Ok((0, left))
            }
        },
        Part::And => {
            match spec_parse(s, i, Part::Not, no_left()) {
                Err(e) => Err(e),
                Ok((k, l)) => match spec_parse(s, i + k, Part::AndRest, l) {
                    Err(e) => Err(e),
                    Ok((k2, x)) => Ok((k + k2, x)),
                },
            }
        },
        Part::AndRest => {
            let p = i;
            if spec_keyword_at(s, p, Kw::And) {
                proof {
                    lemma_keyword_at(s, p, Kw::And);
                }
                let q = spec_skip(s, p + 3);
                match spec_parse(s, q, Part::Not, no_left()) {
                    Err(e) => Err(e),
                    Ok((k, r)) => {
                        let node = pv(
                            ExpressionView::And(Box::new(left), Box::new(r)),
                            Type::Boolean,
                            left.span.0,
                            r.span.1,
                        );
                        match spec_parse(s, q + k, Part::AndRest, node) {
                            Err(e) => Err(e),
                            Ok((k2, x)) => Ok(((q + k - p) as nat + k2, x)),
                        }
                    },
                }
            } else {
                Ok((0, left))
            }
        },
        Part::Not => {
            if spec_keyword_at(s, i, Kw::Not) {
                proof {
                    lemma_keyword_at(s, i, Kw::Not);
                }
                let q = spec_skip(s, i + 3);
                match spec_parse(s, q, Part::Not, no_left()) {
                    Err(e) => Err(e),
                    Ok((k, e)) => Ok(
                        (
                            (q + k - i) as nat,
                            pv(ExpressionView::Not(Box::new(e)), Type::Boolean, i, e.span.1),
                        ),
                    ),
                }
            } else {
                spec_parse(s, i, Part::Comparison, no_left())
            }
        },
        Part::Comparison => {
            match spec_parse(s, i, Part::Primary, no_left()) {
                Err(e) => Err(e),
                Ok((k, l)) => match spec_operator(s, i + k) {
                    None => Ok((k, l)),
                    Some((len, op)) => {
                        let q = spec_skip(s, i + k + len);
                        match spec_parse(s, q, Part::Primary, no_left()) {
                            Err(e) => Err(e),
                            Ok((k2, r)) => match spec_binary(op, l, r) {
                                Err(e) => Err(e),
                                Ok(x) => Ok(((q + k2 - i) as nat, x)),
                            },
                        }
                    },
                },
            }
        },
        Part::Primary => {
            if i < 0 || i >= s.len() {
                Err(syntax_at(i))
            } else if s[i] == 40 {
                let q = spec_skip(s, i + 1);
                match spec_parse(s, q, Part::Or, no_left()) {
                    Err(e) => Err(e),
                    Ok((k, e)) => if byte_is(s, q + k, 41) {
                        Ok(((spec_skip(s, q + k + 1) - i) as nat, e))
                    } else {
                        Err(syntax_at(q + k))
                    },
                }
            } else if s[i] == 34 {
                match spec_string_literal(s, i) {
                    Err(e) => Err(e),
                    Ok((k, b)) => Ok(
                        (
                            (spec_skip(s, i + k) - i) as nat,
                            pv(ExpressionView::Bytes(b), Type::Bytes, i, i + k),
                        ),
                    ),
                }
            } else if s[i] == 35 {
                spec_parse(s, i, Part::Count, no_left())
            } else if s[i] == 64 {
                spec_parse(s, i, Part::Offset, no_left())
            } else if s[i] == 33 {
                spec_parse(s, i, Part::Length, no_left())
            } else if s[i] == 36 {
                let e = i + 1 + spec_ident_len(s, i + 1);
                Ok(
                    (
                        (spec_skip(s, e) - i) as nat,
                        pv(ExpressionView::Variable(spec_text(s, i + 1, e)), Type::Boolean, i, e),
                    ),
                )
            } else if is_digit(s[i]) {
                match spec_number(s, i) {
                    Err(e) => Err(e),
                    Ok((k, v)) => Ok(
                        (
                            (spec_skip(s, i + k) - i) as nat,
                            pv(ExpressionView::Number(v), Type::Integer, i, i + k),
                        ),
                    ),
                }
            } else if spec_keyword_at(s, i, Kw::True) {
                Ok(
                    (
                        (spec_skip(s, i + 4) - i) as nat,
                        pv(ExpressionView::Boolean(true), Type::Boolean, i, i + 4),
                    ),
                )
            } else if spec_keyword_at(s, i, Kw::False) {
                Ok(
                    (
                        (spec_skip(s, i + 5) - i) as nat,
                        pv(ExpressionView::Boolean(false), Type::Boolean, i, i + 5),
                    ),
                )
            } else if spec_keyword_at(s, i, Kw::Filesize) {
                Ok(
                    (
                        (spec_skip(s, i + 8) - i) as nat,
                        pv(ExpressionView::Filesize, Type::Integer, i, i + 8),
                    ),
                )
            } else if spec_keyword_at(s, i, Kw::Any) || spec_keyword_at(s, i, Kw::All) {
                let all = spec_keyword_at(s, i, Kw::All);
                let p = spec_skip(s, i + 3);
                if !spec_keyword_at(s, p, Kw::Of) {
                    Err(syntax_at(p))
                } else {
                    let q = spec_skip(s, p + 2);
                    if spec_keyword_at(s, q, Kw::Them) {
                        Ok(
                            (
                                (spec_skip(s, q + 4) - i) as nat,
                                pv(ExpressionView::OfThem { all }, Type::Boolean, i, q + 4),
                            ),
                        )
                    } else if byte_is(s, q, 40) {
                        match spec_rule_set(s, spec_skip(s, q + 1), Seq::empty()) {
                            Err(e) => Err(e),
                            Ok((end, rules)) => Ok(
                                (
                                    (spec_skip(s, end) - i) as nat,
                                    pv(ExpressionView::OfRules { all, rules }, Type::Boolean, i, end),
                                ),
                            ),
                        }
                    } else {
                        Err(syntax_at(q))
                    }
                }
            } else if is_ident_start(s[i]) && !spec_reserved_at(s, i) {
                let e = i + spec_ident_len(s, i);
                let base = pv(ExpressionView::Identifier(spec_text(s, i, e)), Type::Undefined, i, e);
                let p = spec_skip(s, e);
                match spec_parse(s, p, Part::Postfix, base) {
                    Err(err) => Err(err),
                    Ok((k, x)) => Ok(((p - i) as nat + k, x)),
                }
            } else {
                Err(syntax_at(i))
            }
        },
        Part::Postfix => {
            let p = i;
            let base = left;
            if byte_is(s, p, 46) {
                let q = spec_skip(s, p + 1);
                if !(0 <= q < s.len() && is_ident_start(s[q])) {
                    Err(syntax_at(q))
                } else {
                    let e = q + spec_ident_len(s, q);
                    let node = pv(
                        ExpressionView::Subfield { base: Box::new(base), name: spec_text(s, q, e) },
                        Type::Undefined,
                        base.span.0,
                        e,
                    );
                    let r = spec_skip(s, e);
                    match spec_parse(s, r, Part::Postfix, node) {
                        Err(err) => Err(err),
                        Ok((k, x)) => Ok(((r - p) as nat + k, x)),
                    }
                }
            } else if byte_is(s, p, 91) {
                let q = spec_skip(s, p + 1);
                match spec_parse(s, q, Part::Or, no_left()) {
                    Err(err) => Err(err),
                    Ok((k, index)) => if !byte_is(s, q + k, 93) {
                        Err(syntax_at(q + k))
                    } else {
                        let e = q + k + 1;
                        let node = pv(
                            ExpressionView::Subscript { base: Box::new(base), index: Box::new(index) },
                            Type::Undefined,
                            base.span.0,
                            e,
                        );
                        let r = spec_skip(s, e);
                        match spec_parse(s, r, Part::Postfix, node) {
                            Err(err) => Err(err),
                            Ok((k2, x)) => Ok(((r - p) as nat + k2, x)),
                        }
                    },
                }
            } else {
                Ok((0, base))
            }
        },
        Part::Count => {
            if !byte_is(s, i, 35) {
                Err(syntax_at(i))
            } else {
                let e0 = i + 1 + spec_ident_len(s, i + 1);
                let name = spec_text(s, i + 1, e0);
                let p = spec_skip(s, e0);
                if !spec_keyword_at(s, p, Kw::In) {
                    Ok(((p - i) as nat, pv(ExpressionView::Count(name), Type::Integer, i, e0)))
                } else {
                    let q = spec_skip(s, p + 2);
                    if !byte_is(s, q, 40) {
                        Err(syntax_at(q))
                    } else {
                        let q1 = spec_skip(s, q + 1);
                        match spec_parse(s, q1, Part::Primary, no_left()) {
                            Err(err) => Err(err),
                            Ok((k1, from)) => {
                                let q2 = q1 + k1;
                                if !(byte_is(s, q2, 46) && byte_is(s, q2 + 1, 46)) {
                                    Err(syntax_at(q2))
                                } else {
                                    let q3 = spec_skip(s, q2 + 2);
                                    match spec_parse(s, q3, Part::Primary, no_left()) {
                                        Err(err) => Err(err),
                                        Ok((k2, to)) => {
                                            let q4 = q3 + k2;
                                            if !byte_is(s, q4, 41) {
                                                Err(syntax_at(q4))
                                            } else {
                                                match spec_unwrap_integer(from) {
                                                    Err(err) => Err(err),
                                                    Ok(from) => match spec_unwrap_integer(to) {
                                                        Err(err) => Err(err),
                                                        Ok(to) => Ok(
                                                            (
                                                                (spec_skip(s, q4 + 1) - i) as nat,
                                                                pv(
                                                                    ExpressionView::CountInRange {
                                                                        variable_name: name,
                                                                        from: Box::new(from),
                                                                        to: Box::new(to),
                                                                    },
                                                                    Type::Integer,
                                                                    i,
                                                                    q4 + 1,
                                                                ),
                                                            ),
                                                        ),
                                                    },
                                                }
                                            }
                                        },
                                    }
                                }
                            },
                        }
                    }
                }
            }
        },
        Part::Occurrence => {
            let p = i;
            if !byte_is(s, p, 91) {
                Err(syntax_at(p))
            } else {
                let q = spec_skip(s, p + 1);
                match spec_parse(s, q, Part::Primary, no_left()) {
                    Err(err) => Err(err),
                    Ok((k, v)) => if !byte_is(s, q + k, 93) {
                        Err(syntax_at(q + k))
                    } else {
                        match spec_unwrap_integer(v) {
                            Err(err) => Err(err),
                            Ok(v) => Ok(((q + k + 1 - p) as nat, v)),
                        }
                    },
                }
            }
        },
        Part::Offset => {
            if !byte_is(s, i, 64) {
                Err(syntax_at(i))
            } else {
                let e0 = i + 1 + spec_ident_len(s, i + 1);
                let name = spec_text(s, i + 1, e0);
                let p = spec_skip(s, e0);
                if !byte_is(s, p, 91) {
                    let n = pv(ExpressionView::Number(1), Type::Integer, i, e0);
                    Ok(
                        (
                            (p - i) as nat,
                            pv(
                                ExpressionView::Offset { variable_name: name, occurence_number: Box::new(n) },
                                Type::Integer,
                                i,
                                e0,
                            ),
                        ),
                    )
                } else {
                    match spec_parse(s, p, Part::Occurrence, no_left()) {
                        Err(err) => Err(err),
                        Ok((k, n)) => Ok(
                            (
                                (spec_skip(s, p + k) - i) as nat,
                                pv(
                                    ExpressionView::Offset {
                                        variable_name: name,
                                        occurence_number: Box::new(n),
                                    },
                                    Type::Integer,
                                    i,
                                    p + k,
                                ),
                            ),
                        ),
                    }
                }
            }
        },
        Part::Length => {
            if !byte_is(s, i, 33) {
                Err(syntax_at(i))
            } else {
                let e0 = i + 1 + spec_ident_len(s, i + 1);
                let name = spec_text(s, i + 1, e0);
                let p = spec_skip(s, e0);
                if !byte_is(s, p, 91) {
                    let n = pv(ExpressionView::Number(2), Type::Integer, i, e0);
                    Ok(
                        (
                            (p - i) as nat,
                            pv(
                                ExpressionView::Length { variable_name: name, occurence_number: Box::new(n) },
                                Type::Integer,
                                i,
                                e0,
                            ),
                        ),
                    )
                } else {
                    match spec_parse(s, p, Part::Occurrence, no_left()) {
                        Err(err) => Err(err),
                        Ok((k, v)) => {
                            let n = pv(v.expr, v.ty, i, e0);
                            Ok(
                                (
                                    (spec_skip(s, p + k) - i) as nat,
                                    pv(
                                        ExpressionView::Length {
                                            variable_name: name,
                                            occurence_number: Box::new(n),
                                        },
                                        Type::Integer,
                                        i,
                                        p + k,
                                    ),
                                ),
                            )
                        },
                    }
                }
            }
        },
    }
}

/// `a or b or ...`.
pub open spec fn spec_or(s: Seq<u8>, i: int) -> PRes<ParsedExprView> {
    spec_parse(s, i, Part::Or, no_left())
}

/// The `or b or ...` that follows `left`, from `p`.
pub open spec fn spec_or_rest(s: Seq<u8>, p: int, left: ParsedExprView) -> PRes<ParsedExprView> {
    spec_parse(s, p, Part::OrRest, left)
}

/// `a and b and ...`.
pub open spec fn spec_and(s: Seq<u8>, i: int) -> PRes<ParsedExprView> {
    spec_parse(s, i, Part::And, no_left())
}

/// The `and b and ...` that follows `left`, from `p`.
pub open spec fn spec_and_rest(s: Seq<u8>, p: int, left: ParsedExprView) -> PRes<ParsedExprView> {
    spec_parse(s, p, Part::AndRest, left)
}

/// `not a`, or a comparison.
pub open spec fn spec_not(s: Seq<u8>, i: int) -> PRes<ParsedExprView> {
    spec_parse(s, i, Part::Not, no_left())
}

/// A primary expression, followed by a comparison operator and another
/// primary expression if there is one.
pub open spec fn spec_comparison(s: Seq<u8>, i: int) -> PRes<ParsedExprView> {
    spec_parse(s, i, Part::Comparison, no_left())
}

/// A primary expression.
pub open spec fn spec_primary(s: Seq<u8>, i: int) -> PRes<ParsedExprView> {
    spec_parse(s, i, Part::Primary, no_left())
}

/// The `.field` and `[index]` accesses that follow `base`, from `p`.
pub open spec fn spec_postfix(s: Seq<u8>, p: int, base: ParsedExprView) -> PRes<ParsedExprView> {
    spec_parse(s, p, Part::Postfix, base)
}

/// `#a`, or `#a in (from..to)`: the number of matches of a variable, in all
/// the input or starting in a range of offsets.
pub open spec fn spec_string_count(s: Seq<u8>, i: int) -> PRes<ParsedExprView> {
    spec_parse(s, i, Part::Count, no_left())
}

/// The `[n]` index after `@a` or `!a`, from `p`, `e0` being the end of the
/// variable: the position after the index, and the index.
pub open spec fn spec_occurrence(s: Seq<u8>, p: int) -> PRes<ParsedExprView> {
    spec_parse(s, p, Part::Occurrence, no_left())
}

/// `@a`, or `@a[n]`: the offset of the first, or of the n-th, match of a
/// variable. Without an index, the index is the number 1, spanning the whole
/// expression.
pub open spec fn spec_string_offset(s: Seq<u8>, i: int) -> PRes<ParsedExprView> {
    spec_parse(s, i, Part::Offset, no_left())
}

/// `!a`, or `!a[n]`: the length of a match of a variable. The index spans
/// the variable `!a`; without an index, it is the number 2.
pub open spec fn spec_string_length(s: Seq<u8>, i: int) -> PRes<ParsedExprView> {
    spec_parse(s, i, Part::Length, no_left())
}

// ---------------------------------------------------------------------------
// Executable parses
// ---------------------------------------------------------------------------

/// The expression `e` where an integer is expected, see
/// [`spec_unwrap_integer`].
fn unwrap_integer(e: ParsedExpr) -> (r: Result<ParsedExpr, Error>)
    ensures
        match spec_unwrap_integer(e@) {
            Ok(x) => r matches Ok(y) && y@ == x,
            Err(err) => r == Err::<ParsedExpr, Error>(err),
        },
{
    if e.ty == Type::Integer || e.ty == Type::Undefined {
        Ok(e)
    } else {
        Err(
            Error {
                span: Range { start: e.span.start, end: e.span.end },
                kind: ErrorKind::ExpressionInvalidType { ty: e.ty, expected_type: Type::Integer },
            },
        )
    }
}

/// Whether a keyword of conditions stands at `i`, see [`spec_reserved_at`].
fn reserved_at(s: &[u8], i: usize) -> (r: bool)
    ensures
        r == spec_reserved_at(s@, i as int),
{
    keyword_at(s, i, Kw::And) || keyword_at(s, i, Kw::Or) || keyword_at(s, i, Kw::Not)
        || keyword_at(s, i, Kw::In) || keyword_at(s, i, Kw::Of) || keyword_at(s, i, Kw::Them)
}

/// The comparison operator at `p`, see [`spec_operator`].
fn operator(s: &[u8], p: usize) -> (r: Option<(usize, u8)>)
    requires
        p < usize::MAX,
    ensures
        match spec_operator(s@, p as int) {
            Some((len, op)) => r == Some((len as usize, op as u8)),
            None => r is None,
        },
{
    if byte_at_is(s, p, 61) && byte_at_is(s, p + 1, 61) {
        Some((2, 0))
    } else if byte_at_is(s, p, 33) && byte_at_is(s, p + 1, 61) {
        Some((2, 1))
    } else if byte_at_is(s, p, 60) && byte_at_is(s, p + 1, 61) {
        Some((2, 2))
    } else if byte_at_is(s, p, 62) && byte_at_is(s, p + 1, 61) {
        Some((2, 3))
    } else if byte_at_is(s, p, 60) {
        Some((1, 4))
    } else if byte_at_is(s, p, 62) {
        Some((1, 5))
    } else {
        None
    }
}

/// The expression that the operator of code `op` builds, see
/// [`spec_binary`].
fn binary(op: u8, l: ParsedExpr, r: ParsedExpr) -> (res: Result<ParsedExpr, Error>)
    ensures
        match spec_binary(op as int, l@, r@) {
            Ok(x) => res matches Ok(y) && y@ == x,
            Err(err) => res == Err::<ParsedExpr, Error>(err),
        },
{
    let fits = if op <= 1 {
        l.ty == r.ty || l.ty == Type::Undefined || r.ty == Type::Undefined
    } else {
        (l.ty == Type::Integer || l.ty == Type::Undefined) && (r.ty == Type::Integer || r.ty
            == Type::Undefined)
    };
    if !fits {
        return Err(
            Error {
                span: Range { start: l.span.start, end: r.span.end },
                kind: ErrorKind::ExpressionIncompatibleTypes {
                    left_type: l.ty,
                    left_span: Range { start: l.span.start, end: l.span.end },
                    right_type: r.ty,
                    right_span: Range { start: r.span.start, end: r.span.end },
                },
            },
        );
    }
    let start = l.span.start;
    let end = r.span.end;
    let e = if op == 0 {
        Expression::Eq(Box::new(l), Box::new(r))
    } else if op == 1 {
        Expression::NotEq(Box::new(l), Box::new(r))
    } else {
        Expression::Cmp {
            left: Box::new(l),
            right: Box::new(r),
            less_than: op == 2 || op == 4,
            can_be_equal: op == 2 || op == 3,
        }
    };
    Ok(ParsedExpr { expr: e, ty: Type::Boolean, span: Range { start, end } })
}

/// A condition: `a or b or ...`, see [`spec_or`].
pub fn expression(s: &[u8], i: usize) -> (r: Result<(usize, ParsedExpr), Error>)
    requires
        i <= s@.len() < usize::MAX,
    ensures
        agrees(r, s@, i as int, spec_or(s@, i as int)),
    decreases remaining(s@, i as int), 16int,
{
    reveal_with_fuel(spec_parse, 1);
    let (n, l) = match parse_and(s, i) {
        Ok(v) => v,
        Err(err) => {
            return Err(err);
        },
    };
    parse_or_rest(s, n, l)
}

/// The `or b or ...` that follows `left`, see [`spec_or_rest`].
fn parse_or_rest(s: &[u8], p: usize, left: ParsedExpr) -> (r: Result<(usize, ParsedExpr), Error>)
    requires
        p <= s@.len() < usize::MAX,
    ensures
        agrees(r, s@, p as int, spec_or_rest(s@, p as int, left@)),
    decreases remaining(s@, p as int), 14int,
{
    reveal_with_fuel(spec_parse, 1);
    if !keyword_at(s, p, Kw::Or) {
        return Ok((p, left));
    }
    let q = skip_ws(s, p + 2);
    let (n, right) = match parse_and(s, q) {
        Ok(v) => v,
        Err(err) => {
            return Err(err);
        },
    };
    let start = left.span.start;
    let end = right.span.end;
    let node = ParsedExpr {
        expr: Expression::Or(Box::new(left), Box::new(right)),
        ty: Type::Boolean,
        span: Range { start, end },
    };
    parse_or_rest(s, n, node)
}

/// `a and b and ...`, see [`spec_and`].
fn parse_and(s: &[u8], i: usize) -> (r: Result<(usize, ParsedExpr), Error>)
    requires
        i <= s@.len() < usize::MAX,
    ensures
        agrees(r, s@, i as int, spec_and(s@, i as int)),
    decreases remaining(s@, i as int), 12int,
{
    reveal_with_fuel(spec_parse, 1);
    let (n, l) = match parse_not(s, i) {
        Ok(v) => v,
        Err(err) => {
            return Err(err);
        },
    };
    parse_and_rest(s, n, l)
}

/// The `and b and ...` that follows `left`, see [`spec_and_rest`].
fn parse_and_rest(s: &[u8], p: usize, left: ParsedExpr) -> (r: Result<(usize, ParsedExpr), Error>)
    requires
        p <= s@.len() < usize::MAX,
    ensures
        agrees(r, s@, p as int, spec_and_rest(s@, p as int, left@)),
    decreases remaining(s@, p as int), 10int,
{
    reveal_with_fuel(spec_parse, 1);
    if !keyword_at(s, p, Kw::And) {
        return Ok((p, left));
    }
    let q = skip_ws(s, p + 3);
    let (n, right) = match parse_not(s, q) {
        Ok(v) => v,
        Err(err) => {
            return Err(err);
        },
    };
    let start = left.span.start;
    let end = right.span.end;
    let node = ParsedExpr {
        expr: Expression::And(Box::new(left), Box::new(right)),
        ty: Type::Boolean,
        span: Range { start, end },
    };
    parse_and_rest(s, n, node)
}

/// `not a`, or a comparison, see [`spec_not`].
fn parse_not(s: &[u8], i: usize) -> (r: Result<(usize, ParsedExpr), Error>)
    requires
        i <= s@.len() < usize::MAX,
    ensures
        agrees(r, s@, i as int, spec_not(s@, i as int)),
    decreases remaining(s@, i as int), 8int,
{
    reveal_with_fuel(spec_parse, 1);
    if !keyword_at(s, i, Kw::Not) {
        return parse_comparison(s, i);
    }
    let q = skip_ws(s, i + 3);
    let (n, e) = match parse_not(s, q) {
        Ok(v) => v,
        Err(err) => {
            return Err(err);
        },
    };
    let end = e.span.end;
    Ok((n, ParsedExpr { expr: Expression::Not(Box::new(e)), ty: Type::Boolean, span: Range { start: i, end } }))
}

/// A comparison, or a primary expression, see [`spec_comparison`].
fn parse_comparison(s: &[u8], i: usize) -> (r: Result<(usize, ParsedExpr), Error>)
    requires
        i <= s@.len() < usize::MAX,
    ensures
        agrees(r, s@, i as int, spec_comparison(s@, i as int)),
    decreases remaining(s@, i as int), 6int,
{
    reveal_with_fuel(spec_parse, 1);
    let (n, l) = match primary_expression(s, i) {
        Ok(v) => v,
        Err(err) => {
            return Err(err);
        },
    };
    let (len, op) = match operator(s, n) {
        None => {
            return Ok((n, l));
        },
        Some(x) => x,
    };
    let q = skip_ws(s, n + len);
    let (m, right) = match primary_expression(s, q) {
        Ok(v) => v,
        Err(err) => {
            return Err(err);
        },
    };
    let x = match binary(op, l, right) {
        Ok(v) => v,
        Err(err) => {
            return Err(err);
        },
    };
    Ok((m, x))
}

/// A primary expression, see [`spec_primary`].
pub fn primary_expression(s: &[u8], i: usize) -> (r: Result<(usize, ParsedExpr), Error>)
    requires
        i <= s@.len() < usize::MAX,
    ensures
        agrees(r, s@, i as int, spec_primary(s@, i as int)),
    decreases remaining(s@, i as int), 5int,
{
    reveal_with_fuel(spec_parse, 1);
    if i >= s.len() {
        return Err(syntax_error(i));
    }
    let c = s[i];
    if c == 40 {
        let q = skip_ws(s, i + 1);
        let (n, e) = match expression(s, q) {
            Ok(v) => v,
            Err(err) => {
                return Err(err);
            },
        };
        if !byte_at_is(s, n, 41) {
            return Err(syntax_error(n));
        }
        return Ok((skip_ws(s, n + 1), e));
    }
    if c == 34 {
        let (e, b) = match string_literal(s, i) {
            Ok(v) => v,
            Err(err) => {
                return Err(err);
            },
        };
        return Ok(
            (
                skip_ws(s, e),
                ParsedExpr { expr: Expression::Bytes(b), ty: Type::Bytes, span: Range { start: i, end: e } },
            ),
        );
    }
    if c == 35 {
        return string_count_expression(s, i);
    }
    if c == 64 {
        return string_offset_expression(s, i);
    }
    if c == 33 {
        return string_length_expression(s, i);
    }
    primary_word(s, i)
}

/// A primary expression that starts with none of `(`, `"`, `#`, `@` and
/// `!`, see [`spec_primary`].
fn primary_word(s: &[u8], i: usize) -> (r: Result<(usize, ParsedExpr), Error>)
    requires
        i < s@.len() < usize::MAX,
        s@[i as int] != 40 && s@[i as int] != 34 && s@[i as int] != 35 && s@[i as int] != 64
            && s@[i as int] != 33,
    ensures
        agrees(r, s@, i as int, spec_primary(s@, i as int)),
    decreases remaining(s@, i as int), 4int,
{
    reveal_with_fuel(spec_parse, 1);
    let c = s[i];
    if c == 36 {
        let e = ident_end(s, i + 1);
        let name = ident_text(s, i + 1, e);
        return Ok(
            (
                skip_ws(s, e),
                ParsedExpr { expr: Expression::Variable(name), ty: Type::Boolean, span: Range { start: i, end: e } },
            ),
        );
    }
    if 48 <= c && c <= 57 {
        let (e, v) = match number(s, i) {
            Ok(v) => v,
            Err(err) => {
                return Err(err);
            },
        };
        return Ok(
            (
                skip_ws(s, e),
                ParsedExpr { expr: Expression::Number(v), ty: Type::Integer, span: Range { start: i, end: e } },
            ),
        );
    }
    if keyword_at(s, i, Kw::True) {
        return Ok(
            (
                skip_ws(s, i + 4),
                ParsedExpr { expr: Expression::Boolean(true), ty: Type::Boolean, span: Range { start: i, end: i + 4 } },
            ),
        );
    }
    if keyword_at(s, i, Kw::False) {
        return Ok(
            (
                skip_ws(s, i + 5),
                ParsedExpr { expr: Expression::Boolean(false), ty: Type::Boolean, span: Range { start: i, end: i + 5 } },
            ),
        );
    }
    if keyword_at(s, i, Kw::Filesize) {
        return Ok(
            (
                skip_ws(s, i + 8),
                ParsedExpr { expr: Expression::Filesize, ty: Type::Integer, span: Range { start: i, end: i + 8 } },
            ),
        );
    }
    if keyword_at(s, i, Kw::Any) || keyword_at(s, i, Kw::All) {
        let all = keyword_at(s, i, Kw::All);
        let p = skip_ws(s, i + 3);
        if !keyword_at(s, p, Kw::Of) {
            return Err(syntax_error(p));
        }
        let q = skip_ws(s, p + 2);
        if keyword_at(s, q, Kw::Them) {
            return Ok(
                (
                    skip_ws(s, q + 4),
                    ParsedExpr { expr: Expression::OfThem { all }, ty: Type::Boolean, span: Range { start: i, end: q + 4 } },
                ),
            );
        }
        if !byte_at_is(s, q, 40) {
            return Err(syntax_error(q));
        }
        let (end, rules) = match rule_set(s, skip_ws(s, q + 1)) {
            Ok(x) => x,
            Err(err) => {
                return Err(err);
            },
        };
        return Ok(
            (
                skip_ws(s, end),
                ParsedExpr { expr: Expression::OfRules { all, rules }, ty: Type::Boolean, span: Range { start: i, end } },
            ),
        );
    }
    if is_ident_first(c) && !reserved_at(s, i) {
        let e = ident_end(s, i);
        let name = ident_text(s, i, e);
        let base = ParsedExpr { expr: Expression::Identifier(name), ty: Type::Undefined, span: Range { start: i, end: e } };
        let p = skip_ws(s, e);
        return parse_postfix(s, p, base);
    }
    Err(syntax_error(i))
}

/// The rules of a rule set, see [`spec_rule_set`].
fn rule_set(s: &[u8], j: usize) -> (r: Result<(usize, Vec<(String, bool)>), Error>)
    requires
        j <= s@.len() < usize::MAX,
    ensures
        match spec_rule_set(s@, j as int, Seq::empty()) {
            Ok((n, rules)) => r matches Ok((n2, rules2)) && n2 == n && rule_set_view(rules2@) == rules && j < n2
                <= s@.len(),
            Err(err) => r == Err::<(usize, Vec<(String, bool)>), Error>(err),
        },
{
    let mut acc: Vec<(String, bool)> = Vec::new();
    let mut pos = j;
    assert(rule_set_view(acc@) =~= Seq::<(Seq<char>, bool)>::empty());
    loop
        invariant
            j <= pos <= s@.len() < usize::MAX,
            spec_rule_set(s@, pos as int, rule_set_view(acc@)) == spec_rule_set(s@, j as int, Seq::empty()),
        decreases s@.len() - pos,
    {
        reveal_with_fuel(spec_rule_set, 1);
        if !(pos < s.len() && is_ident_first(s[pos])) {
            return Err(syntax_error(pos));
        }
        let e = ident_end(s, pos);
        let name = ident_text(s, pos, e);
        let wildcard = byte_at_is(s, e, 42);
        let p = skip_ws(s, if wildcard { e + 1 } else { e });
        let ghost before = rule_set_view(acc@);
        acc.push((name, wildcard));
        assert(rule_set_view(acc@) =~= before.push((spec_text(s@, pos as int, e as int), wildcard)));
        if byte_at_is(s, p, 44) {
            pos = skip_ws(s, p + 1);
        } else if byte_at_is(s, p, 41) {
            return Ok((p + 1, acc));
        } else {
            return Err(syntax_error(p));
        }
    }
}

/// A letter or an underscore, see [`is_ident_start`].
fn is_ident_first(c: u8) -> (r: bool)
    ensures
        r == is_ident_start(c),
{
    (65 <= c && c <= 90) || (97 <= c && c <= 122) || c == 95
}

/// The `.field` and `[index]` accesses that follow `base`, see
/// [`spec_postfix`].
fn parse_postfix(s: &[u8], p: usize, base: ParsedExpr) -> (r: Result<(usize, ParsedExpr), Error>)
    requires
        p <= s@.len() < usize::MAX,
    ensures
        agrees(r, s@, p as int, spec_postfix(s@, p as int, base@)),
    decreases remaining(s@, p as int), 2int,
{
    reveal_with_fuel(spec_parse, 1);
    if byte_at_is(s, p, 46) {
        let q = skip_ws(s, p + 1);
        if !(q < s.len() && is_ident_first(s[q])) {
            return Err(syntax_error(q));
        }
        let e = ident_end(s, q);
        let name = ident_text(s, q, e);
        let start = base.span.start;
        let node = ParsedExpr {
            expr: Expression::Subfield { base: Box::new(base), name },
            ty: Type::Undefined,
            span: Range { start, end: e },
        };
        let r = skip_ws(s, e);
        parse_postfix(s, r, node)
    } else if byte_at_is(s, p, 91) {
        let q = skip_ws(s, p + 1);
        let (n, index) = match expression(s, q) {
            Ok(v) => v,
            Err(err) => {
                return Err(err);
            },
        };
        if !byte_at_is(s, n, 93) {
            return Err(syntax_error(n));
        }
        let start = base.span.start;
        let node = ParsedExpr {
            expr: Expression::Subscript { base: Box::new(base), index: Box::new(index) },
            ty: Type::Undefined,
            span: Range { start, end: n + 1 },
        };
        let r = skip_ws(s, n + 1);
        parse_postfix(s, r, node)
    } else {
        Ok((p, base))
    }
}

/// `#a`, or `#a in (from..to)`, see [`spec_string_count`].
pub fn string_count_expression(s: &[u8], i: usize) -> (r: Result<(usize, ParsedExpr), Error>)
    requires
        i <= s@.len() < usize::MAX,
    ensures
        agrees(r, s@, i as int, spec_string_count(s@, i as int)),
    decreases remaining(s@, i as int), 2int,
{
    reveal_with_fuel(spec_parse, 1);
    if !byte_at_is(s, i, 35) {
        return Err(syntax_error(i));
    }
    let e0 = ident_end(s, i + 1);
    let name = ident_text(s, i + 1, e0);
    let p = skip_ws(s, e0);
    if !keyword_at(s, p, Kw::In) {
        return Ok(
            (p, ParsedExpr { expr: Expression::Count(name), ty: Type::Integer, span: Range { start: i, end: e0 } }),
        );
    }
    let q = skip_ws(s, p + 2);
    if !byte_at_is(s, q, 40) {
        return Err(syntax_error(q));
    }
    let q1 = skip_ws(s, q + 1);
    let (q2, from) = match primary_expression(s, q1) {
        Ok(v) => v,
        Err(err) => {
            return Err(err);
        },
    };
    if !(byte_at_is(s, q2, 46) && byte_at_is(s, q2 + 1, 46)) {
        return Err(syntax_error(q2));
    }
    let q3 = skip_ws(s, q2 + 2);
    let (q4, to) = match primary_expression(s, q3) {
        Ok(v) => v,
        Err(err) => {
            return Err(err);
        },
    };
    if !byte_at_is(s, q4, 41) {
        return Err(syntax_error(q4));
    }
    let from = match unwrap_integer(from) {
        Ok(v) => v,
        Err(err) => {
            return Err(err);
        },
    };
    let to = match unwrap_integer(to) {
        Ok(v) => v,
        Err(err) => {
            return Err(err);
        },
    };
    Ok(
        (
            skip_ws(s, q4 + 1),
            ParsedExpr {
                expr: Expression::CountInRange { variable_name: name, from: Box::new(from), to: Box::new(to) },
                ty: Type::Integer,
                span: Range { start: i, end: q4 + 1 },
            },
        ),
    )
}

/// The `[n]` index after `@a` or `!a`, see [`spec_occurrence`].
fn occurrence(s: &[u8], p: usize) -> (r: Result<(usize, ParsedExpr), Error>)
    requires
        p <= s@.len() < usize::MAX,
    ensures
        agrees(r, s@, p as int, spec_occurrence(s@, p as int)),
    decreases remaining(s@, p as int), 0int,
{
    reveal_with_fuel(spec_parse, 1);
    if !byte_at_is(s, p, 91) {
        return Err(syntax_error(p));
    }
    let q = skip_ws(s, p + 1);
    let (n, v) = match primary_expression(s, q) {
        Ok(v) => v,
        Err(err) => {
            return Err(err);
        },
    };
    if !byte_at_is(s, n, 93) {
        return Err(syntax_error(n));
    }
    let v = match unwrap_integer(v) {
        Ok(v) => v,
        Err(err) => {
            return Err(err);
        },
    };
    Ok((n + 1, v))
}

/// `@a`, or `@a[n]`, see [`spec_string_offset`].
pub fn string_offset_expression(s: &[u8], i: usize) -> (r: Result<(usize, ParsedExpr), Error>)
    requires
        i <= s@.len() < usize::MAX,
    ensures
        agrees(r, s@, i as int, spec_string_offset(s@, i as int)),
    decreases remaining(s@, i as int), 2int,
{
    reveal_with_fuel(spec_parse, 1);
    if !byte_at_is(s, i, 64) {
        return Err(syntax_error(i));
    }
    let e0 = ident_end(s, i + 1);
    let name = ident_text(s, i + 1, e0);
    let p = skip_ws(s, e0);
    if !byte_at_is(s, p, 91) {
        let n = ParsedExpr { expr: Expression::Number(1), ty: Type::Integer, span: Range { start: i, end: e0 } };
        let ghost nv = pv(ExpressionView::Number(1), Type::Integer, i as int, e0 as int);
        assert(n@ == nv);
        let x = ParsedExpr {
            expr: Expression::Offset { variable_name: name, occurence_number: Box::new(n) },
            ty: Type::Integer,
            span: Range { start: i, end: e0 },
        };
        assert(x@ == pv(ExpressionView::Offset { variable_name: spec_text(s@, i + 1, e0 as int), occurence_number: Box::new(nv) }, Type::Integer, i as int, e0 as int));
        assert(spec_string_offset(s@, i as int) == Ok::<(nat, ParsedExprView), Error>(((p - i) as nat, x@)));
        return Ok((p, x));
    }
    let (e, n) = match occurrence(s, p) {
        Ok(v) => v,
        Err(err) => {
            return Err(err);
        },
    };
    Ok(
        (
            skip_ws(s, e),
            ParsedExpr {
                expr: Expression::Offset { variable_name: name, occurence_number: Box::new(n) },
                ty: Type::Integer,
                span: Range { start: i, end: e },
            },
        ),
    )
}

/// `!a`, or `!a[n]`, see [`spec_string_length`].
pub fn string_length_expression(s: &[u8], i: usize) -> (r: Result<(usize, ParsedExpr), Error>)
    requires
        i <= s@.len() < usize::MAX,
    ensures
        agrees(r, s@, i as int, spec_string_length(s@, i as int)),
    decreases remaining(s@, i as int), 2int,
{
    reveal_with_fuel(spec_parse, 1);
    if !byte_at_is(s, i, 33) {
        return Err(syntax_error(i));
    }
    let e0 = ident_end(s, i + 1);
    let name = ident_text(s, i + 1, e0);
    let p = skip_ws(s, e0);
    if !byte_at_is(s, p, 91) {
        let n = ParsedExpr { expr: Expression::Number(2), ty: Type::Integer, span: Range { start: i, end: e0 } };
        let ghost nv = pv(ExpressionView::Number(2), Type::Integer, i as int, e0 as int);
        assert(n@ == nv);
        let x = ParsedExpr {
            expr: Expression::Length { variable_name: name, occurence_number: Box::new(n) },
            ty: Type::Integer,
            span: Range { start: i, end: e0 },
        };
        assert(x@ == pv(ExpressionView::Length { variable_name: spec_text(s@, i + 1, e0 as int), occurence_number: Box::new(nv) }, Type::Integer, i as int, e0 as int));
        return Ok((p, x));
    }
    let (e, v) = match occurrence(s, p) {
        Ok(v) => v,
        Err(err) => {
            return Err(err);
        },
    };
    let n = ParsedExpr { expr: v.expr, ty: v.ty, span: Range { start: i, end: e0 } };
    Ok(
        (
            skip_ws(s, e),
            ParsedExpr {
                expr: Expression::Length { variable_name: name, occurence_number: Box::new(n) },
                ty: Type::Integer,
                span: Range { start: i, end: e },
            },
        ),
    )
}

/// The comparison `l op r` between two integer operands: the operator's
/// text decides the node that is built, `==` an equality, `!=` an
/// inequality, `<=` and `>=` the comparisons that hold on equal operands,
/// `<` and `>` those that do not; `<` and `<=` compare with `l` on the
/// smaller side. The right operand is read after the operator and the
/// whitespace that follows it.
pub proof fn lemma_comparison_operators(
    s: Seq<u8>,
    i: int,
    k: nat,
    l: ParsedExprView,
    q: int,
    k2: nat,
    r: ParsedExprView,
)
    requires
        spec_primary(s, i) == Ok::<(nat, ParsedExprView), Error>((k, l)),
        spec_primary(s, q) == Ok::<(nat, ParsedExprView), Error>((k2, r)),
        l.ty == Type::Integer,
        r.ty == Type::Integer,
    ensures
        byte_is(s, i + k, 61) && byte_is(s, i + k + 1, 61) && q == spec_skip(s, i + k + 2)
            ==> spec_comparison(s, i) == Ok::<(nat, ParsedExprView), Error>(
            (
                (q + k2 - i) as nat,
                pv(ExpressionView::Eq(Box::new(l), Box::new(r)), Type::Boolean, l.span.0, r.span.1),
            ),
        ),
        byte_is(s, i + k, 33) && byte_is(s, i + k + 1, 61) && q == spec_skip(s, i + k + 2)
            ==> spec_comparison(s, i) == Ok::<(nat, ParsedExprView), Error>(
            (
                (q + k2 - i) as nat,
                pv(
                    ExpressionView::NotEq(Box::new(l), Box::new(r)),
                    Type::Boolean,
                    l.span.0,
                    r.span.1,
                ),
            ),
        ),
        byte_is(s, i + k, 60) && byte_is(s, i + k + 1, 61) && q == spec_skip(s, i + k + 2)
            ==> spec_comparison(s, i) == Ok::<(nat, ParsedExprView), Error>(
            (
                (q + k2 - i) as nat,
                pv(
                    ExpressionView::Cmp {
                        left: Box::new(l),
                        right: Box::new(r),
                        less_than: true,
                        can_be_equal: true,
                    },
                    Type::Boolean,
                    l.span.0,
                    r.span.1,
                ),
            ),
        ),
        byte_is(s, i + k, 62) && byte_is(s, i + k + 1, 61) && q == spec_skip(s, i + k + 2)
            ==> spec_comparison(s, i) == Ok::<(nat, ParsedExprView), Error>(
            (
                (q + k2 - i) as nat,
                pv(
                    ExpressionView::Cmp {
                        left: Box::new(l),
                        right: Box::new(r),
                        less_than: false,
                        can_be_equal: true,
                    },
                    Type::Boolean,
                    l.span.0,
                    r.span.1,
                ),
            ),
        ),
        byte_is(s, i + k, 60) && !byte_is(s, i + k + 1, 61) && q == spec_skip(s, i + k + 1)
            ==> spec_comparison(s, i) == Ok::<(nat, ParsedExprView), Error>(
            (
                (q + k2 - i) as nat,
                pv(
                    ExpressionView::Cmp {
                        left: Box::new(l),
                        right: Box::new(r),
                        less_than: true,
                        can_be_equal: false,
                    },
                    Type::Boolean,
                    l.span.0,
                    r.span.1,
                ),
            ),
        ),
        byte_is(s, i + k, 62) && !byte_is(s, i + k + 1, 61) && q == spec_skip(s, i + k + 1)
            ==> spec_comparison(s, i) == Ok::<(nat, ParsedExprView), Error>(
            (
                (q + k2 - i) as nat,
                pv(
                    ExpressionView::Cmp {
                        left: Box::new(l),
                        right: Box::new(r),
                        less_than: false,
                        can_be_equal: false,
                    },
                    Type::Boolean,
                    l.span.0,
                    r.span.1,
                ),
            ),
        ),
{
    reveal_with_fuel(spec_parse, 1);
}

/// The types of the operands of a comparison: `==` and `!=` refuse two
/// operands whose types are known and differ, `<`, `<=`, `>` and `>=` an
/// operand whose type is known and is not `Integer`; the error then spans
/// both operands and gives their types. Other operands are accepted, and
/// the comparison is a boolean that spans both.
pub proof fn lemma_comparison_types(
    s: Seq<u8>,
    i: int,
    k: nat,
    l: ParsedExprView,
    q: int,
    k2: nat,
    r: ParsedExprView,
)
    requires
        spec_primary(s, i) == Ok::<(nat, ParsedExprView), Error>((k, l)),
        spec_primary(s, q) == Ok::<(nat, ParsedExprView), Error>((k2, r)),
    ensures
        (byte_is(s, i + k, 61) || byte_is(s, i + k, 33)) && byte_is(s, i + k + 1, 61) && q
            == spec_skip(s, i + k + 2) ==> {
            &&& (spec_comparison(s, i) is Err <==> (l.ty != r.ty && l.ty != Type::Undefined && r.ty
                != Type::Undefined))
        },
        (byte_is(s, i + k, 60) || byte_is(s, i + k, 62)) && ((byte_is(s, i + k + 1, 61) && q
            == spec_skip(s, i + k + 2)) || (!byte_is(s, i + k + 1, 61) && q == spec_skip(
            s,
            i + k + 1,
        ))) ==> {
            &&& (spec_comparison(s, i) is Err <==> ((l.ty != Type::Integer && l.ty
                != Type::Undefined) || (r.ty != Type::Integer && r.ty != Type::Undefined)))
        },
        (spec_operator(s, i + k) matches Some((len, _)) && q == spec_skip(s, i + k + len)) ==> match spec_comparison(s, i) {
            Ok((n, x)) => n == q + k2 - i && x.ty == Type::Boolean && x.span == (l.span.0, r.span.1),
            Err(e) => e == err_at(
                l.span.0,
                r.span.1,
                ErrorKind::ExpressionIncompatibleTypes {
                    left_type: l.ty,
                    left_span: Range { start: l.span.0 as usize, end: l.span.1 as usize },
                    right_type: r.ty,
                    right_span: Range { start: r.span.0 as usize, end: r.span.1 as usize },
                },
            ),
        },
{
    reveal_with_fuel(spec_parse, 1);
}

} // verus!
