//! Expressions of rule conditions, as parsed.
use std::ops::Range;
use vstd::prelude::*;

use crate::variable::range_pair;

verus! {

/// Type of a parsed expression.
#[derive(Clone, Copy, Debug, PartialEq, Eq, Structural)]
pub enum Type {
    /// A signed 64-bit integer.
    Integer,
    /// A boolean.
    Boolean,
    /// A byte string.
    Bytes,
    /// Only known once the identifier is resolved.
    Undefined,
}

/// An expression, with its type and its span in the input.
#[derive(Debug, PartialEq, Eq)]
pub struct ParsedExpr {
    /// The expression.
    pub expr: Expression,
    /// Its type.
    pub ty: Type,
    /// Its span in the input.
    pub span: Range<usize>,
}

/// An expression of a rule condition.
#[derive(Debug, PartialEq, Eq)]
pub enum Expression {
    /// Size of the scanned memory.
    Filesize,
    /// An integer.
    Number(i64),
    /// A boolean.
    Boolean(bool),
    /// A byte string.
    Bytes(Vec<u8>),
    /// Number of matches of a variable, `#a`.
    Count(String),
    /// Number of matches of a variable starting in a range of offsets,
    /// `#a in (from..to)`.
    CountInRange {
        /// Name of the variable, without the `#`.
        variable_name: String,
        /// Start of the range, included.
        from: Box<ParsedExpr>,
        /// End of the range, included.
        to: Box<ParsedExpr>,
    },
    /// Offset of a match of a variable, `@a[n]`, the first one if no index.
    Offset {
        /// Name of the variable, without the `@`.
        variable_name: String,
        /// Index of the match, starting at 1.
        occurence_number: Box<ParsedExpr>,
    },
    /// Length of a match of a variable, `!a[n]`.
    Length {
        /// Name of the variable, without the `!`.
        variable_name: String,
        /// Index of the match, starting at 1.
        occurence_number: Box<ParsedExpr>,
    },
    /// Whether a variable matches, `$a`.
    Variable(String),
    /// Whether all, or any, of the variables match: `all of them`,
    /// `any of them`.
    OfThem {
        /// `all` or `any`.
        all: bool,
    },
    /// Whether all, or any, of a set of rules match: `all of (a, b*)`. Each
    /// element is a rule name, or a prefix of rule names when it ends with
    /// `*`.
    OfRules {
        /// `all` or `any`.
        all: bool,
        /// The names, and whether each is a prefix.
        rules: Vec<(String, bool)>,
    },
    /// An identifier: a rule name or an imported module.
    Identifier(String),
    /// Access to a named field of a module value, `base.name`.
    Subfield {
        /// The value accessed.
        base: Box<ParsedExpr>,
        /// Name of the field.
        name: String,
    },
    /// Subscript of a module array or dictionary, `base[index]`.
    Subscript {
        /// The value indexed.
        base: Box<ParsedExpr>,
        /// The index or key.
        index: Box<ParsedExpr>,
    },
    /// Comparison of two integers.
    Cmp {
        /// Left operand.
        left: Box<ParsedExpr>,
        /// Right operand.
        right: Box<ParsedExpr>,
        /// `<` or `<=` if true, `>` or `>=` otherwise.
        less_than: bool,
        /// `<=` or `>=`.
        can_be_equal: bool,
    },
    /// Equality of two values.
    Eq(Box<ParsedExpr>, Box<ParsedExpr>),
    /// Inequality of two values.
    NotEq(Box<ParsedExpr>, Box<ParsedExpr>),
    /// Boolean conjunction.
    And(Box<ParsedExpr>, Box<ParsedExpr>),
    /// Boolean disjunction.
    Or(Box<ParsedExpr>, Box<ParsedExpr>),
    /// Boolean negation.
    Not(Box<ParsedExpr>),
}

/// The abstract form of a [`ParsedExpr`]: names as characters, spans as
/// pairs of offsets.
pub struct ParsedExprView {
    pub expr: ExpressionView,
    pub ty: Type,
    pub span: (int, int),
}

/// The abstract form of an [`Expression`].
pub enum ExpressionView {
    Filesize,
    Number(i64),
    Boolean(bool),
    Bytes(Seq<u8>),
    Count(Seq<char>),
    CountInRange { variable_name: Seq<char>, from: Box<ParsedExprView>, to: Box<ParsedExprView> },
    Offset { variable_name: Seq<char>, occurence_number: Box<ParsedExprView> },
    Length { variable_name: Seq<char>, occurence_number: Box<ParsedExprView> },
    Variable(Seq<char>),
    OfThem { all: bool },
    OfRules { all: bool, rules: Seq<(Seq<char>, bool)> },
    Identifier(Seq<char>),
    Subfield { base: Box<ParsedExprView>, name: Seq<char> },
    Subscript { base: Box<ParsedExprView>, index: Box<ParsedExprView> },
    Cmp {
        left: Box<ParsedExprView>,
        right: Box<ParsedExprView>,
        less_than: bool,
        can_be_equal: bool,
    },
    Eq(Box<ParsedExprView>, Box<ParsedExprView>),
    NotEq(Box<ParsedExprView>, Box<ParsedExprView>),
    And(Box<ParsedExprView>, Box<ParsedExprView>),
    Or(Box<ParsedExprView>, Box<ParsedExprView>),
    Not(Box<ParsedExprView>),
}

/// The abstract form of the elements of a rule set.
pub open spec fn rule_set_view(v: Seq<(String, bool)>) -> Seq<(Seq<char>, bool)> {
    Seq::new(v.len(), |i: int| (v[i].0@, v[i].1))
}

impl View for ParsedExpr {
    type V = ParsedExprView;

    open spec fn view(&self) -> ParsedExprView {
        ParsedExprView { expr: self.expr.view_rec(), ty: self.ty, span: range_pair(self.span) }
    }
}

impl Expression {
    /// The abstract form of the expression.
    pub open spec fn view_rec(&self) -> ExpressionView
        decreases self,
    {
        match self {
            Expression::Filesize => ExpressionView::Filesize,
            Expression::Number(n) => ExpressionView::Number(*n),
            Expression::Boolean(b) => ExpressionView::Boolean(*b),
            Expression::Bytes(v) => ExpressionView::Bytes(v@),
            Expression::Count(s) => ExpressionView::Count(s@),
            Expression::CountInRange { variable_name, from, to } => ExpressionView::CountInRange {
                variable_name: variable_name@,
                from: Box::new(
                    ParsedExprView {
                        expr: from.expr.view_rec(),
                        ty: from.ty,
                        span: range_pair(from.span),
                    },
                ),
                to: Box::new(
                    ParsedExprView { expr: to.expr.view_rec(), ty: to.ty, span: range_pair(to.span) },
                ),
            },
            Expression::Offset { variable_name, occurence_number } => ExpressionView::Offset {
                variable_name: variable_name@,
                occurence_number: Box::new(
                    ParsedExprView {
                        expr: occurence_number.expr.view_rec(),
                        ty: occurence_number.ty,
                        span: range_pair(occurence_number.span),
                    },
                ),
            },
            Expression::Length { variable_name, occurence_number } => ExpressionView::Length {
                variable_name: variable_name@,
                occurence_number: Box::new(
                    ParsedExprView {
                        expr: occurence_number.expr.view_rec(),
                        ty: occurence_number.ty,
                        span: range_pair(occurence_number.span),
                    },
                ),
            },
            Expression::Variable(s) => ExpressionView::Variable(s@),
            Expression::OfThem { all } => ExpressionView::OfThem { all: *all },
            Expression::OfRules { all, rules } => ExpressionView::OfRules {
                all: *all,
                rules: rule_set_view(rules@),
            },
            Expression::Identifier(name) => ExpressionView::Identifier(name@),
            Expression::Subfield { base, name } => ExpressionView::Subfield {
                base: Box::new(
                    ParsedExprView {
                        expr: base.expr.view_rec(),
                        ty: base.ty,
                        span: range_pair(base.span),
                    },
                ),
                name: name@,
            },
            Expression::Subscript { base, index } => ExpressionView::Subscript {
                base: Box::new(
                    ParsedExprView {
                        expr: base.expr.view_rec(),
                        ty: base.ty,
                        span: range_pair(base.span),
                    },
                ),
                index: Box::new(
                    ParsedExprView {
                        expr: index.expr.view_rec(),
                        ty: index.ty,
                        span: range_pair(index.span),
                    },
                ),
            },
            Expression::Cmp { left, right, less_than, can_be_equal } => ExpressionView::Cmp {
                left: Box::new(
                    ParsedExprView {
                        expr: left.expr.view_rec(),
                        ty: left.ty,
                        span: range_pair(left.span),
                    },
                ),
                right: Box::new(
                    ParsedExprView {
                        expr: right.expr.view_rec(),
                        ty: right.ty,
                        span: range_pair(right.span),
                    },
                ),
                less_than: *less_than,
                can_be_equal: *can_be_equal,
            },
            Expression::Eq(a, b) => ExpressionView::Eq(
                Box::new(ParsedExprView { expr: a.expr.view_rec(), ty: a.ty, span: range_pair(a.span) }),
                Box::new(ParsedExprView { expr: b.expr.view_rec(), ty: b.ty, span: range_pair(b.span) }),
            ),
            Expression::NotEq(a, b) => ExpressionView::NotEq(
                Box::new(ParsedExprView { expr: a.expr.view_rec(), ty: a.ty, span: range_pair(a.span) }),
                Box::new(ParsedExprView { expr: b.expr.view_rec(), ty: b.ty, span: range_pair(b.span) }),
            ),
            Expression::And(a, b) => ExpressionView::And(
                Box::new(ParsedExprView { expr: a.expr.view_rec(), ty: a.ty, span: range_pair(a.span) }),
                Box::new(ParsedExprView { expr: b.expr.view_rec(), ty: b.ty, span: range_pair(b.span) }),
            ),
            Expression::Or(a, b) => ExpressionView::Or(
                Box::new(ParsedExprView { expr: a.expr.view_rec(), ty: a.ty, span: range_pair(a.span) }),
                Box::new(ParsedExprView { expr: b.expr.view_rec(), ty: b.ty, span: range_pair(b.span) }),
            ),
            Expression::Not(a) => ExpressionView::Not(
                Box::new(ParsedExprView { expr: a.expr.view_rec(), ty: a.ty, span: range_pair(a.span) }),
            ),
        }
    }
}

} // verus!
