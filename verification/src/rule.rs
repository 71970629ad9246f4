//! Compiled rules and their condition expressions.
use vstd::prelude::*;

use crate::variable::Variable;
use crate::variable_set::VariableSet;

verus! {

/// The rules of a rule set, resolved: each is the index of a rule, or
/// `None` for a global rule, always true when the others are evaluated.
#[derive(Debug)]
pub enum RuleRefs {
    /// No more rules.
    End,
    /// A rule, then the others.
    Ref(Option<usize>, Box<RuleRefs>),
}

/// The rule set of the references `v`, in order.
pub open spec fn rule_refs(v: Seq<Option<usize>>) -> RuleRefs
    decreases v.len(),
{
    if v.len() == 0 {
        RuleRefs::End
    } else {
        RuleRefs::Ref(v[0], Box::new(rule_refs(v.subrange(1, v.len() as int))))
    }
}

/// A compiled condition expression: names are resolved to indexes.
#[derive(Debug)]
pub enum Expr {
    /// Size of the scanned memory.
    Filesize,
    /// An integer.
    Number(i64),
    /// A boolean.
    Boolean(bool),
    /// A byte string.
    Bytes(Vec<u8>),
    /// Number of matches of the variable of this index.
    Count(usize),
    /// Number of matches of a variable starting between two offsets, both
    /// included.
    CountInRange { variable_index: usize, from: Box<Expr>, to: Box<Expr> },
    /// Offset of the n-th match of a variable, counted from 1.
    Offset { variable_index: usize, occurence_number: Box<Expr> },
    /// Length of the n-th match of a variable, counted from 1.
    Length { variable_index: usize, occurence_number: Box<Expr> },
    /// Whether a variable matches.
    Variable(usize),
    /// Whether all, or any, of the variables match.
    OfThem { all: bool },
    /// Whether all, or any, of a set of rules match.
    OfRules { all: bool, rules: RuleRefs },
    /// Result of a previous rule, by its index.
    Rule(usize),
    /// Value of an imported module, by its index in the scanner.
    Module(usize),
    /// Field of a module value.
    Subfield { base: Box<Expr>, name: String },
    /// Element of a module array or dictionary.
    Subscript { base: Box<Expr>, index: Box<Expr> },
    /// Comparison of two integers.
    Cmp { left: Box<Expr>, right: Box<Expr>, less_than: bool, can_be_equal: bool },
    /// Equality of two values.
    Eq(Box<Expr>, Box<Expr>),
    /// Inequality of two values.
    NotEq(Box<Expr>, Box<Expr>),
    /// Boolean conjunction.
    And(Box<Expr>, Box<Expr>),
    /// Boolean disjunction.
    Or(Box<Expr>, Box<Expr>),
    /// Boolean negation.
    Not(Box<Expr>),
}

/// A compiled rule.
#[derive(Debug)]
pub struct Rule {
    /// Name of the rule.
    pub name: String,
    /// Namespace of the rule, `None` for the default one.
    pub namespace: Option<String>,
    /// Whether the rule is private: it is then never reported.
    pub is_private: bool,
    /// Variables of the rule.
    pub variables: Vec<Variable>,
    /// Literal pass over the variables.
    pub variable_set: VariableSet,
    /// Condition of the rule.
    pub condition: Expr,
}

impl Rule {
    /// Whether the literal pass of the rule is the one of its variables.
    pub open spec fn wf(&self) -> bool {
        self.variable_set.is_literal_pass_of(self.variables@)
    }
}

} // verus!
