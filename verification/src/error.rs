//! Errors related to the compilation of rules.
use std::ops::Range;
use vstd::prelude::*;

use crate::variable::VariableCompilationError;

verus! {

/// Type of error while compiling a rule.
#[derive(Debug)]
pub enum CompilationError {
    /// Duplicated rule name in a namespace.
    DuplicatedRuleName {
        /// Name for the rule
        name: String,
        /// Span covering the rule name
        span: Range<usize>,
    },
    /// Duplicated variable names in a rule.
    DuplicatedVariable {
        /// Variable name appearing multiple times
        name: String,
        /// Span of the second variable declaration with this name.
        span: Range<usize>,
    },
    /// A rule matching a previous wildcard rule set cannot be added.
    ///
    /// Rules that match previous wildcard rule set are not allowed in a
    /// namespace.
    MatchOnWildcardRuleSet {
        /// The name of the rule being rejected
        rule_name: String,
        /// The span for the name of the rule being rejected.
        name_span: Range<usize>,
        /// The corresponding wildcard rule set previously used in the namespace.
        rule_set: String,
    },
    /// Unknown identifier used in a rule.
    UnknownIdentifier {
        /// The name of the identifier that is not bound.
        name: String,
        /// Span of the identifier name
        span: Range<usize>,
    },
    /// Unknown import used in a file.
    UnknownImport {
        /// The name being imported.
        name: String,
        /// The span covering the import.
        span: Range<usize>,
    },
    /// Unknown variable used in a rule.
    UnknownVariable {
        /// Name of the variable
        variable_name: String,
        /// Span of the variable use in the condition
        span: Range<usize>,
    },
    /// A variable declared in a rule was not used.
    UnusedVariable {
        /// Name of the variable
        name: String,
        /// Span covering the declaration of the variable
        span: Range<usize>,
    },
    /// Error while compiling a variable, indicating an issue with
    /// its expression.
    VariableCompilation {
        /// Name of the variable
        variable_name: String,
        /// Span covering the declaration of the variable
        span: Range<usize>,
        /// Type of error
        error: VariableCompilationError,
    },
}

} // verus!
