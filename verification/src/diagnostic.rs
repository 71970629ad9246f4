//! Diagnostics of errors: a message, the spans of the input it is about,
//! and, for a report, their short rendering by `codespan_reporting`.
use std::ops::Range;
use vstd::prelude::*;
use vstd::string::StringExecFns;
use vstd::utf8::decode_utf8;

use codespan_reporting::diagnostic::{Diagnostic, Label, LabelStyle, Severity};
use codespan_reporting::files::SimpleFile;
use codespan_reporting::term::{emit, termcolor::Buffer, Config, DisplayStyle};

use crate::compiler::AddRuleError;
use crate::error::CompilationError;
use crate::expression::Type;
use crate::hex_string::{lemma_decimal_ascii, push_decimal, spec_decimal};
use crate::lexer::{ascii_string, Error, ErrorKind, Modifier};
use crate::variable::{range_pair, VariableCompilationError};

verus! {

/// A diagnostic, as plain data: whether it is a warning (or an error), its
/// message, its labels (whether primary, the span, and a message) and its
/// notes.
#[derive(Debug)]
pub struct DiagnosticData {
    pub is_warning: bool,
    pub message: String,
    pub labels: Vec<(bool, Range<usize>, String)>,
    pub notes: Vec<String>,
}

/// The abstract form of a [`DiagnosticData`].
pub struct DiagnosticView {
    pub is_warning: bool,
    pub message: Seq<char>,
    pub labels: Seq<(bool, (int, int), Seq<char>)>,
    pub notes: Seq<Seq<char>>,
}

impl View for DiagnosticData {
    type V = DiagnosticView;

    open spec fn view(&self) -> DiagnosticView {
        DiagnosticView {
            is_warning: self.is_warning,
            message: self.message@,
            labels: Seq::new(
                self.labels@.len(),
                |i: int| (self.labels@[i].0, range_pair(self.labels@[i].1), self.labels@[i].2@),
            ),
            notes: Seq::new(self.notes@.len(), |i: int| self.notes@[i]@),
        }
    }
}

/// The short report, `<name>:<line>:<column>: <message>` and the like, that
/// `codespan_reporting::term::emit` writes for the diagnostic `d` on the
/// input `input` named `name`.
pub uninterp spec fn short_report(name: Seq<char>, input: Seq<char>, d: DiagnosticView) -> Seq<char>;

/// An error diagnostic with its labels.
pub open spec fn error_with(message: Seq<char>, labels: Seq<(bool, (int, int), Seq<char>)>) -> DiagnosticView {
    DiagnosticView { is_warning: false, message, labels, notes: Seq::empty() }
}

/// An error diagnostic with one primary label, without message, on `span`.
pub open spec fn error_at(message: Seq<char>, span: Range<usize>) -> DiagnosticView {
    error_with(message, seq![(true, range_pair(span), Seq::empty())])
}

/// The decimal form of an integer.
pub open spec fn num(n: int) -> Seq<char> {
    if n < 0 {
        "-"@ + decode_utf8(spec_decimal((-n) as nat))
    } else {
        decode_utf8(spec_decimal(n as nat))
    }
}

/// The name of a type.
pub open spec fn type_text(ty: Type) -> Seq<char> {
    match ty {
        Type::Integer => "integer"@,
        Type::Boolean => "boolean"@,
        Type::Bytes => "bytes"@,
        Type::Undefined => "undefined"@,
    }
}

/// The keyword of a modifier.
pub open spec fn modifier_name(m: Modifier) -> Seq<char> {
    match m {
        Modifier::Ascii => "ascii"@,
        Modifier::Wide => "wide"@,
        Modifier::Nocase => "nocase"@,
        Modifier::Fullword => "fullword"@,
        Modifier::Private => "private"@,
        Modifier::Xor => "xor"@,
        Modifier::Base64 => "base64"@,
        Modifier::Base64Wide => "base64wide"@,
    }
}

/// The text of an error of the compilation of a variable.
pub open spec fn spec_variable_error_text(e: VariableCompilationError) -> Seq<char> {
    match e {
        VariableCompilationError::Regex(m) => m@,
        VariableCompilationError::AtomsExtractionError => "unable to extract atoms"@,
        VariableCompilationError::WidenError => "unable to apply the wide modifier to the regex"@,
    }
}

/// The diagnostic of a compilation error: an error, with its message and
/// the span it is about.
pub open spec fn spec_compilation_diagnostic(e: CompilationError) -> DiagnosticView {
    match e {
        CompilationError::DuplicatedRuleName { name, span } => error_at(
            "rule `"@ + name@ + "` is already declared in this namespace"@,
            span,
        ),
        CompilationError::DuplicatedVariable { name, span } => error_at(
            "variable $"@ + name@ + " is declared more than once"@,
            span,
        ),
        CompilationError::MatchOnWildcardRuleSet { rule_name, name_span, rule_set } => error_at(
            "rule \""@ + rule_name@ + "\" matches a previous rule set \""@ + rule_set@ + "\""@,
            name_span,
        ),
        CompilationError::UnknownIdentifier { name, span } => error_at(
            "unknown identifier \""@ + name@ + "\""@,
            span,
        ),
        CompilationError::UnknownImport { name, span } => error_at("unknown import "@ + name@, span),
        CompilationError::UnknownVariable { variable_name, span } => error_at(
            "unknown variable $"@ + variable_name@,
            span,
        ),
        CompilationError::UnusedVariable { name, span } => error_at(
            "variable $"@ + name@ + " is unused"@,
            span,
        ),
        CompilationError::VariableCompilation { variable_name, span, error } => error_at(
            "variable $"@ + variable_name@ + " cannot be compiled: "@ + spec_variable_error_text(
                error,
            ),
            span,
        ),
    }
}

/// The diagnostic of a parse error: an error on the span of the error,
/// with a message that says what went wrong.
pub open spec fn spec_parse_diagnostic(e: Error) -> DiagnosticView {
    match e.kind {
        ErrorKind::Base64AlphabetInvalidLength { length } => error_at(
            "base64 modifier alphabet must contain exactly 64 characters, got "@ + num(
                length as int,
            ),
            e.span,
        ),
        ErrorKind::EmptyRegex => error_at("empty regex cannot be used"@, e.span),
        ErrorKind::ExpressionInvalidType { ty, expected_type } => error_with(
            "expression has an invalid type"@,
            seq![
                (
                    true,
                    range_pair(e.span),
                    "expected "@ + type_text(expected_type) + ", found "@ + type_text(ty),
                ),
            ],
        ),
        ErrorKind::ExpressionIncompatibleTypes { left_type, left_span, right_type, right_span } =>
            error_with(
            "expressions have invalid types"@,
            seq![
                (false, range_pair(left_span), "this has type "@ + type_text(left_type)),
                (false, range_pair(right_span), "this has type "@ + type_text(right_type)),
            ],
        ),
        ErrorKind::HasTrailingData => error_with(
            "syntax error"@,
            seq![(true, range_pair(e.span), "end of file expected"@)],
        ),
        ErrorKind::JumpEmpty => error_at("jump cannot have a length of 0"@, e.span),
        ErrorKind::JumpRangeInvalid { from, to } => error_at(
            "invalid range for the jump: "@ + num(from as int) + " > "@ + num(to as int),
            e.span,
        ),
        ErrorKind::JumpTooBigInAlternation { limit } => error_at(
            "jumps over "@ + num(limit as int) + " not allowed inside alternations (|)"@,
            e.span,
        ),
        ErrorKind::JumpUnboundedInAlternation => error_at(
            "unbounded jumps not allowed inside alternations (|)"@,
            e.span,
        ),
        ErrorKind::ModifiersDuplicated { modifier } => error_at(
            "string modifier "@ + modifier_name(modifier) + " appears multiple times"@,
            e.span,
        ),
        ErrorKind::ModifiersIncompatible { first_modifier, second_modifier } => error_at(
            "string modifiers "@ + modifier_name(first_modifier) + " and "@ + modifier_name(
                second_modifier,
            ) + " are incompatible"@,
            e.span,
        ),
        ErrorKind::MulOverflow { left, right } => error_at(
            "multiplication "@ + num(left as int) + " * "@ + num(right as int) + " overflows"@,
            e.span,
        ),
        ErrorKind::SyntaxError => error_at("syntax error"@, e.span),
        ErrorKind::StrToIntError => error_at(
            "error converting to integer: number too large"@,
            e.span,
        ),
        ErrorKind::StrToHexIntError => error_at(
            "error converting hexadecimal notation to integer"@,
            e.span,
        ),
        ErrorKind::XorRangeInvalidValue { value } => error_at(
            "invalid value in xor range: "@ + num(value as int) + " is not in the range 0-255"@,
            e.span,
        ),
        ErrorKind::XorRangeInvalid { from, to } => error_at(
            "xor range is invalid: "@ + num(from as int) + " > "@ + num(to as int),
            e.span,
        ),
    }
}

/// The diagnostic of an error while adding rules.
pub open spec fn spec_add_rule_diagnostic(e: AddRuleError) -> DiagnosticView {
    match e {
        AddRuleError::ParseError(err) => spec_parse_diagnostic(err),
        AddRuleError::CompilationError(err) => spec_compilation_diagnostic(err),
    }
}

/// Lemma: concatenation of sequences of characters is associative.
proof fn lemma_concat_assoc()
    ensures
        forall|a: Seq<char>, b: Seq<char>, c: Seq<char>| #![trigger (a + b) + c] (a + b) + c == a + (b + c),
{
    assert forall|a: Seq<char>, b: Seq<char>, c: Seq<char>| #![trigger (a + b) + c] (a + b) + c == a + (b + c) by {
        assert((a + b) + c =~= a + (b + c));
    }
}

/// An error diagnostic with `message` and one primary label on `span`.
fn error_data(message: String, span: &Range<usize>) -> (r: DiagnosticData)
    ensures
        r@ == error_at(message@, *span),
{
    let mut labels: Vec<(bool, Range<usize>, String)> = Vec::new();
    labels.push((true, Range { start: span.start, end: span.end }, String::new()));
    let r = DiagnosticData { is_warning: false, message, labels, notes: Vec::new() };
    assert(r@.labels =~= seq![(true, range_pair(*span), Seq::<char>::empty())]);
    assert(r@.notes =~= Seq::<Seq<char>>::empty());
    r
}

/// Append the decimal form of `n`, see [`num`].
pub(crate) fn push_number(s: &mut String, n: i128)
    requires
        -0x1_0000_0000_0000_0000 < n < 0x1_0000_0000_0000_0000,
    ensures
        final(s)@ == old(s)@ + num(n as int),
{
    let u: u64 = if n < 0 {
        s.append("-");
        (0 - n) as u64
    } else {
        n as u64
    };
    let mut digits: Vec<u8> = Vec::new();
    push_decimal(&mut digits, u);
    assert(digits@ =~= spec_decimal(u as nat));
    proof {
        lemma_decimal_ascii(u as nat);
    }
    let text = ascii_string(digits);
    s.append(text.as_str());
    proof {
        lemma_concat_assoc();
    }
}

/// Append the name of a type, see [`type_text`].
fn push_type_name(s: &mut String, ty: Type)
    ensures
        final(s)@ == old(s)@ + type_text(ty),
{
    match ty {
        Type::Integer => s.append("integer"),
        Type::Boolean => s.append("boolean"),
        Type::Bytes => s.append("bytes"),
        Type::Undefined => s.append("undefined"),
    }
}

/// Append the keyword of a modifier, see [`modifier_name`].
fn push_modifier_name(s: &mut String, m: Modifier)
    ensures
        final(s)@ == old(s)@ + modifier_name(m),
{
    match m {
        Modifier::Ascii => s.append("ascii"),
        Modifier::Wide => s.append("wide"),
        Modifier::Nocase => s.append("nocase"),
        Modifier::Fullword => s.append("fullword"),
        Modifier::Private => s.append("private"),
        Modifier::Xor => s.append("xor"),
        Modifier::Base64 => s.append("base64"),
        Modifier::Base64Wide => s.append("base64wide"),
    }
}

/// Append the text of an error of the compilation of a variable, see
/// [`spec_variable_error_text`].
fn push_variable_error_text(s: &mut String, e: &VariableCompilationError)
    ensures
        final(s)@ == old(s)@ + spec_variable_error_text(*e),
{
    match e {
        VariableCompilationError::Regex(m) => s.append(m.as_str()),
        VariableCompilationError::AtomsExtractionError => s.append("unable to extract atoms"),
        VariableCompilationError::WidenError => s.append("unable to apply the wide modifier to the regex"),
    }
}

impl CompilationError {
    /// The diagnostic of the error, see [`spec_compilation_diagnostic`].
    pub fn to_diagnostic(&self) -> (r: DiagnosticData)
        ensures
            r@ == spec_compilation_diagnostic(*self),
    {
        let mut m = String::new();
        let span = match self {
            CompilationError::DuplicatedRuleName { name, span } => {
                m.append("rule `");
                m.append(name.as_str());
                m.append("` is already declared in this namespace");
                span
            },
            CompilationError::DuplicatedVariable { name, span } => {
                m.append("variable $");
                m.append(name.as_str());
                m.append(" is declared more than once");
                span
            },
            CompilationError::MatchOnWildcardRuleSet { rule_name, name_span, rule_set } => {
                m.append("rule \"");
                m.append(rule_name.as_str());
                m.append("\" matches a previous rule set \"");
                m.append(rule_set.as_str());
                m.append("\"");
                name_span
            },
            CompilationError::UnknownIdentifier { name, span } => {
                m.append("unknown identifier \"");
                m.append(name.as_str());
                m.append("\"");
                span
            },
            CompilationError::UnknownImport { name, span } => {
                m.append("unknown import ");
                m.append(name.as_str());
                span
            },
            CompilationError::UnknownVariable { variable_name, span } => {
                m.append("unknown variable $");
                m.append(variable_name.as_str());
                span
            },
            CompilationError::UnusedVariable { name, span } => {
                m.append("variable $");
                m.append(name.as_str());
                m.append(" is unused");
                span
            },
            CompilationError::VariableCompilation { variable_name, span, error } => {
                m.append("variable $");
                m.append(variable_name.as_str());
                m.append(" cannot be compiled: ");
                push_variable_error_text(&mut m, error);
                span
            },
        };
        let r = error_data(m, span);
        proof {
            lemma_concat_assoc();
        }
        r
    }
}

impl Error {
    /// The diagnostic of the error, see [`spec_parse_diagnostic`].
    pub fn to_diagnostic(&self) -> (r: DiagnosticData)
        ensures
            r@ == spec_parse_diagnostic(*self),
    {
        let mut m = String::new();
        let r = match &self.kind {
            ErrorKind::Base64AlphabetInvalidLength { length } => {
                m.append("base64 modifier alphabet must contain exactly 64 characters, got ");
                push_number(&mut m, *length as i128);
                error_data(m, &self.span)
            },
            ErrorKind::EmptyRegex => {
                m.append("empty regex cannot be used");
                error_data(m, &self.span)
            },
            ErrorKind::ExpressionInvalidType { ty, expected_type } => {
                m.append("expression has an invalid type");
                let mut l = String::new();
                l.append("expected ");
                push_type_name(&mut l, *expected_type);
                l.append(", found ");
                push_type_name(&mut l, *ty);
                let mut labels: Vec<(bool, Range<usize>, String)> = Vec::new();
                labels.push((true, Range { start: self.span.start, end: self.span.end }, l));
                let d = DiagnosticData { is_warning: false, message: m, labels, notes: Vec::new() };
                assert(d@.labels =~= seq![(true, range_pair(self.span), "expected "@ + type_text(*expected_type) + ", found "@ + type_text(*ty))]);
                assert(d@.notes =~= Seq::<Seq<char>>::empty());
                d
            },
            ErrorKind::ExpressionIncompatibleTypes { left_type, left_span, right_type, right_span } => {
                m.append("expressions have invalid types");
                let mut l1 = String::new();
                l1.append("this has type ");
                push_type_name(&mut l1, *left_type);
                let mut l2 = String::new();
                l2.append("this has type ");
                push_type_name(&mut l2, *right_type);
                let mut labels: Vec<(bool, Range<usize>, String)> = Vec::new();
                labels.push((false, Range { start: left_span.start, end: left_span.end }, l1));
                labels.push((false, Range { start: right_span.start, end: right_span.end }, l2));
                let d = DiagnosticData { is_warning: false, message: m, labels, notes: Vec::new() };
                assert(d@.labels =~= seq![
                    (false, range_pair(*left_span), "this has type "@ + type_text(*left_type)),
                    (false, range_pair(*right_span), "this has type "@ + type_text(*right_type)),
                ]);
                assert(d@.notes =~= Seq::<Seq<char>>::empty());
                d
            },
            ErrorKind::HasTrailingData => {
                m.append("syntax error");
                let mut l = String::new();
                l.append("end of file expected");
                let mut labels: Vec<(bool, Range<usize>, String)> = Vec::new();
                labels.push((true, Range { start: self.span.start, end: self.span.end }, l));
                let d = DiagnosticData { is_warning: false, message: m, labels, notes: Vec::new() };
                assert(d@.labels =~= seq![(true, range_pair(self.span), "end of file expected"@)]);
                assert(d@.notes =~= Seq::<Seq<char>>::empty());
                d
            },
            ErrorKind::JumpEmpty => {
                m.append("jump cannot have a length of 0");
                error_data(m, &self.span)
            },
            ErrorKind::JumpRangeInvalid { from, to } => {
                m.append("invalid range for the jump: ");
                push_number(&mut m, *from as i128);
                m.append(" > ");
                push_number(&mut m, *to as i128);
                error_data(m, &self.span)
            },
            ErrorKind::JumpTooBigInAlternation { limit } => {
                m.append("jumps over ");
                push_number(&mut m, *limit as i128);
                m.append(" not allowed inside alternations (|)");
                error_data(m, &self.span)
            },
            ErrorKind::JumpUnboundedInAlternation => {
                m.append("unbounded jumps not allowed inside alternations (|)");
                error_data(m, &self.span)
            },
            ErrorKind::ModifiersDuplicated { modifier } => {
                m.append("string modifier ");
                push_modifier_name(&mut m, *modifier);
                m.append(" appears multiple times");
                error_data(m, &self.span)
            },
            ErrorKind::ModifiersIncompatible { first_modifier, second_modifier } => {
                m.append("string modifiers ");
                push_modifier_name(&mut m, *first_modifier);
                m.append(" and ");
                push_modifier_name(&mut m, *second_modifier);
                m.append(" are incompatible");
                error_data(m, &self.span)
            },
            ErrorKind::MulOverflow { left, right } => {
                m.append("multiplication ");
                push_number(&mut m, *left as i128);
                m.append(" * ");
                push_number(&mut m, *right as i128);
                m.append(" overflows");
                error_data(m, &self.span)
            },
            ErrorKind::SyntaxError => {
                m.append("syntax error");
                error_data(m, &self.span)
            },
            ErrorKind::StrToIntError => {
                m.append("error converting to integer: number too large");
                error_data(m, &self.span)
            },
            ErrorKind::StrToHexIntError => {
                m.append("error converting hexadecimal notation to integer");
                error_data(m, &self.span)
            },
            ErrorKind::XorRangeInvalidValue { value } => {
                m.append("invalid value in xor range: ");
                push_number(&mut m, *value as i128);
                m.append(" is not in the range 0-255");
                error_data(m, &self.span)
            },
            ErrorKind::XorRangeInvalid { from, to } => {
                m.append("xor range is invalid: ");
                push_number(&mut m, *from as i128);
                m.append(" > ");
                push_number(&mut m, *to as i128);
                error_data(m, &self.span)
            },
        };
        proof {
            lemma_concat_assoc();
        }
        r
    }
}

impl AddRuleError {
    /// The diagnostic of the error, see [`spec_add_rule_diagnostic`].
    pub fn to_diagnostic(&self) -> (r: DiagnosticData)
        ensures
            r@ == spec_add_rule_diagnostic(*self),
    {
        match self {
            AddRuleError::ParseError(err) => err.to_diagnostic(),
            AddRuleError::CompilationError(err) => err.to_diagnostic(),
        }
    }

    /// Convert to a displayable, single-lined description:
    /// `<input_name>:<line>:<column>: <description>`, see [`short_report`].
    ///
    /// `input` is the text that was given to [`crate::compiler::Compiler::add_rules_str`].
    pub fn to_short_description(&self, input_name: &str, input: &str) -> (r: String)
        ensures
            r@ == short_report(input_name@, input@, spec_add_rule_diagnostic(*self)),
    {
        emit_short(input_name, input, &self.to_diagnostic())
    }
}

/// The short report of a diagnostic (`codespan_reporting::term::emit` with
/// the short display style, without colors, into a buffer), as text.
///
/// Trusted: the text is the one named by [`short_report`].
#[verifier::external_body]
fn emit_short(name: &str, input: &str, d: &DiagnosticData) -> (r: String)
    ensures
        r@ == short_report(name@, input@, d@),
{
    let style = |p: bool| if p { LabelStyle::Primary } else { LabelStyle::Secondary };
    let labels = d.labels.iter().map(|(p, s, m)| Label::new(style(*p), (), s.clone()).with_message(m)).collect();
    let severity = if d.is_warning { Severity::Warning } else { Severity::Error };
    let diagnostic = Diagnostic::new(severity).with_message(&d.message).with_labels(labels).with_notes(d.notes.clone());
    let config = Config { display_style: DisplayStyle::Short, ..Config::default() };
    let mut writer = Buffer::no_color();
    let _written = emit(&mut writer, &config, &SimpleFile::new(name, input), &diagnostic);
    String::from_utf8_lossy(writer.as_slice()).to_string()
}

} // verus!
