//! Declarations of string variables, as read from a rule.
use std::ops::Range;
use vstd::prelude::*;

use crate::expression::{ParsedExpr, ParsedExprView};
use crate::variable::range_pair;

verus! {

/// Modifiers flags of a variable: `ascii`, `wide`, `nocase`, `fullword`,
/// `private`, `xor`, `base64` and `base64wide`.
#[derive(Clone, Copy, Debug, PartialEq, Eq, Structural)]
pub struct VariableFlags {
    pub ascii: bool,
    pub wide: bool,
    pub nocase: bool,
    pub fullword: bool,
    pub private: bool,
    pub xor: bool,
    pub base64: bool,
    pub base64wide: bool,
}

impl VariableFlags {
    /// No modifier set.
    pub fn empty() -> (r: VariableFlags)
        ensures
            !r.ascii && !r.wide && !r.nocase && !r.fullword && !r.private && !r.xor && !r.base64
                && !r.base64wide,
    {
        VariableFlags {
            ascii: false,
            wide: false,
            nocase: false,
            fullword: false,
            private: false,
            xor: false,
            base64: false,
            base64wide: false,
        }
    }
}

/// Modifiers of a variable.
#[derive(Debug)]
pub struct VariableModifiers {
    /// The modifier flags.
    pub flags: VariableFlags,
    /// Range of bytes of the `xor` modifier, both ends included.
    pub xor_range: (u8, u8),
    /// Alphabet of the `base64` and `base64wide` modifiers, 64 bytes long.
    /// `None` for the standard alphabet.
    pub base64_alphabet: Option<Vec<u8>>,
}

/// A token of a hex string.
#[derive(Clone, Copy, Debug, PartialEq, Eq, Structural)]
pub enum HexToken {
    /// A byte, `AB`.
    Byte(u8),
    /// A byte of which only the bits of `mask` are given, by `value`: `A?`
    /// (mask `0xF0`), `?B` (mask `0x0F`) or `??` (mask 0).
    MaskedByte { value: u8, mask: u8 },
    /// Any `from` to `to` bytes, `[from-to]`; no upper bound for `None`.
    Jump { from: u32, to: Option<u32> },
    /// The start of alternatives, `(`.
    AlternativesStart,
    /// The separator of two alternatives, `|`.
    AlternativeSeparator,
    /// The end of alternatives, `)`.
    AlternativesEnd,
}

/// The value of a variable declaration.
#[derive(Debug)]
pub enum VariableDeclarationValue {
    /// A text string, as bytes.
    Bytes(Vec<u8>),
    /// A hex string, as its tokens: alternatives are well nested.
    HexString(Vec<HexToken>),
    /// A regular expression.
    Regex {
        /// The expression, between the slashes.
        expr: String,
        /// The `i` flag.
        case_insensitive: bool,
        /// The `s` flag.
        dot_all: bool,
    },
}

/// A variable declared in a rule.
#[derive(Debug)]
pub struct VariableDeclaration {
    /// Name of the variable, without the `$`. Empty for anonymous variables.
    pub name: String,
    /// Value of the variable.
    pub value: VariableDeclarationValue,
    /// Modifiers of the variable.
    pub modifiers: VariableModifiers,
    /// Span of the declaration in the input.
    pub span: Range<usize>,
}

/// A rule, as declared.
#[derive(Debug)]
pub struct RuleDeclaration {
    /// Name of the rule.
    pub name: String,
    /// Span of the name of the rule.
    pub name_span: Range<usize>,
    /// Variables declared in the rule.
    pub variables: Vec<VariableDeclaration>,
    /// Condition of the rule.
    pub condition: ParsedExpr,
    /// Whether the rule is private.
    pub is_private: bool,
    /// Whether the rule is global.
    pub is_global: bool,
}

/// An import of a module.
#[derive(Debug)]
pub struct Import {
    /// Name of the module imported.
    pub name: String,
    /// Span covering the import.
    pub span: Range<usize>,
}

/// A component of a rules file.
#[derive(Debug)]
pub enum YaraFileComponent {
    /// An import of a module.
    Import(Import),
    /// A rule.
    Rule(Box<RuleDeclaration>),
}

/// A parsed rules file.
#[derive(Debug)]
pub struct YaraFile {
    /// The components of the file, in order.
    pub components: Vec<YaraFileComponent>,
}

/// The abstract form of [`VariableModifiers`].
pub struct VariableModifiersView {
    pub flags: VariableFlags,
    pub xor_range: (u8, u8),
    pub base64_alphabet: Option<Seq<u8>>,
}

/// The abstract form of [`VariableDeclarationValue`].
pub enum VariableDeclarationValueView {
    Bytes(Seq<u8>),
    HexString(Seq<HexToken>),
    Regex { expr: Seq<char>, case_insensitive: bool, dot_all: bool },
}

/// The abstract form of [`VariableDeclaration`].
pub struct VariableDeclarationView {
    pub name: Seq<char>,
    pub value: VariableDeclarationValueView,
    pub modifiers: VariableModifiersView,
    pub span: (int, int),
}

/// The abstract form of [`RuleDeclaration`].
pub struct RuleDeclarationView {
    pub name: Seq<char>,
    pub name_span: (int, int),
    pub variables: Seq<VariableDeclarationView>,
    pub condition: ParsedExprView,
    pub is_private: bool,
    pub is_global: bool,
}

/// The abstract form of [`YaraFileComponent`].
pub enum YaraFileComponentView {
    Import { name: Seq<char>, span: (int, int) },
    Rule(RuleDeclarationView),
}

impl View for VariableModifiers {
    type V = VariableModifiersView;

    open spec fn view(&self) -> VariableModifiersView {
        VariableModifiersView {
            flags: self.flags,
            xor_range: self.xor_range,
            base64_alphabet: match self.base64_alphabet {
                Some(a) => Some(a@),
                None => None,
            },
        }
    }
}

impl View for VariableDeclarationValue {
    type V = VariableDeclarationValueView;

    open spec fn view(&self) -> VariableDeclarationValueView {
        match self {
            VariableDeclarationValue::Bytes(b) => VariableDeclarationValueView::Bytes(b@),
            VariableDeclarationValue::HexString(h) => VariableDeclarationValueView::HexString(h@),
            VariableDeclarationValue::Regex { expr, case_insensitive, dot_all } => {
                VariableDeclarationValueView::Regex {
                    expr: expr@,
                    case_insensitive: *case_insensitive,
                    dot_all: *dot_all,
                }
            },
        }
    }
}

impl View for VariableDeclaration {
    type V = VariableDeclarationView;

    open spec fn view(&self) -> VariableDeclarationView {
        VariableDeclarationView {
            name: self.name@,
            value: self.value@,
            modifiers: self.modifiers@,
            span: range_pair(self.span),
        }
    }
}

/// The abstract forms of variable declarations.
pub open spec fn declarations_view(v: Seq<VariableDeclaration>) -> Seq<VariableDeclarationView> {
    Seq::new(v.len(), |i: int| v[i]@)
}

impl View for RuleDeclaration {
    type V = RuleDeclarationView;

    open spec fn view(&self) -> RuleDeclarationView {
        RuleDeclarationView {
            name: self.name@,
            name_span: range_pair(self.name_span),
            variables: declarations_view(self.variables@),
            condition: self.condition@,
            is_private: self.is_private,
            is_global: self.is_global,
        }
    }
}

impl View for YaraFileComponent {
    type V = YaraFileComponentView;

    open spec fn view(&self) -> YaraFileComponentView {
        match self {
            YaraFileComponent::Import(i) => YaraFileComponentView::Import {
                name: i.name@,
                span: range_pair(i.span),
            },
            YaraFileComponent::Rule(r) => YaraFileComponentView::Rule(r@),
        }
    }
}

/// The abstract forms of the components of a file.
pub open spec fn components_view(v: Seq<YaraFileComponent>) -> Seq<YaraFileComponentView> {
    Seq::new(v.len(), |i: int| v[i]@)
}

impl View for YaraFile {
    type V = Seq<YaraFileComponentView>;

    open spec fn view(&self) -> Seq<YaraFileComponentView> {
        components_view(self.components@)
    }
}

} // verus!
