//! Parsing of rules files.
//!
//! A file is a sequence of imports, `import "name"`, and rules:
//!
//! ```text
//! [private] [global] rule name {
//!     strings:
//!         $a = "text" modifiers...
//!         $b = /regex/is modifiers...
//!         $c = { 61 ?2 [1-4] ( 62 | 63 64 ) } private
//!     condition:
//!         expression
//! }
//! ```
//!
//! The `strings` section is optional. The modifiers of a text string are
//! `ascii`, `wide`, `nocase`, `fullword`, `private`, `xor`, `xor(n)`,
//! `xor(from-to)`, `base64`, `base64("alphabet")`, `base64wide` and
//! `base64wide("alphabet")`; a regex takes the first five only, a hex string
//! `private` only.
use std::ops::Range;
use vstd::prelude::*;
use vstd::string::StringSliceAdditionalSpecFns;
use vstd::utf8::{decode_utf8, valid_utf8};

use crate::declaration::{
    HexToken, RuleDeclaration, RuleDeclarationView, VariableDeclaration, VariableDeclarationValue,
    VariableDeclarationValueView, VariableDeclarationView, VariableFlags, VariableModifiers,
    VariableModifiersView, YaraFile, YaraFileComponent, YaraFileComponentView, Import,
    declarations_view, components_view,
};
use crate::expr_parser::{expression, spec_or};
use crate::expression::ParsedExpr;
use crate::lexer::{
    agrees, byte_at_is, byte_is, digit_value, err_at, is_hex_byte, ident_end, ident_text, is_ident_start, keyword_at,
    kw_bytes, lemma_keyword_at, number, regex_literal, remaining, skip_ws, spec_ident_len,
    spec_keyword_at, spec_number, spec_regex, spec_skip, spec_string_literal, spec_text,
    string_from_utf8, string_literal, syntax_at, syntax_error, Error, ErrorKind, Kw, Modifier, PRes,
};

verus! {

// ---------------------------------------------------------------------------
// Modifiers
// ---------------------------------------------------------------------------

/// The keyword of a modifier.
pub open spec fn modifier_kw(m: Modifier) -> Kw {
    match m {
        Modifier::Ascii => Kw::Ascii,
        Modifier::Wide => Kw::Wide,
        Modifier::Nocase => Kw::Nocase,
        Modifier::Fullword => Kw::Fullword,
        Modifier::Private => Kw::Private,
        Modifier::Xor => Kw::Xor,
        Modifier::Base64 => Kw::Base64,
        Modifier::Base64Wide => Kw::Base64Wide,
    }
}

/// Whether the modifier `m` is set in `f`.
pub open spec fn has_modifier(f: VariableFlags, m: Modifier) -> bool {
    match m {
        Modifier::Ascii => f.ascii,
        Modifier::Wide => f.wide,
        Modifier::Nocase => f.nocase,
        Modifier::Fullword => f.fullword,
        Modifier::Private => f.private,
        Modifier::Xor => f.xor,
        Modifier::Base64 => f.base64,
        Modifier::Base64Wide => f.base64wide,
    }
}

/// The flags `f` with the modifier `m` set.
pub open spec fn with_modifier(f: VariableFlags, m: Modifier) -> VariableFlags {
    VariableFlags {
        ascii: f.ascii || m == Modifier::Ascii,
        wide: f.wide || m == Modifier::Wide,
        nocase: f.nocase || m == Modifier::Nocase,
        fullword: f.fullword || m == Modifier::Fullword,
        private: f.private || m == Modifier::Private,
        xor: f.xor || m == Modifier::Xor,
        base64: f.base64 || m == Modifier::Base64,
        base64wide: f.base64wide || m == Modifier::Base64Wide,
    }
}

/// The kind of value a declaration holds, which decides the modifiers that
/// it takes.
#[derive(Clone, Copy, Debug, PartialEq, Eq, Structural)]
pub enum ValueKind {
    /// A text string: every modifier.
    Text,
    /// A regex: `ascii`, `wide`, `nocase`, `fullword` and `private`.
    Regex,
    /// A hex string: `private` only.
    Hex,
}

/// The modifier at `j`, if there is one that a value of kind `kind` takes.
pub open spec fn spec_modifier_at(s: Seq<u8>, j: int, kind: ValueKind) -> Option<Modifier> {
    if spec_keyword_at(s, j, Kw::Private) {
        Some(Modifier::Private)
    } else if kind == ValueKind::Hex {
        None
    } else if spec_keyword_at(s, j, Kw::Ascii) {
        Some(Modifier::Ascii)
    } else if spec_keyword_at(s, j, Kw::Wide) {
        Some(Modifier::Wide)
    } else if spec_keyword_at(s, j, Kw::Nocase) {
        Some(Modifier::Nocase)
    } else if spec_keyword_at(s, j, Kw::Fullword) {
        Some(Modifier::Fullword)
    } else if kind == ValueKind::Regex {
        None
    } else if spec_keyword_at(s, j, Kw::Xor) {
        Some(Modifier::Xor)
    } else if spec_keyword_at(s, j, Kw::Base64) {
        Some(Modifier::Base64)
    } else if spec_keyword_at(s, j, Kw::Base64Wide) {
        Some(Modifier::Base64Wide)
    } else {
        None
    }
}

/// The first pair of modifiers set in `f` that cannot go together: `xor`
/// with `nocase`, `base64` or `base64wide`; `base64` or `base64wide` with
/// `nocase` or `fullword`.
pub open spec fn spec_incompatible(f: VariableFlags) -> Option<(Modifier, Modifier)> {
    if f.xor && f.nocase {
        Some((Modifier::Xor, Modifier::Nocase))
    } else if f.xor && f.base64 {
        Some((Modifier::Xor, Modifier::Base64))
    } else if f.xor && f.base64wide {
        Some((Modifier::Xor, Modifier::Base64Wide))
    } else if f.base64 && f.nocase {
        Some((Modifier::Base64, Modifier::Nocase))
    } else if f.base64 && f.fullword {
        Some((Modifier::Base64, Modifier::Fullword))
    } else if f.base64wide && f.nocase {
        Some((Modifier::Base64Wide, Modifier::Nocase))
    } else if f.base64wide && f.fullword {
        Some((Modifier::Base64Wide, Modifier::Fullword))
    } else {
        None
    }
}

/// A value of a `xor` range at `q`: a number from 0 to 255.
pub open spec fn spec_xor_value(s: Seq<u8>, q: int) -> PRes<u8> {
    match spec_number(s, q) {
        Err(e) => Err(e),
        Ok((k, v)) => if v < 0 || v > 255 {
            Err(err_at(q, q + k, ErrorKind::XorRangeInvalidValue { value: v }))
        } else {
            Ok((k, v as u8))
        },
    }
}

/// The arguments of `xor` at `p`: `(n)` or `(from-to)`, the range of bytes
/// to xor with, both ends included. The length counts up to the closing
/// parenthesis.
pub open spec fn spec_xor_args(s: Seq<u8>, p: int) -> PRes<(u8, u8)> {
    if !byte_is(s, p, 40) {
        Err(syntax_at(p))
    } else {
        let q = spec_skip(s, p + 1);
        match spec_xor_value(s, q) {
            Err(e) => Err(e),
            Ok((k, from)) => {
                let q2 = spec_skip(s, q + k);
                if byte_is(s, q2, 45) {
                    let q3 = spec_skip(s, q2 + 1);
                    match spec_xor_value(s, q3) {
                        Err(e) => Err(e),
                        Ok((k2, to)) => {
                            let q4 = spec_skip(s, q3 + k2);
                            if !byte_is(s, q4, 41) {
                                Err(syntax_at(q4))
                            } else if from > to {
                                Err(err_at(p, q4 + 1, ErrorKind::XorRangeInvalid { from, to }))
                            } else {
                                Ok(((q4 + 1 - p) as nat, (from, to)))
                            }
                        },
                    }
                } else if byte_is(s, q2, 41) {
                    Ok(((q2 + 1 - p) as nat, (from, from)))
                } else {
                    Err(syntax_at(q2))
                }
            },
        }
    }
}

/// The argument of `base64` or `base64wide` at `p`: `("alphabet")`, an
/// alphabet of 64 bytes. The length counts up to the closing parenthesis.
pub open spec fn spec_base64_args(s: Seq<u8>, p: int) -> PRes<Seq<u8>> {
    if !byte_is(s, p, 40) {
        Err(syntax_at(p))
    } else {
        let q = spec_skip(s, p + 1);
        match spec_string_literal(s, q) {
            Err(e) => Err(e),
            Ok((k, a)) => if a.len() != 64 {
                Err(
                    err_at(
                        q,
                        q + k,
                        ErrorKind::Base64AlphabetInvalidLength { length: a.len() as usize },
                    ),
                )
            } else {
                let q2 = spec_skip(s, q + k);
                if !byte_is(s, q2, 41) {
                    Err(syntax_at(q2))
                } else {
                    Ok(((q2 + 1 - p) as nat, a))
                }
            },
        }
    }
}

/// No modifier set; a `xor` range of all bytes; the standard alphabet.
pub open spec fn no_modifiers() -> VariableModifiersView {
    VariableModifiersView {
        flags: VariableFlags {
            ascii: false,
            wide: false,
            nocase: false,
            fullword: false,
            private: false,
            xor: false,
            base64: false,
            base64wide: false,
        },
        xor_range: (0, 255),
        base64_alphabet: None,
    }
}

/// The modifiers from `j` on, `m` being those read before and `end` the end
/// of the last token read: the position after them, the end of their last
/// token, and all the modifiers. A modifier given twice is an error.
#[verifier::opaque]
pub open spec fn spec_modifiers(
    s: Seq<u8>,
    j: int,
    end: int,
    kind: ValueKind,
    m: VariableModifiersView,
) -> Result<(int, int, VariableModifiersView), Error>
    decreases remaining(s, j),
{
    match spec_modifier_at(s, j, kind) {
        None => Ok((j, end, m)),
        Some(md) => {
            proof {
                lemma_keyword_at(s, j, modifier_kw(md));
                lemma_kw_nonempty(modifier_kw(md));
            }
            let e = j + kw_bytes(modifier_kw(md)).len();
            if has_modifier(m.flags, md) {
                Err(err_at(j, e, ErrorKind::ModifiersDuplicated { modifier: md }))
            } else {
                let flags = with_modifier(m.flags, md);
                let p = spec_skip(s, e);
                if md == Modifier::Xor && byte_is(s, p, 40) {
                    match spec_xor_args(s, p) {
                        Err(err) => Err(err),
                        Ok((k, range)) => spec_modifiers(
                            s,
                            spec_skip(s, p + k),
                            p + k,
                            kind,
                            VariableModifiersView {
                                flags,
                                xor_range: range,
                                base64_alphabet: m.base64_alphabet,
                            },
                        ),
                    }
                } else if (md == Modifier::Base64 || md == Modifier::Base64Wide) && byte_is(
                    s,
                    p,
                    40,
                ) {
                    match spec_base64_args(s, p) {
                        Err(err) => Err(err),
                        Ok((k, alphabet)) => spec_modifiers(
                            s,
                            spec_skip(s, p + k),
                            p + k,
                            kind,
                            VariableModifiersView {
                                flags,
                                xor_range: m.xor_range,
                                base64_alphabet: Some(alphabet),
                            },
                        ),
                    }
                } else {
                    spec_modifiers(
                        s,
                        p,
                        e,
                        kind,
                        VariableModifiersView {
                            flags,
                            xor_range: m.xor_range,
                            base64_alphabet: m.base64_alphabet,
                        },
                    )
                }
            }
        },
    }
}

/// Lemma: every keyword has at least one byte.
pub proof fn lemma_kw_nonempty(k: Kw)
    ensures
        kw_bytes(k).len() >= 1,
{
}

// ---------------------------------------------------------------------------
// Declarations
// ---------------------------------------------------------------------------

// ---------------------------------------------------------------------------
// Hex strings
// ---------------------------------------------------------------------------

/// A byte of a hex string at `p`: two halves, each a hexadecimal digit or
/// `?` for any value.
pub open spec fn spec_hex_byte(s: Seq<u8>, p: int) -> Option<HexToken> {
    if !(0 <= p && p + 1 < s.len()) {
        None
    } else {
        let a = s[p];
        let b = s[p + 1];
        if is_hex_byte(a) && is_hex_byte(b) {
            Some(HexToken::Byte((digit_value(a) * 16 + digit_value(b)) as u8))
        } else if is_hex_byte(a) && b == 63 {
            Some(HexToken::MaskedByte { value: (digit_value(a) * 16) as u8, mask: 0xF0 })
        } else if a == 63 && is_hex_byte(b) {
            Some(HexToken::MaskedByte { value: digit_value(b) as u8, mask: 0x0F })
        } else if a == 63 && b == 63 {
            Some(HexToken::MaskedByte { value: 0, mask: 0 })
        } else {
            None
        }
    }
}

/// A bound of a jump at `q`: a number that fits in a `u32`.
pub open spec fn spec_jump_value(s: Seq<u8>, q: int) -> PRes<u32> {
    match spec_number(s, q) {
        Err(e) => Err(e),
        Ok((k, v)) => if v < 0 || v > u32::MAX {
            Err(err_at(q, q + k, ErrorKind::StrToIntError))
        } else {
            Ok((k, v as u32))
        },
    }
}

/// A jump at `p`: `[n]`, `[n-m]`, `[n-]` or `[-]`, its length and its
/// bounds; no upper bound for the last two. A jump of at most 0 bytes, or
/// whose bounds are in the wrong order, is an error.
pub open spec fn spec_jump(s: Seq<u8>, p: int) -> PRes<(u32, Option<u32>)> {
    if !byte_is(s, p, 91) {
        Err(syntax_at(p))
    } else {
        let q = spec_skip(s, p + 1);
        let parsed: Result<(int, u32, Option<u32>), Error> = if byte_is(s, q, 45) {
            Ok((spec_skip(s, q + 1), 0u32, None))
        } else {
            match spec_jump_value(s, q) {
                Err(e) => Err(e),
                Ok((k, from)) => {
                    let q2 = spec_skip(s, q + k);
                    if byte_is(s, q2, 45) {
                        let q3 = spec_skip(s, q2 + 1);
                        if byte_is(s, q3, 93) {
                            Ok((q3, from, None))
                        } else {
                            match spec_jump_value(s, q3) {
                                Err(e) => Err(e),
                                Ok((k2, to)) => Ok((spec_skip(s, q3 + k2), from, Some(to))),
                            }
                        }
                    } else {
                        Ok((q2, from, Some(from)))
                    }
                },
            }
        };
        match parsed {
            Err(e) => Err(e),
            Ok((c, from, to)) => if !byte_is(s, c, 93) {
                Err(syntax_at(c))
            } else if to == Some(0u32) {
                Err(err_at(p, c + 1, ErrorKind::JumpEmpty))
            } else if to matches Some(t) && from > t {
                Err(err_at(p, c + 1, ErrorKind::JumpRangeInvalid { from, to: to->Some_0 }))
            } else {
                Ok(((c + 1 - p) as nat, (from, to)))
            },
        }
    }
}

/// The largest jump allowed inside alternatives.
pub open spec fn jump_limit_in_alternatives() -> u32 {
    200
}

/// The tokens of a hex string from `j` on, `depth` alternatives being open
/// and `acc` being the tokens read before: the position after the closing
/// brace, and all the tokens. Inside alternatives, a jump must be bounded,
/// and by at most 200 bytes. A hex string holds at least one token; a token
/// that would not move forward is an error.
#[verifier::opaque]
pub open spec fn spec_hex_tokens(s: Seq<u8>, j: int, depth: nat, acc: Seq<HexToken>) -> Result<
    (int, Seq<HexToken>),
    Error,
>
    decreases remaining(s, j),
{
    let p = spec_skip(s, j);
    if byte_is(s, p, 125) {
        if depth != 0 || acc.len() == 0 {
            Err(syntax_at(p))
        } else {
            Ok((p + 1, acc))
        }
    } else if byte_is(s, p, 40) {
        spec_hex_tokens(s, p + 1, depth + 1, acc.push(HexToken::AlternativesStart))
    } else if byte_is(s, p, 124) {
        if depth == 0 {
            Err(syntax_at(p))
        } else {
            spec_hex_tokens(s, p + 1, depth, acc.push(HexToken::AlternativeSeparator))
        }
    } else if byte_is(s, p, 41) {
        if depth == 0 {
            Err(syntax_at(p))
        } else {
            spec_hex_tokens(s, p + 1, (depth - 1) as nat, acc.push(HexToken::AlternativesEnd))
        }
    } else if byte_is(s, p, 91) {
        match spec_jump(s, p) {
            Err(e) => Err(e),
            Ok((k, (from, to))) => {
                let end = p + k;
                if depth > 0 && to is None {
                    Err(err_at(p, end, ErrorKind::JumpUnboundedInAlternation))
                } else if depth > 0 && (to matches Some(t) && t > jump_limit_in_alternatives()) {
                    Err(
                        err_at(
                            p,
                            end,
                            ErrorKind::JumpTooBigInAlternation {
                                limit: jump_limit_in_alternatives(),
                            },
                        ),
                    )
                } else if k == 0 {
                    Err(syntax_at(p))
                } else {
                    spec_hex_tokens(s, end, depth, acc.push(HexToken::Jump { from, to }))
                }
            },
        }
    } else {
        match spec_hex_byte(s, p) {
            Some(t) => spec_hex_tokens(s, p + 2, depth, acc.push(t)),
            None => Err(syntax_at(p)),
        }
    }
}

/// A hex string at `q`, `{ tokens }`: its length and its tokens.
pub open spec fn spec_hex_string(s: Seq<u8>, q: int) -> PRes<Seq<HexToken>> {
    if !byte_is(s, q, 123) {
        Err(syntax_at(q))
    } else {
        match spec_hex_tokens(s, q + 1, 0, Seq::empty()) {
            Err(e) => Err(e),
            Ok((e, tokens)) => Ok(((e - q) as nat, tokens)),
        }
    }
}

/// The value of a declaration at `q`: a text string, a regex or a hex
/// string.
pub open spec fn spec_value(s: Seq<u8>, q: int) -> PRes<VariableDeclarationValueView> {
    if byte_is(s, q, 34) {
        match spec_string_literal(s, q) {
            Ok((k, b)) => Ok((k, VariableDeclarationValueView::Bytes(b))),
            Err(e) => Err(e),
        }
    } else if byte_is(s, q, 123) {
        match spec_hex_string(s, q) {
            Ok((k, h)) => Ok((k, VariableDeclarationValueView::HexString(h))),
            Err(e) => Err(e),
        }
    } else if byte_is(s, q, 47) {
        match spec_regex(s, q) {
            Ok((k, (x, ci, dot_all))) => Ok(
                (
                    k,
                    VariableDeclarationValueView::Regex {
                        expr: x,
                        case_insensitive: ci,
                        dot_all,
                    },
                ),
            ),
            Err(e) => Err(e),
        }
    } else {
        Err(syntax_at(q))
    }
}

/// A declaration `$name = value modifiers` at `i`: the position after it,
/// and the declaration, which spans up to the end of its last modifier.
pub open spec fn spec_declaration(s: Seq<u8>, i: int) -> Result<(int, VariableDeclarationView), Error> {
    if !byte_is(s, i, 36) {
        Err(syntax_at(i))
    } else {
        let e0 = i + 1 + spec_ident_len(s, i + 1);
        let p = spec_skip(s, e0);
        if !byte_is(s, p, 61) {
            Err(syntax_at(p))
        } else {
            let q = spec_skip(s, p + 1);
            match spec_value(s, q) {
                Err(err) => Err(err),
                Ok((k, v)) => {
                    let e = q + k;
                    let kind = match v {
                        VariableDeclarationValueView::Bytes(_) => ValueKind::Text,
                        VariableDeclarationValueView::Regex { .. } => ValueKind::Regex,
                        VariableDeclarationValueView::HexString(_) => ValueKind::Hex,
                    };
                    match spec_modifiers(s, spec_skip(s, e), e, kind, no_modifiers()) {
                        Err(err) => Err(err),
                        Ok((next, end, m)) => match spec_incompatible(m.flags) {
                            Some((a, b)) => Err(
                                err_at(
                                    i,
                                    end,
                                    ErrorKind::ModifiersIncompatible {
                                        first_modifier: a,
                                        second_modifier: b,
                                    },
                                ),
                            ),
                            None => Ok(
                                (
                                    next,
                                    VariableDeclarationView {
                                        name: spec_text(s, i + 1, e0),
                                        value: v,
                                        modifiers: m,
                                        span: (i, end),
                                    },
                                ),
                            ),
                        },
                    }
                },
            }
        }
    }
}

/// The declarations from `j` on, `acc` being those read before: the
/// position after them, and all of them. A declaration that would not move
/// forward is an error.
#[verifier::opaque]
pub open spec fn spec_declarations(s: Seq<u8>, j: int, acc: Seq<VariableDeclarationView>) -> Result<
    (int, Seq<VariableDeclarationView>),
    Error,
>
    decreases remaining(s, j),
{
    if !byte_is(s, j, 36) {
        Ok((j, acc))
    } else {
        match spec_declaration(s, j) {
            Err(e) => Err(e),
            Ok((n, d)) => if n <= j {
                Err(syntax_at(j))
            } else {
                spec_declarations(s, n, acc.push(d))
            },
        }
    }
}

// ---------------------------------------------------------------------------
// Rules and files
// ---------------------------------------------------------------------------

/// The `private` and `global` keywords from `j` on, in any order: the
/// position after them, and whether each was there.
#[verifier::opaque]
pub open spec fn spec_rule_flags(s: Seq<u8>, j: int, is_private: bool, is_global: bool) -> (
    int,
    bool,
    bool,
)
    decreases remaining(s, j),
{
    if spec_keyword_at(s, j, Kw::Private) {
        proof {
            lemma_keyword_at(s, j, Kw::Private);
        }
        spec_rule_flags(s, spec_skip(s, j + 7), true, is_global)
    } else if spec_keyword_at(s, j, Kw::Global) {
        proof {
            lemma_keyword_at(s, j, Kw::Global);
        }
        spec_rule_flags(s, spec_skip(s, j + 6), is_private, true)
    } else {
        (j, is_private, is_global)
    }
}

/// The `strings:` section of a rule at `r1`, if there is one: the position
/// after it, and its declarations (at least one).
pub open spec fn spec_strings_section(s: Seq<u8>, r1: int) -> Result<
    (int, Seq<VariableDeclarationView>),
    Error,
> {
    if spec_keyword_at(s, r1, Kw::Strings) {
        let r2 = spec_skip(s, r1 + 7);
        if !byte_is(s, r2, 58) {
            Err(syntax_at(r2))
        } else {
            let r3 = spec_skip(s, r2 + 1);
            if !byte_is(s, r3, 36) {
                Err(syntax_at(r3))
            } else {
                spec_declarations(s, r3, Seq::empty())
            }
        }
    } else {
        Ok((r1, Seq::empty()))
    }
}

/// A rule at `i`: the position after it, and the rule.
pub open spec fn spec_rule(s: Seq<u8>, i: int) -> Result<(int, RuleDeclarationView), Error> {
    let (j, is_private, is_global) = spec_rule_flags(s, i, false, false);
    if !spec_keyword_at(s, j, Kw::Rule) {
        Err(syntax_at(j))
    } else {
        let q = spec_skip(s, j + 4);
        if !(0 <= q < s.len() && is_ident_start(s[q])) {
            Err(syntax_at(q))
        } else {
            let ne = q + spec_ident_len(s, q);
            let r = spec_skip(s, ne);
            if !byte_is(s, r, 123) {
                Err(syntax_at(r))
            } else {
                match spec_strings_section(s, spec_skip(s, r + 1)) {
                    Err(e) => Err(e),
                    Ok((c, variables)) => if !spec_keyword_at(s, c, Kw::Condition) {
                        Err(syntax_at(c))
                    } else {
                        let c2 = spec_skip(s, c + 9);
                        if !byte_is(s, c2, 58) {
                            Err(syntax_at(c2))
                        } else {
                            let c3 = spec_skip(s, c2 + 1);
                            match spec_or(s, c3) {
                                Err(e) => Err(e),
                                Ok((k, condition)) => {
                                    let end = c3 + k;
                                    if !byte_is(s, end, 125) {
                                        Err(syntax_at(end))
                                    } else {
                                        Ok(
                                            (
                                                spec_skip(s, end + 1),
                                                RuleDeclarationView {
                                                    name: spec_text(s, q, ne),
                                                    name_span: (q, ne),
                                                    variables,
                                                    condition,
                                                    is_private,
                                                    is_global,
                                                },
                                            ),
                                        )
                                    }
                                },
                            }
                        }
                    },
                }
            }
        }
    }
}

/// An import or a rule at `i`: the position after it, and the component.
/// The name of an import is a text string, which must be valid UTF-8.
pub open spec fn spec_component(s: Seq<u8>, i: int) -> Result<(int, YaraFileComponentView), Error> {
    if spec_keyword_at(s, i, Kw::Import) {
        let q = spec_skip(s, i + 6);
        match spec_string_literal(s, q) {
            Err(e) => Err(e),
            Ok((k, b)) => if !valid_utf8(b) {
                Err(err_at(q, q + k, ErrorKind::SyntaxError))
            } else {
                Ok(
                    (
                        spec_skip(s, q + k),
                        YaraFileComponentView::Import { name: decode_utf8(b), span: (i, q + k) },
                    ),
                )
            },
        }
    } else {
        match spec_rule(s, i) {
            Ok((n, r)) => Ok((n, YaraFileComponentView::Rule(r))),
            Err(e) => Err(e),
        }
    }
}

/// Whether a component can start at `i`: `import`, `rule`, `private` or
/// `global`.
pub open spec fn spec_starts_component(s: Seq<u8>, i: int) -> bool {
    spec_keyword_at(s, i, Kw::Import) || spec_keyword_at(s, i, Kw::Rule) || spec_keyword_at(
        s,
        i,
        Kw::Private,
    ) || spec_keyword_at(s, i, Kw::Global)
}

/// The components from `j` to the end of the input, `acc` being those read
/// before. Where no component starts, the input has trailing data.
#[verifier::opaque]
pub open spec fn spec_components(s: Seq<u8>, j: int, acc: Seq<YaraFileComponentView>) -> Result<
    Seq<YaraFileComponentView>,
    Error,
>
    decreases remaining(s, j),
{
    if j < 0 || j >= s.len() {
        Ok(acc)
    } else if !spec_starts_component(s, j) {
        Err(err_at(j, j + 1, ErrorKind::HasTrailingData))
    } else {
        match spec_component(s, j) {
            Err(e) => Err(e),
            Ok((n, c)) => if n <= j {
                Err(syntax_at(j))
            } else {
                spec_components(s, n, acc.push(c))
            },
        }
    }
}

/// The components of the file `s`.
pub open spec fn spec_parse_file(s: Seq<u8>) -> Result<Seq<YaraFileComponentView>, Error> {
    spec_components(s, spec_skip(s, 0), Seq::empty())
}

// ---------------------------------------------------------------------------
// Executable parses
// ---------------------------------------------------------------------------

/// Whether a parsed declaration can be compiled: its text string is no
/// longer than `n` bytes, and its base64 alphabet has 64 bytes.
pub open spec fn declaration_within(d: VariableDeclaration, n: int) -> bool {
    &&& d.value matches VariableDeclarationValue::Bytes(b) ==> b@.len() <= n
    &&& d.modifiers.base64_alphabet matches Some(a) ==> a@.len() == 64
}

/// Whether every declaration of a parsed rule can be compiled, see
/// [`declaration_within`].
pub open spec fn rule_within(r: RuleDeclaration, n: int) -> bool {
    forall|k: int|
        #![trigger r.variables@[k]]
        0 <= k < r.variables@.len() ==> declaration_within(r.variables@[k], n)
}

/// Whether every rule of a parsed file can be compiled, see
/// [`declaration_within`].
pub open spec fn file_within(f: YaraFile, n: int) -> bool {
    forall|k: int|
        #![trigger f.components@[k]]
        0 <= k < f.components@.len() ==> (f.components@[k] matches YaraFileComponent::Rule(r)
            ==> rule_within(*r, n))
}

/// The modifier at `j`, see [`spec_modifier_at`].
fn modifier_at(s: &[u8], j: usize, kind: ValueKind) -> (r: Option<Modifier>)
    ensures
        r == spec_modifier_at(s@, j as int, kind),
{
    if keyword_at(s, j, Kw::Private) {
        Some(Modifier::Private)
    } else if kind == ValueKind::Hex {
        None
    } else if keyword_at(s, j, Kw::Ascii) {
        Some(Modifier::Ascii)
    } else if keyword_at(s, j, Kw::Wide) {
        Some(Modifier::Wide)
    } else if keyword_at(s, j, Kw::Nocase) {
        Some(Modifier::Nocase)
    } else if keyword_at(s, j, Kw::Fullword) {
        Some(Modifier::Fullword)
    } else if kind == ValueKind::Regex {
        None
    } else if keyword_at(s, j, Kw::Xor) {
        Some(Modifier::Xor)
    } else if keyword_at(s, j, Kw::Base64) {
        Some(Modifier::Base64)
    } else if keyword_at(s, j, Kw::Base64Wide) {
        Some(Modifier::Base64Wide)
    } else {
        None
    }
}

/// The length of the keyword of a modifier.
fn modifier_len(m: Modifier) -> (r: usize)
    ensures
        r == kw_bytes(modifier_kw(m)).len(),
{
    match m {
        Modifier::Ascii => 5,
        Modifier::Wide => 4,
        Modifier::Nocase => 6,
        Modifier::Fullword => 8,
        Modifier::Private => 7,
        Modifier::Xor => 3,
        Modifier::Base64 => 6,
        Modifier::Base64Wide => 10,
    }
}

/// Whether the modifier `m` is set in `f`, see [`has_modifier`].
fn is_set(f: VariableFlags, m: Modifier) -> (r: bool)
    ensures
        r == has_modifier(f, m),
{
    match m {
        Modifier::Ascii => f.ascii,
        Modifier::Wide => f.wide,
        Modifier::Nocase => f.nocase,
        Modifier::Fullword => f.fullword,
        Modifier::Private => f.private,
        Modifier::Xor => f.xor,
        Modifier::Base64 => f.base64,
        Modifier::Base64Wide => f.base64wide,
    }
}

/// The flags `f` with the modifier `m` set, see [`with_modifier`].
fn set_modifier(f: VariableFlags, m: Modifier) -> (r: VariableFlags)
    ensures
        r == with_modifier(f, m),
{
    VariableFlags {
        ascii: f.ascii || m == Modifier::Ascii,
        wide: f.wide || m == Modifier::Wide,
        nocase: f.nocase || m == Modifier::Nocase,
        fullword: f.fullword || m == Modifier::Fullword,
        private: f.private || m == Modifier::Private,
        xor: f.xor || m == Modifier::Xor,
        base64: f.base64 || m == Modifier::Base64,
        base64wide: f.base64wide || m == Modifier::Base64Wide,
    }
}

/// The first pair of incompatible modifiers, see [`spec_incompatible`].
fn incompatible(f: VariableFlags) -> (r: Option<(Modifier, Modifier)>)
    ensures
        r == spec_incompatible(f),
{
    if f.xor && f.nocase {
        Some((Modifier::Xor, Modifier::Nocase))
    } else if f.xor && f.base64 {
        Some((Modifier::Xor, Modifier::Base64))
    } else if f.xor && f.base64wide {
        Some((Modifier::Xor, Modifier::Base64Wide))
    } else if f.base64 && f.nocase {
        Some((Modifier::Base64, Modifier::Nocase))
    } else if f.base64 && f.fullword {
        Some((Modifier::Base64, Modifier::Fullword))
    } else if f.base64wide && f.nocase {
        Some((Modifier::Base64Wide, Modifier::Nocase))
    } else if f.base64wide && f.fullword {
        Some((Modifier::Base64Wide, Modifier::Fullword))
    } else {
        None
    }
}

/// A value of a `xor` range, see [`spec_xor_value`].
fn xor_value(s: &[u8], q: usize) -> (r: Result<(usize, u8), Error>)
    requires
        q <= s@.len() < usize::MAX,
    ensures
        agrees(r, s@, q as int, spec_xor_value(s@, q as int)),
{
    let (e, v) = match number(s, q) {
        Ok(x) => x,
        Err(err) => {
            return Err(err);
        },
    };
    if v < 0 || v > 255 {
        return Err(
            Error {
                span: Range { start: q, end: e },
                kind: ErrorKind::XorRangeInvalidValue { value: v },
            },
        );
    }
    Ok((e, v as u8))
}

/// The arguments of `xor`, see [`spec_xor_args`].
fn xor_args(s: &[u8], p: usize) -> (r: Result<(usize, (u8, u8)), Error>)
    requires
        p <= s@.len() < usize::MAX,
    ensures
        agrees(r, s@, p as int, spec_xor_args(s@, p as int)),
{
    if !byte_at_is(s, p, 40) {
        return Err(syntax_error(p));
    }
    let q = skip_ws(s, p + 1);
    let (e, from) = match xor_value(s, q) {
        Ok(x) => x,
        Err(err) => {
            return Err(err);
        },
    };
    let q2 = skip_ws(s, e);
    if byte_at_is(s, q2, 45) {
        let q3 = skip_ws(s, q2 + 1);
        let (e2, to) = match xor_value(s, q3) {
            Ok(x) => x,
            Err(err) => {
                return Err(err);
            },
        };
        let q4 = skip_ws(s, e2);
        if !byte_at_is(s, q4, 41) {
            return Err(syntax_error(q4));
        }
        if from > to {
            return Err(
                Error {
                    span: Range { start: p, end: q4 + 1 },
                    kind: ErrorKind::XorRangeInvalid { from, to },
                },
            );
        }
        Ok((q4 + 1, (from, to)))
    } else if byte_at_is(s, q2, 41) {
        Ok((q2 + 1, (from, from)))
    } else {
        Err(syntax_error(q2))
    }
}

/// The argument of `base64` or `base64wide`, see [`spec_base64_args`].
fn base64_args(s: &[u8], p: usize) -> (r: Result<(usize, Vec<u8>), Error>)
    requires
        p <= s@.len() < usize::MAX,
    ensures
        agrees(r, s@, p as int, spec_base64_args(s@, p as int)),
{
    if !byte_at_is(s, p, 40) {
        return Err(syntax_error(p));
    }
    let q = skip_ws(s, p + 1);
    let (e, a) = match string_literal(s, q) {
        Ok(x) => x,
        Err(err) => {
            return Err(err);
        },
    };
    if a.len() != 64 {
        return Err(
            Error {
                span: Range { start: q, end: e },
                kind: ErrorKind::Base64AlphabetInvalidLength { length: a.len() },
            },
        );
    }
    let q2 = skip_ws(s, e);
    if !byte_at_is(s, q2, 41) {
        return Err(syntax_error(q2));
    }
    Ok((q2 + 1, a))
}

/// The modifiers from `j` on, see [`spec_modifiers`]: the position after
/// them, the end of their last token, and the modifiers.
fn modifiers(s: &[u8], j: usize, end: usize, kind: ValueKind) -> (r: Result<
    (usize, usize, VariableModifiers),
    Error,
>)
    requires
        j <= s@.len() < usize::MAX,
        end <= j,
    ensures
        match spec_modifiers(s@, j as int, end as int, kind, no_modifiers()) {
            Ok((n, e, m)) => r matches Ok((n2, e2, m2)) && n2 == n && e2 == e && m2@ == m && e2
                <= n2 <= s@.len() && j <= n2 && (m2.base64_alphabet matches Some(a) ==> a@.len() == 64),
            Err(err) => r == Err::<(usize, usize, VariableModifiers), Error>(err),
        },
{
    let mut m = VariableModifiers {
        flags: VariableFlags::empty(),
        xor_range: (0, 255),
        base64_alphabet: None,
    };
    assert(m@ == no_modifiers());
    let mut pos = j;
    let mut last = end;
    loop
        invariant
            last <= pos <= s@.len() < usize::MAX,
            j <= pos,
            spec_modifiers(s@, pos as int, last as int, kind, m@) == spec_modifiers(
                s@,
                j as int,
                end as int,
                kind,
                no_modifiers(),
            ),
            m.base64_alphabet matches Some(a) ==> a@.len() == 64,
        decreases s@.len() - pos,
    {
        reveal_with_fuel(spec_modifiers, 1);
        let md = match modifier_at(s, pos, kind) {
            None => {
                return Ok((pos, last, m));
            },
            Some(md) => md,
        };
        proof {
            lemma_keyword_at(s@, pos as int, modifier_kw(md));
        }
        let e = pos + modifier_len(md);
        if is_set(m.flags, md) {
            return Err(
                Error {
                    span: Range { start: pos, end: e },
                    kind: ErrorKind::ModifiersDuplicated { modifier: md },
                },
            );
        }
        let flags = set_modifier(m.flags, md);
        let p = skip_ws(s, e);
        if md == Modifier::Xor && byte_at_is(s, p, 40) {
            let (k, range) = match xor_args(s, p) {
                Ok(x) => x,
                Err(err) => {
                    return Err(err);
                },
            };
            m = VariableModifiers { flags, xor_range: range, base64_alphabet: m.base64_alphabet };
            last = k;
            pos = skip_ws(s, k);
        } else if (md == Modifier::Base64 || md == Modifier::Base64Wide) && byte_at_is(s, p, 40) {
            let (k, alphabet) = match base64_args(s, p) {
                Ok(x) => x,
                Err(err) => {
                    return Err(err);
                },
            };
            m = VariableModifiers { flags, xor_range: m.xor_range, base64_alphabet: Some(alphabet) };
            last = k;
            pos = skip_ws(s, k);
        } else {
            m = VariableModifiers { flags, xor_range: m.xor_range, base64_alphabet: m.base64_alphabet };
            last = e;
            pos = p;
        }
    }
}


/// A hexadecimal digit, see [`is_hex_byte`].
fn is_hex_char(c: u8) -> (r: bool)
    ensures
        r == is_hex_byte(c),
{
    (48 <= c && c <= 57) || (97 <= c && c <= 102) || (65 <= c && c <= 70)
}

/// The value of a hexadecimal digit, see [`digit_value`].
fn hex_value(c: u8) -> (r: u8)
    requires
        is_hex_byte(c),
    ensures
        r == digit_value(c),
        r < 16,
{
    if 48 <= c && c <= 57 {
        c - 48
    } else if 97 <= c && c <= 102 {
        c - 87
    } else {
        c - 55
    }
}

/// A byte of a hex string, see [`spec_hex_byte`].
fn hex_byte(s: &[u8], p: usize) -> (r: Option<HexToken>)
    ensures
        r == spec_hex_byte(s@, p as int),
{
    if !(p < s.len() && p + 1 < s.len()) {
        return None;
    }
    let a = s[p];
    let b = s[p + 1];
    if is_hex_char(a) && is_hex_char(b) {
        Some(HexToken::Byte(hex_value(a) * 16 + hex_value(b)))
    } else if is_hex_char(a) && b == 63 {
        Some(HexToken::MaskedByte { value: hex_value(a) * 16, mask: 0xF0 })
    } else if a == 63 && is_hex_char(b) {
        Some(HexToken::MaskedByte { value: hex_value(b), mask: 0x0F })
    } else if a == 63 && b == 63 {
        Some(HexToken::MaskedByte { value: 0, mask: 0 })
    } else {
        None
    }
}

/// A bound of a jump, see [`spec_jump_value`].
fn jump_value(s: &[u8], q: usize) -> (r: Result<(usize, u32), Error>)
    requires
        q <= s@.len() < usize::MAX,
    ensures
        agrees(r, s@, q as int, spec_jump_value(s@, q as int)),
{
    let (e, v) = match number(s, q) {
        Ok(x) => x,
        Err(err) => {
            return Err(err);
        },
    };
    if v < 0 || v > 4294967295 {
        return Err(Error { span: Range { start: q, end: e }, kind: ErrorKind::StrToIntError });
    }
    Ok((e, v as u32))
}

/// A jump, see [`spec_jump`].
fn jump(s: &[u8], p: usize) -> (r: Result<(usize, (u32, Option<u32>)), Error>)
    requires
        p <= s@.len() < usize::MAX,
    ensures
        agrees(r, s@, p as int, spec_jump(s@, p as int)),
        r matches Ok((e, _)) ==> p < e,
{
    if !byte_at_is(s, p, 91) {
        return Err(syntax_error(p));
    }
    let q = skip_ws(s, p + 1);
    let (c, from, to): (usize, u32, Option<u32>) = if byte_at_is(s, q, 45) {
        (skip_ws(s, q + 1), 0, None)
    } else {
        let (e, from) = match jump_value(s, q) {
            Ok(x) => x,
            Err(err) => {
                return Err(err);
            },
        };
        let q2 = skip_ws(s, e);
        if byte_at_is(s, q2, 45) {
            let q3 = skip_ws(s, q2 + 1);
            if byte_at_is(s, q3, 93) {
                (q3, from, None)
            } else {
                let (e2, to) = match jump_value(s, q3) {
                    Ok(x) => x,
                    Err(err) => {
                        return Err(err);
                    },
                };
                (skip_ws(s, e2), from, Some(to))
            }
        } else {
            (q2, from, Some(from))
        }
    };
    if !byte_at_is(s, c, 93) {
        return Err(syntax_error(c));
    }
    match to {
        Some(t) => {
            if t == 0 {
                return Err(Error { span: Range { start: p, end: c + 1 }, kind: ErrorKind::JumpEmpty });
            }
            if from > t {
                return Err(
                    Error {
                        span: Range { start: p, end: c + 1 },
                        kind: ErrorKind::JumpRangeInvalid { from, to: t },
                    },
                );
            }
        },
        None => {},
    }
    Ok((c + 1, (from, to)))
}

/// The tokens of a hex string from `j` on, see [`spec_hex_tokens`].
fn hex_tokens(s: &[u8], j: usize) -> (r: Result<(usize, Vec<HexToken>), Error>)
    requires
        j <= s@.len() < usize::MAX,
    ensures
        match spec_hex_tokens(s@, j as int, 0, Seq::empty()) {
            Ok((n, ts)) => r matches Ok((n2, ts2)) && n2 == n && ts2@ == ts && j < n2 <= s@.len(),
            Err(err) => r == Err::<(usize, Vec<HexToken>), Error>(err),
        },
{
    let mut acc: Vec<HexToken> = Vec::new();
    let mut pos = j;
    let mut depth: usize = 0;
    loop
        invariant
            j <= pos <= s@.len() < usize::MAX,
            depth <= pos,
            spec_hex_tokens(s@, pos as int, depth as nat, acc@) == spec_hex_tokens(
                s@,
                j as int,
                0,
                Seq::empty(),
            ),
        decreases s@.len() - pos,
    {
        reveal_with_fuel(spec_hex_tokens, 1);
        let p = skip_ws(s, pos);
        if byte_at_is(s, p, 125) {
            if depth != 0 || acc.len() == 0 {
                return Err(syntax_error(p));
            }
            return Ok((p + 1, acc));
        } else if byte_at_is(s, p, 40) {
            acc.push(HexToken::AlternativesStart);
            depth = depth + 1;
            pos = p + 1;
        } else if byte_at_is(s, p, 124) {
            if depth == 0 {
                return Err(syntax_error(p));
            }
            acc.push(HexToken::AlternativeSeparator);
            pos = p + 1;
        } else if byte_at_is(s, p, 41) {
            if depth == 0 {
                return Err(syntax_error(p));
            }
            acc.push(HexToken::AlternativesEnd);
            depth = depth - 1;
            pos = p + 1;
        } else if byte_at_is(s, p, 91) {
            let (end, (from, to)) = match jump(s, p) {
                Ok(x) => x,
                Err(err) => {
                    return Err(err);
                },
            };
            if depth > 0 {
                match to {
                    None => {
                        return Err(
                            Error {
                                span: Range { start: p, end },
                                kind: ErrorKind::JumpUnboundedInAlternation,
                            },
                        );
                    },
                    Some(t) => {
                        if t > 200 {
                            return Err(
                                Error {
                                    span: Range { start: p, end },
                                    kind: ErrorKind::JumpTooBigInAlternation { limit: 200 },
                                },
                            );
                        }
                    },
                }
            }
            acc.push(HexToken::Jump { from, to });
            pos = end;
        } else {
            match hex_byte(s, p) {
                Some(t) => {
                    acc.push(t);
                    pos = p + 2;
                },
                None => {
                    return Err(syntax_error(p));
                },
            }
        }
    }
}

/// A hex string, see [`spec_hex_string`].
fn hex_string(s: &[u8], q: usize) -> (r: Result<(usize, Vec<HexToken>), Error>)
    requires
        q <= s@.len() < usize::MAX,
    ensures
        agrees(r, s@, q as int, spec_hex_string(s@, q as int)),
{
    if !byte_at_is(s, q, 123) {
        return Err(syntax_error(q));
    }
    hex_tokens(s, q + 1)
}

/// The value of a declaration, see [`spec_value`].
fn value(s: &[u8], q: usize) -> (r: Result<(usize, VariableDeclarationValue), Error>)
    requires
        q <= s@.len() < usize::MAX,
    ensures
        agrees(r, s@, q as int, spec_value(s@, q as int)),
        r matches Ok((e, v)) ==> (v matches VariableDeclarationValue::Bytes(b) ==> b@.len()
            <= s@.len()),
{
    if byte_at_is(s, q, 34) {
        match string_literal(s, q) {
            Ok((e, b)) => Ok((e, VariableDeclarationValue::Bytes(b))),
            Err(err) => Err(err),
        }
    } else if byte_at_is(s, q, 123) {
        match hex_string(s, q) {
            Ok((e, h)) => Ok((e, VariableDeclarationValue::HexString(h))),
            Err(err) => Err(err),
        }
    } else if byte_at_is(s, q, 47) {
        match regex_literal(s, q) {
            Ok((e, (x, ci, dot_all))) => Ok(
                (e, VariableDeclarationValue::Regex { expr: x, case_insensitive: ci, dot_all }),
            ),
            Err(err) => Err(err),
        }
    } else {
        Err(syntax_error(q))
    }
}

/// A declaration, see [`spec_declaration`].
fn declaration(s: &[u8], i: usize) -> (r: Result<(usize, VariableDeclaration), Error>)
    requires
        i <= s@.len() < usize::MAX,
    ensures
        match spec_declaration(s@, i as int) {
            Ok((n, d)) => r matches Ok((n2, d2)) && n2 == n && d2@ == d && i < n2 <= s@.len()
                && declaration_within(d2, s@.len() as int),
            Err(err) => r == Err::<(usize, VariableDeclaration), Error>(err),
        },
{
    if !byte_at_is(s, i, 36) {
        return Err(syntax_error(i));
    }
    let e0 = ident_end(s, i + 1);
    let p = skip_ws(s, e0);
    if !byte_at_is(s, p, 61) {
        return Err(syntax_error(p));
    }
    let q = skip_ws(s, p + 1);
    let (e, v) = match value(s, q) {
        Ok(x) => x,
        Err(err) => {
            return Err(err);
        },
    };
    let kind = match &v {
        VariableDeclarationValue::Bytes(_) => ValueKind::Text,
        VariableDeclarationValue::Regex { .. } => ValueKind::Regex,
        VariableDeclarationValue::HexString(_) => ValueKind::Hex,
    };
    let (next, end, m) = match modifiers(s, skip_ws(s, e), e, kind) {
        Ok(x) => x,
        Err(err) => {
            return Err(err);
        },
    };
    if let Some((a, b)) = incompatible(m.flags) {
        return Err(
            Error {
                span: Range { start: i, end },
                kind: ErrorKind::ModifiersIncompatible { first_modifier: a, second_modifier: b },
            },
        );
    }
    let name = ident_text(s, i + 1, e0);
    Ok((next, VariableDeclaration { name, value: v, modifiers: m, span: Range { start: i, end } }))
}

/// The declarations from `j` on, see [`spec_declarations`].
fn declarations(s: &[u8], j: usize) -> (r: Result<(usize, Vec<VariableDeclaration>), Error>)
    requires
        j <= s@.len() < usize::MAX,
    ensures
        match spec_declarations(s@, j as int, Seq::empty()) {
            Ok((n, ds)) => r matches Ok((n2, ds2)) && n2 == n && declarations_view(ds2@) == ds
                && j <= n2 <= s@.len() && forall|k: int|
                #![trigger ds2@[k]]
                0 <= k < ds2@.len() ==> declaration_within(ds2@[k], s@.len() as int),
            Err(err) => r == Err::<(usize, Vec<VariableDeclaration>), Error>(err),
        },
{
    let mut acc: Vec<VariableDeclaration> = Vec::new();
    let mut pos = j;
    assert(declarations_view(acc@) =~= Seq::<VariableDeclarationView>::empty());
    loop
        invariant
            j <= pos <= s@.len() < usize::MAX,
            spec_declarations(s@, pos as int, declarations_view(acc@)) == spec_declarations(
                s@,
                j as int,
                Seq::empty(),
            ),
            forall|k: int|
                #![trigger acc@[k]]
                0 <= k < acc@.len() ==> declaration_within(acc@[k], s@.len() as int),
        decreases s@.len() - pos,
    {
        reveal_with_fuel(spec_declarations, 1);
        if !byte_at_is(s, pos, 36) {
            return Ok((pos, acc));
        }
        let (n, d) = match declaration(s, pos) {
            Ok(x) => x,
            Err(err) => {
                return Err(err);
            },
        };
        let ghost before = acc@;
        acc.push(d);
        assert(declarations_view(acc@) =~= declarations_view(before).push(d@));
        pos = n;
    }
}

/// The `private` and `global` keywords, see [`spec_rule_flags`].
fn rule_flags(s: &[u8], j: usize) -> (r: (usize, bool, bool))
    requires
        j <= s@.len() < usize::MAX,
    ensures
        j <= r.0 <= s@.len(),
        spec_rule_flags(s@, j as int, false, false) == (r.0 as int, r.1, r.2),
{
    let mut pos = j;
    let mut is_private = false;
    let mut is_global = false;
    loop
        invariant
            j <= pos <= s@.len() < usize::MAX,
            spec_rule_flags(s@, pos as int, is_private, is_global) == spec_rule_flags(
                s@,
                j as int,
                false,
                false,
            ),
        decreases s@.len() - pos,
    {
        reveal_with_fuel(spec_rule_flags, 1);
        if keyword_at(s, pos, Kw::Private) {
            is_private = true;
            pos = skip_ws(s, pos + 7);
        } else if keyword_at(s, pos, Kw::Global) {
            is_global = true;
            pos = skip_ws(s, pos + 6);
        } else {
            return (pos, is_private, is_global);
        }
    }
}

/// The `strings:` section, see [`spec_strings_section`].
fn strings_section(s: &[u8], r1: usize) -> (r: Result<(usize, Vec<VariableDeclaration>), Error>)
    requires
        r1 <= s@.len() < usize::MAX,
    ensures
        match spec_strings_section(s@, r1 as int) {
            Ok((n, ds)) => r matches Ok((n2, ds2)) && n2 == n && declarations_view(ds2@) == ds
                && r1 <= n2 <= s@.len() && forall|k: int|
                #![trigger ds2@[k]]
                0 <= k < ds2@.len() ==> declaration_within(ds2@[k], s@.len() as int),
            Err(err) => r == Err::<(usize, Vec<VariableDeclaration>), Error>(err),
        },
{
    if !keyword_at(s, r1, Kw::Strings) {
        let v: Vec<VariableDeclaration> = Vec::new();
        assert(declarations_view(v@) =~= Seq::<VariableDeclarationView>::empty());
        return Ok((r1, v));
    }
    let r2 = skip_ws(s, r1 + 7);
    if !byte_at_is(s, r2, 58) {
        return Err(syntax_error(r2));
    }
    let r3 = skip_ws(s, r2 + 1);
    if !byte_at_is(s, r3, 36) {
        return Err(syntax_error(r3));
    }
    declarations(s, r3)
}

/// A rule, see [`spec_rule`].
fn rule(s: &[u8], i: usize) -> (r: Result<(usize, RuleDeclaration), Error>)
    requires
        i <= s@.len() < usize::MAX,
    ensures
        match spec_rule(s@, i as int) {
            Ok((n, d)) => r matches Ok((n2, d2)) && n2 == n && d2@ == d && i < n2 <= s@.len()
                && rule_within(d2, s@.len() as int),
            Err(err) => r == Err::<(usize, RuleDeclaration), Error>(err),
        },
{
    let (j, is_private, is_global) = rule_flags(s, i);
    if !keyword_at(s, j, Kw::Rule) {
        return Err(syntax_error(j));
    }
    let q = skip_ws(s, j + 4);
    if !(q < s.len() && is_ident_first(s[q])) {
        return Err(syntax_error(q));
    }
    let ne = ident_end(s, q);
    let r = skip_ws(s, ne);
    if !byte_at_is(s, r, 123) {
        return Err(syntax_error(r));
    }
    let (c, variables) = match strings_section(s, skip_ws(s, r + 1)) {
        Ok(x) => x,
        Err(err) => {
            return Err(err);
        },
    };
    if !keyword_at(s, c, Kw::Condition) {
        return Err(syntax_error(c));
    }
    let c2 = skip_ws(s, c + 9);
    if !byte_at_is(s, c2, 58) {
        return Err(syntax_error(c2));
    }
    let c3 = skip_ws(s, c2 + 1);
    let (end, condition) = match expression(s, c3) {
        Ok(x) => x,
        Err(err) => {
            return Err(err);
        },
    };
    if !byte_at_is(s, end, 125) {
        return Err(syntax_error(end));
    }
    let name = ident_text(s, q, ne);
    Ok(
        (
            skip_ws(s, end + 1),
            RuleDeclaration {
                name,
                name_span: Range { start: q, end: ne },
                variables,
                condition,
                is_private,
                is_global,
            },
        ),
    )
}

/// A letter or an underscore, see [`is_ident_start`].
fn is_ident_first(c: u8) -> (r: bool)
    ensures
        r == is_ident_start(c),
{
    (65 <= c && c <= 90) || (97 <= c && c <= 122) || c == 95
}

/// An import or a rule, see [`spec_component`].
fn component(s: &[u8], i: usize) -> (r: Result<(usize, YaraFileComponent), Error>)
    requires
        i <= s@.len() < usize::MAX,
    ensures
        match spec_component(s@, i as int) {
            Ok((n, c)) => r matches Ok((n2, c2)) && n2 == n && c2@ == c && i < n2 <= s@.len() && (
            c2 matches YaraFileComponent::Rule(d) ==> rule_within(*d, s@.len() as int)),
            Err(err) => r == Err::<(usize, YaraFileComponent), Error>(err),
        },
{
    if keyword_at(s, i, Kw::Import) {
        let q = skip_ws(s, i + 6);
        let (e, b) = match string_literal(s, q) {
            Ok(x) => x,
            Err(err) => {
                return Err(err);
            },
        };
        let name = match string_from_utf8(b) {
            Some(name) => name,
            None => {
                return Err(Error { span: Range { start: q, end: e }, kind: ErrorKind::SyntaxError });
            },
        };
        return Ok(
            (skip_ws(s, e), YaraFileComponent::Import(Import { name, span: Range { start: i, end: e } })),
        );
    }
    match rule(s, i) {
        Ok((n, d)) => Ok((n, YaraFileComponent::Rule(Box::new(d)))),
        Err(err) => Err(err),
    }
}

/// Whether a component can start at `i`, see [`spec_starts_component`].
fn starts_component(s: &[u8], i: usize) -> (r: bool)
    ensures
        r == spec_starts_component(s@, i as int),
{
    keyword_at(s, i, Kw::Import) || keyword_at(s, i, Kw::Rule) || keyword_at(s, i, Kw::Private)
        || keyword_at(s, i, Kw::Global)
}

/// Parse a rules file.
///
/// Returns the imports and rules of the file, in order: exactly what
/// [`spec_parse_file`] gives of its bytes. Fails on the first error, or
/// where trailing data follows the last component.
pub fn parse_str(input: &str) -> (r: Result<YaraFile, Error>)
    requires
        input.spec_bytes().len() < usize::MAX,
    ensures
        match spec_parse_file(input.spec_bytes()) {
            Ok(cs) => r matches Ok(f) && f@ == cs && file_within(f, input.spec_bytes().len() as int),
            Err(e) => r == Err::<YaraFile, Error>(e),
        },
{
    let s = input.as_bytes();
    let mut acc: Vec<YaraFileComponent> = Vec::new();
    let mut pos = skip_ws(s, 0);
    assert(components_view(acc@) =~= Seq::<YaraFileComponentView>::empty());
    loop
        invariant
            pos <= s@.len() < usize::MAX,
            s@ == input.spec_bytes(),
            spec_components(s@, pos as int, components_view(acc@)) == spec_parse_file(s@),
            forall|k: int|
                #![trigger acc@[k]]
                0 <= k < acc@.len() ==> (acc@[k] matches YaraFileComponent::Rule(d)
                    ==> rule_within(*d, s@.len() as int)),
        decreases s@.len() - pos,
    {
        reveal_with_fuel(spec_components, 1);
        if pos >= s.len() {
            return Ok(YaraFile { components: acc });
        }
        if !starts_component(s, pos) {
            return Err(Error { span: Range { start: pos, end: pos + 1 }, kind: ErrorKind::HasTrailingData });
        }
        let (n, c) = match component(s, pos) {
            Ok(x) => x,
            Err(err) => {
                return Err(err);
            },
        };
        let ghost before = acc@;
        acc.push(c);
        assert(components_view(acc@) =~= components_view(before).push(c@));
        pos = n;
    }
}

} // verus!
