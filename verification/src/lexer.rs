//! Tokens of the rules language: whitespace and comments, keywords,
//! identifiers, numbers, text strings and regexes.
//!
//! Every function works on the input as bytes, from a position. The spec
//! functions return how many bytes a token takes, so that a parse always
//! moves forward.
use std::ops::Range;
use vstd::prelude::*;
use vstd::utf8::{decode_utf8, is_leading_byte_width_1, partial_valid_utf8, valid_utf8};

use crate::declaration::VariableFlags;
use crate::expression::Type;

verus! {

/// A modifier of a variable declaration.
#[derive(Clone, Copy, Debug, PartialEq, Eq, Structural)]
pub enum Modifier {
    Ascii,
    Wide,
    Nocase,
    Fullword,
    Private,
    Xor,
    Base64,
    Base64Wide,
}

/// Kind of a parse error.
#[derive(Debug, PartialEq, Eq)]
pub enum ErrorKind {
    /// A base64 modifier alphabet has an invalid length.
    ///
    /// The length must be 64.
    Base64AlphabetInvalidLength { length: usize },
    /// Empty regex declaration, forbidden
    EmptyRegex,
    /// Expression with an invalid type
    ExpressionInvalidType {
        /// Type of the expression
        ty: Type,
        /// Expected type
        expected_type: Type,
    },
    /// Operands of an expression have incompatible types.
    ExpressionIncompatibleTypes {
        /// Type of the left operand
        left_type: Type,
        /// Span of the left operand
        left_span: Range<usize>,
        /// Type of the right operand
        right_type: Type,
        /// Span of the right operand
        right_span: Range<usize>,
    },
    /// There are trailing data that could not be parsed.
    HasTrailingData,
    /// Jump of an empty size (i.e. `[0]`).
    JumpEmpty,
    /// Jump with a invalid range, ie `from` > `to`:
    JumpRangeInvalid { from: u32, to: u32 },
    /// Jump over a certain size used inside an alternation (`|`).
    JumpTooBigInAlternation {
        /// Maximum size of jumps (included).
        limit: u32,
    },
    /// Unbounded jump (`[-]`) used inside an alternation (`|`) in an hex string.
    JumpUnboundedInAlternation,
    /// Duplicated string modifiers
    ModifiersDuplicated {
        /// The modifier
        modifier: Modifier,
    },
    /// Incompatible string modifiers.
    ModifiersIncompatible {
        /// First modifier
        first_modifier: Modifier,
        /// Second modifier
        second_modifier: Modifier,
    },
    /// Overflow on a multiplication
    MulOverflow { left: i64, right: i64 },
    /// The input does not follow the grammar at this point.
    SyntaxError,
    /// A decimal integer does not fit in an `i64`.
    StrToIntError,
    /// A hexadecimal integer does not fit in an `i64`, or has no digits.
    StrToHexIntError,
    /// A value used in a xor modifier range is outside the [0-255] range.
    XorRangeInvalidValue { value: i64 },
    /// Xor modifier with a invalid range, ie `from` > `to`:
    XorRangeInvalid { from: u8, to: u8 },
}

/// A parse error: what went wrong, and where.
#[derive(Debug, PartialEq, Eq)]
pub struct Error {
    /// Span of the input where the error is.
    pub span: Range<usize>,
    /// What went wrong.
    pub kind: ErrorKind,
}

impl Error {
    /// An error of kind `kind` on `span`.
    pub fn new(span: Range<usize>, kind: ErrorKind) -> (r: Error)
        ensures
            r.span == span,
            r.kind == kind,
    {
        Error { span, kind }
    }
}

/// The error of kind `kind` on the span from `start` to `end`.
pub open spec fn err_at(start: int, end: int, kind: ErrorKind) -> Error {
    Error { span: Range { start: start as usize, end: end as usize }, kind }
}

/// The syntax error at position `i`: it covers one byte.
pub open spec fn syntax_at(i: int) -> Error {
    err_at(i, i + 1, ErrorKind::SyntaxError)
}

/// The syntax error at position `i`.
pub fn syntax_error(i: usize) -> (r: Error)
    requires
        i < usize::MAX,
    ensures
        r == syntax_at(i as int),
{
    Error { span: Range { start: i, end: i + 1 }, kind: ErrorKind::SyntaxError }
}

/// What a parse from a position gives: the number of bytes read, trailing
/// whitespace included, and the value read; or an error.
pub type PRes<T> = Result<(nat, T), Error>;

/// A measure of what is left of `s` from `i`, for the termination of
/// parses: it is 0 past the end, and shrinks as `i` moves forward within `s`.
pub open spec fn remaining(s: Seq<u8>, i: int) -> nat {
    if i <= s.len() {
        (s.len() + 1 - i) as nat
    } else {
        0
    }
}

/// Whether the result `r` of an executable parse of `s` from `i` is the
/// spec result `spec`: positions are absolute in `r` and relative to `i` in
/// `spec`.
pub open spec fn agrees<T: View>(r: Result<(usize, T), Error>, s: Seq<u8>, i: int, spec: PRes<T::V>) -> bool {
    match r {
        Ok((n, v)) => i <= n <= s.len() && spec == Ok::<(nat, T::V), Error>(((n - i) as nat, v@)),
        Err(e) => spec == Err::<(nat, T::V), Error>(e),
    }
}

// ---------------------------------------------------------------------------
// Bytes
// ---------------------------------------------------------------------------

/// Space, tab, line feed or carriage return.
pub open spec fn is_ws_byte(c: u8) -> bool {
    c == 32 || c == 9 || c == 10 || c == 13
}

/// A decimal digit.
pub open spec fn is_digit(c: u8) -> bool {
    48 <= c <= 57
}

/// A letter or an underscore: the bytes that can start an identifier.
pub open spec fn is_ident_start(c: u8) -> bool {
    (65 <= c <= 90) || (97 <= c <= 122) || c == 95
}

/// A letter, a digit or an underscore.
pub open spec fn is_ident_byte(c: u8) -> bool {
    is_ident_start(c) || is_digit(c)
}

/// Whether the byte at `i` exists and is `c`.
pub open spec fn byte_is(s: Seq<u8>, i: int, c: u8) -> bool {
    0 <= i < s.len() && s[i] == c
}

/// Whether the byte at `i` exists and is `c`.
pub fn byte_at_is(s: &[u8], i: usize, c: u8) -> (r: bool)
    ensures
        r == byte_is(s@, i as int, c),
{
    i < s.len() && s[i] == c
}

// ---------------------------------------------------------------------------
// Whitespace and comments
// ---------------------------------------------------------------------------

/// Length of the rest of a line comment whose text starts at `i`, its line
/// feed included.
pub open spec fn spec_line_len(s: Seq<u8>, i: int) -> nat
    decreases s.len() - i,
{
    if i < 0 || i >= s.len() {
        0
    } else if s[i] == 10 {
        1
    } else {
        1 + spec_line_len(s, i + 1)
    }
}

/// Length of the rest of a block comment whose text starts at `i`, its
/// closing `*/` included; `None` if it is not closed.
pub open spec fn spec_block_len(s: Seq<u8>, i: int) -> Option<nat>
    decreases s.len() - i,
{
    if i < 0 || i + 1 >= s.len() {
        None
    } else if s[i] == 42 && s[i + 1] == 47 {
        Some(2)
    } else {
        match spec_block_len(s, i + 1) {
            Some(k) => Some(k + 1),
            None => None,
        }
    }
}

/// Length of the whitespace and comments that start at `i`.
#[verifier::opaque]
pub open spec fn spec_ws_len(s: Seq<u8>, i: int) -> nat
    decreases s.len() - i,
{
    if i < 0 || i >= s.len() {
        0
    } else if is_ws_byte(s[i]) {
        1 + spec_ws_len(s, i + 1)
    } else if i + 1 < s.len() && s[i] == 47 && s[i + 1] == 47 {
        let k = spec_line_len(s, i + 2);
        if i + 2 + k <= s.len() {
            2 + k + spec_ws_len(s, i + 2 + k)
        } else {
            0
        }
    } else if i + 1 < s.len() && s[i] == 47 && s[i + 1] == 42 {
        match spec_block_len(s, i + 2) {
            Some(k) => if i + 2 + k <= s.len() {
                2 + k + spec_ws_len(s, i + 2 + k)
            } else {
                0
            },
            None => 0,
        }
    } else {
        0
    }
}

/// The position after the whitespace and comments that start at `i`.
pub open spec fn spec_skip(s: Seq<u8>, i: int) -> int {
    i + spec_ws_len(s, i)
}

/// Lemma: a line comment ends within the input.
proof fn lemma_line_len(s: Seq<u8>, i: int)
    requires
        0 <= i <= s.len(),
    ensures
        i + spec_line_len(s, i) <= s.len(),
    decreases s.len() - i,
{
    if i < s.len() && s[i] != 10 {
        lemma_line_len(s, i + 1);
    }
}

/// Lemma: a block comment ends within the input.
proof fn lemma_block_len(s: Seq<u8>, i: int)
    requires
        0 <= i <= s.len(),
    ensures
        spec_block_len(s, i) matches Some(k) ==> i + k <= s.len(),
    decreases s.len() - i,
{
    if i + 1 < s.len() && !(s[i] == 42 && s[i + 1] == 47) {
        lemma_block_len(s, i + 1);
    }
}

/// Lemma: skipping whitespace stays within the input.
pub proof fn lemma_skip(s: Seq<u8>, i: int)
    requires
        0 <= i <= s.len(),
    ensures
        i <= spec_skip(s, i) <= s.len(),
    decreases s.len() - i,
{
    reveal_with_fuel(spec_ws_len, 1);
    if i < s.len() {
        if is_ws_byte(s[i]) {
            lemma_skip(s, i + 1);
        } else if i + 1 < s.len() && s[i] == 47 && s[i + 1] == 47 {
            lemma_line_len(s, i + 2);
            lemma_skip(s, i + 2 + spec_line_len(s, i + 2));
        } else if i + 1 < s.len() && s[i] == 47 && s[i + 1] == 42 {
            lemma_block_len(s, i + 2);
            if let Some(k) = spec_block_len(s, i + 2) {
                lemma_skip(s, i + 2 + k);
            }
        }
    }
}

/// The position after the line comment whose text starts at `i`.
fn line_end(s: &[u8], i: usize) -> (r: usize)
    requires
        i <= s@.len(),
    ensures
        r == i + spec_line_len(s@, i as int),
        r <= s@.len(),
{
    let mut j: usize = i;
    while j < s.len() && s[j] != 10
        invariant
            i <= j <= s@.len(),
            i + spec_line_len(s@, i as int) == j + spec_line_len(s@, j as int),
        decreases s@.len() - j,
    {
        j = j + 1;
    }
    if j < s.len() {
        j + 1
    } else {
        j
    }
}

/// The position after the block comment whose text starts at `i`, if it is
/// closed.
fn block_end(s: &[u8], i: usize) -> (r: Option<usize>)
    requires
        i <= s@.len(),
    ensures
        match spec_block_len(s@, i as int) {
            Some(k) => r == Some((i + k) as usize),
            None => r is None,
        },
        r matches Some(e) ==> e <= s@.len(),
{
    let mut j: usize = i;
    while j < s.len() && j + 1 < s.len() && !(s[j] == 42 && s[j + 1] == 47)
        invariant
            i <= j <= s@.len(),
            match spec_block_len(s@, i as int) {
                Some(k) => match spec_block_len(s@, j as int) {
                    Some(m) => i + k == j + m,
                    None => false,
                },
                None => spec_block_len(s@, j as int) is None,
            },
        decreases s@.len() - j,
    {
        j = j + 1;
    }
    if j < s.len() && j + 1 < s.len() {
        Some(j + 2)
    } else {
        None
    }
}

/// The position after the whitespace and comments that start at `i`.
pub fn skip_ws(s: &[u8], i: usize) -> (r: usize)
    requires
        i <= s@.len(),
    ensures
        r == spec_skip(s@, i as int),
        i <= r <= s@.len(),
{
    reveal_with_fuel(spec_ws_len, 1);
    let mut j: usize = i;
    loop
        invariant
            i <= j <= s@.len(),
            spec_skip(s@, i as int) == spec_skip(s@, j as int),
        decreases s@.len() - j,
    {
        reveal_with_fuel(spec_ws_len, 1);
        if j >= s.len() {
            return j;
        }
        let c = s[j];
        if c == 32 || c == 9 || c == 10 || c == 13 {
            j = j + 1;
        } else if j + 1 < s.len() && c == 47 && s[j + 1] == 47 {
            proof {
                lemma_line_len(s@, j + 2);
            }
            j = line_end(s, j + 2);
        } else if j + 1 < s.len() && c == 47 && s[j + 1] == 42 {
            proof {
                lemma_block_len(s@, j + 2);
            }
            match block_end(s, j + 2) {
                Some(e) => {
                    j = e;
                },
                None => {
                    return j;
                },
            }
        } else {
            return j;
        }
    }
}

// ---------------------------------------------------------------------------
// Keywords
// ---------------------------------------------------------------------------

/// A keyword of the rules language.
#[derive(Clone, Copy, Debug, PartialEq, Eq, Structural)]
pub enum Kw {
    /// `and`
    And,
    /// `or`
    Or,
    /// `not`
    Not,
    /// `in`
    In,
    /// `of`
    Of,
    /// `them`
    Them,
    /// `true`
    True,
    /// `false`
    False,
    /// `filesize`
    Filesize,
    /// `any`
    Any,
    /// `all`
    All,
    /// `rule`
    Rule,
    /// `private`
    Private,
    /// `global`
    Global,
    /// `import`
    Import,
    /// `strings`
    Strings,
    /// `condition`
    Condition,
    /// `ascii`
    Ascii,
    /// `wide`
    Wide,
    /// `nocase`
    Nocase,
    /// `fullword`
    Fullword,
    /// `xor`
    Xor,
    /// `base64`
    Base64,
    /// `base64wide`
    Base64Wide,
}

/// The bytes of a keyword.
pub open spec fn kw_bytes(k: Kw) -> Seq<u8> {
    match k {
        Kw::And => seq![97u8, 110, 100],
        Kw::Or => seq![111u8, 114],
        Kw::Not => seq![110u8, 111, 116],
        Kw::In => seq![105u8, 110],
        Kw::Of => seq![111u8, 102],
        Kw::Them => seq![116u8, 104, 101, 109],
        Kw::True => seq![116u8, 114, 117, 101],
        Kw::False => seq![102u8, 97, 108, 115, 101],
        Kw::Filesize => seq![102u8, 105, 108, 101, 115, 105, 122, 101],
        Kw::Any => seq![97u8, 110, 121],
        Kw::All => seq![97u8, 108, 108],
        Kw::Rule => seq![114u8, 117, 108, 101],
        Kw::Private => seq![112u8, 114, 105, 118, 97, 116, 101],
        Kw::Global => seq![103u8, 108, 111, 98, 97, 108],
        Kw::Import => seq![105u8, 109, 112, 111, 114, 116],
        Kw::Strings => seq![115u8, 116, 114, 105, 110, 103, 115],
        Kw::Condition => seq![99u8, 111, 110, 100, 105, 116, 105, 111, 110],
        Kw::Ascii => seq![97u8, 115, 99, 105, 105],
        Kw::Wide => seq![119u8, 105, 100, 101],
        Kw::Nocase => seq![110u8, 111, 99, 97, 115, 101],
        Kw::Fullword => seq![102u8, 117, 108, 108, 119, 111, 114, 100],
        Kw::Xor => seq![120u8, 111, 114],
        Kw::Base64 => seq![98u8, 97, 115, 101, 54, 52],
        Kw::Base64Wide => seq![98u8, 97, 115, 101, 54, 52, 119, 105, 100, 101],
    }
}

/// The bytes of a keyword, see [`kw_bytes`].
fn kw_vec(k: Kw) -> (r: Vec<u8>)
    ensures
        r@ == kw_bytes(k),
{
    match k {
        Kw::And => vec![97u8, 110, 100],
        Kw::Or => vec![111u8, 114],
        Kw::Not => vec![110u8, 111, 116],
        Kw::In => vec![105u8, 110],
        Kw::Of => vec![111u8, 102],
        Kw::Them => vec![116u8, 104, 101, 109],
        Kw::True => vec![116u8, 114, 117, 101],
        Kw::False => vec![102u8, 97, 108, 115, 101],
        Kw::Filesize => vec![102u8, 105, 108, 101, 115, 105, 122, 101],
        Kw::Any => vec![97u8, 110, 121],
        Kw::All => vec![97u8, 108, 108],
        Kw::Rule => vec![114u8, 117, 108, 101],
        Kw::Private => vec![112u8, 114, 105, 118, 97, 116, 101],
        Kw::Global => vec![103u8, 108, 111, 98, 97, 108],
        Kw::Import => vec![105u8, 109, 112, 111, 114, 116],
        Kw::Strings => vec![115u8, 116, 114, 105, 110, 103, 115],
        Kw::Condition => vec![99u8, 111, 110, 100, 105, 116, 105, 111, 110],
        Kw::Ascii => vec![97u8, 115, 99, 105, 105],
        Kw::Wide => vec![119u8, 105, 100, 101],
        Kw::Nocase => vec![110u8, 111, 99, 97, 115, 101],
        Kw::Fullword => vec![102u8, 117, 108, 108, 119, 111, 114, 100],
        Kw::Xor => vec![120u8, 111, 114],
        Kw::Base64 => vec![98u8, 97, 115, 101, 54, 52],
        Kw::Base64Wide => vec![98u8, 97, 115, 101, 54, 52, 119, 105, 100, 101],
    }
}

/// Whether the keyword `k` stands at `i`, and is not the start of a longer
/// identifier.
#[verifier::opaque]
pub open spec fn spec_keyword_at(s: Seq<u8>, i: int, k: Kw) -> bool {
    let w = kw_bytes(k);
    &&& 0 <= i
    &&& i + w.len() <= s.len()
    &&& s.subrange(i, i + w.len()) == w
    &&& !(i + w.len() < s.len() && is_ident_byte(s[i + w.len()]))
}

/// Lemma: a keyword lies within the input.
pub proof fn lemma_keyword_at(s: Seq<u8>, i: int, k: Kw)
    ensures
        spec_keyword_at(s, i, k) ==> 0 <= i && i + kw_bytes(k).len() <= s.len(),
{
    reveal(spec_keyword_at);
}

/// Whether the keyword `k` stands at `i`, see [`spec_keyword_at`].
pub fn keyword_at(s: &[u8], i: usize, k: Kw) -> (r: bool)
    ensures
        r == spec_keyword_at(s@, i as int, k),
        r ==> i + kw_bytes(k).len() <= s@.len(),
{
    reveal(spec_keyword_at);
    let w = kw_vec(k);
    if i > s.len() || w.len() > s.len() - i {
        return false;
    }
    let mut j: usize = 0;
    while j < w.len()
        invariant
            j <= w@.len(),
            w@ == kw_bytes(k),
            i + w@.len() <= s@.len() <= usize::MAX,
            forall|m: int| 0 <= m < j ==> #[trigger] s@[i + m] == w@[m],
        decreases w@.len() - j,
    {
        reveal(spec_keyword_at);
        if s[i + j] != w[j] {
            assert(s@.subrange(i as int, i + w@.len())[j as int] != w@[j as int]);
            return false;
        }
        j = j + 1;
    }
    assert(s@.subrange(i as int, i + w@.len()) =~= w@) by {
        assert forall|m: int| 0 <= m < w@.len() implies #[trigger] s@.subrange(
            i as int,
            i + w@.len(),
        )[m] == w@[m] by {
            assert(s@[i + m] == w@[m]);
        }
    }
    let e = i + w.len();
    !(e < s.len() && is_ident_char(s[e]))
}

/// A letter, a digit or an underscore, see [`is_ident_byte`].
pub fn is_ident_char(c: u8) -> (r: bool)
    ensures
        r == is_ident_byte(c),
{
    (65 <= c && c <= 90) || (97 <= c && c <= 122) || c == 95 || (48 <= c && c <= 57)
}

// ---------------------------------------------------------------------------
// Identifiers
// ---------------------------------------------------------------------------

/// Number of identifier bytes from `i` on.
#[verifier::opaque]
pub open spec fn spec_ident_len(s: Seq<u8>, i: int) -> nat
    decreases s.len() - i,
{
    if i < 0 || i >= s.len() || !is_ident_byte(s[i]) {
        0
    } else {
        1 + spec_ident_len(s, i + 1)
    }
}

/// Lemma: the identifier bytes from `i` on lie in the input, and are
/// identifier bytes.
pub proof fn lemma_ident_len(s: Seq<u8>, i: int)
    requires
        0 <= i <= s.len(),
    ensures
        i + spec_ident_len(s, i) <= s.len(),
        forall|m: int| i <= m < i + spec_ident_len(s, i) ==> #[trigger] is_ident_byte(s[m]),
    decreases s.len() - i,
{
    reveal_with_fuel(spec_ident_len, 1);
    if i < s.len() && is_ident_byte(s[i]) {
        lemma_ident_len(s, i + 1);
    }
}

/// The position after the identifier bytes from `i` on.
pub fn ident_end(s: &[u8], i: usize) -> (r: usize)
    requires
        i <= s@.len(),
    ensures
        r == i + spec_ident_len(s@, i as int),
        r <= s@.len(),
        forall|m: int| i <= m < r ==> #[trigger] is_ident_byte(s@[m]),
{
    reveal_with_fuel(spec_ident_len, 1);
    proof {
        lemma_ident_len(s@, i as int);
    }
    let mut j: usize = i;
    while j < s.len() && is_ident_char(s[j])
        invariant
            i <= j <= s@.len(),
            i + spec_ident_len(s@, i as int) == j + spec_ident_len(s@, j as int),
        decreases s@.len() - j,
    {
        reveal_with_fuel(spec_ident_len, 1);
        j = j + 1;
    }
    j
}

/// The text of the bytes from `a` to `b`.
pub open spec fn spec_text(s: Seq<u8>, a: int, b: int) -> Seq<char> {
    decode_utf8(s.subrange(a, b))
}

/// Lemma: ASCII bytes are valid UTF-8.
proof fn lemma_ascii_valid_utf8(b: Seq<u8>)
    requires
        forall|m: int| 0 <= m < b.len() ==> #[trigger] b[m] < 128,
    ensures
        valid_utf8(b),
{
    assert(b.subrange(0, 0) =~= Seq::<u8>::empty());
    assert(partial_valid_utf8(b, 0));
    assert forall|m: int| 0 <= 0 <= m < b.len() <= b.len() implies #[trigger] is_leading_byte_width_1(
        b[m],
    ) by {
        assert(b[m] < 128);
    }
    vstd::utf8::partial_valid_utf8_extend_ascii_block(b, 0, b.len() as int);
    assert(b.subrange(0, b.len() as int) =~= b);
}

/// `String::from_utf8`: the string that the bytes encode, if they are valid
/// UTF-8.
///
/// Trusted: the result is `Some` exactly when the bytes are valid UTF-8, and
/// then holds the characters that they encode.
#[verifier::external_body]
pub(crate) fn string_from_utf8(bytes: Vec<u8>) -> (r: Option<String>)
    ensures
        r is Some <==> valid_utf8(bytes@),
        r matches Some(t) ==> t@ == decode_utf8(bytes@),
{
    match String::from_utf8(bytes) {
        Ok(t) => Some(t),
        Err(_) => None,
    }
}

/// The text of ASCII bytes.
pub(crate) fn ascii_string(bytes: Vec<u8>) -> (r: String)
    requires
        forall|m: int| 0 <= m < bytes@.len() ==> #[trigger] bytes@[m] < 128,
    ensures
        r@ == decode_utf8(bytes@),
{
    proof {
        lemma_ascii_valid_utf8(bytes@);
    }
    match string_from_utf8(bytes) {
        Some(t) => t,
        None => String::new(),
    }
}

/// The bytes from `a` to `b`.
pub fn sub_bytes(s: &[u8], a: usize, b: usize) -> (r: Vec<u8>)
    requires
        a <= b <= s@.len(),
    ensures
        r@ == s@.subrange(a as int, b as int),
{
    let mut v: Vec<u8> = Vec::new();
    let mut j: usize = a;
    while j < b
        invariant
            a <= j <= b <= s@.len(),
            v@ == s@.subrange(a as int, j as int),
        decreases b - j,
    {
        v.push(s[j]);
        j = j + 1;
        assert(v@ =~= s@.subrange(a as int, j as int));
    }
    v
}

/// The text of the bytes from `a` to `b`, if they are valid UTF-8.
pub fn text(s: &[u8], a: usize, b: usize) -> (r: Option<String>)
    requires
        a <= b <= s@.len(),
    ensures
        r is Some <==> valid_utf8(s@.subrange(a as int, b as int)),
        r matches Some(t) ==> t@ == spec_text(s@, a as int, b as int),
{
    string_from_utf8(sub_bytes(s, a, b))
}

/// The text of identifier bytes from `a` to `b`.
pub fn ident_text(s: &[u8], a: usize, b: usize) -> (r: String)
    requires
        a <= b <= s@.len(),
        forall|m: int| a <= m < b ==> #[trigger] is_ident_byte(s@[m]),
    ensures
        r@ == spec_text(s@, a as int, b as int),
{
    let ghost sub = s@.subrange(a as int, b as int);
    proof {
        assert forall|m: int| 0 <= m < sub.len() implies #[trigger] sub[m] < 128 by {
            assert(is_ident_byte(s@[a + m]));
        }
        lemma_ascii_valid_utf8(sub);
    }
    match text(s, a, b) {
        Some(t) => t,
        None => String::new(),
    }
}

// ---------------------------------------------------------------------------
// Numbers
// ---------------------------------------------------------------------------

/// A hexadecimal digit.
pub open spec fn is_hex_byte(c: u8) -> bool {
    is_digit(c) || (97 <= c <= 102) || (65 <= c <= 70)
}

/// The value of a hexadecimal (or decimal) digit.
pub open spec fn digit_value(c: u8) -> int {
    if is_digit(c) {
        c - 48
    } else if 97 <= c <= 102 {
        c - 87
    } else {
        c - 55
    }
}

/// Number of decimal digits from `i` on.
pub open spec fn spec_digit_len(s: Seq<u8>, i: int) -> nat
    decreases s.len() - i,
{
    if i < 0 || i >= s.len() || !is_digit(s[i]) {
        0
    } else {
        1 + spec_digit_len(s, i + 1)
    }
}

/// Number of hexadecimal digits from `i` on.
pub open spec fn spec_hex_len(s: Seq<u8>, i: int) -> nat
    decreases s.len() - i,
{
    if i < 0 || i >= s.len() || !is_hex_byte(s[i]) {
        0
    } else {
        1 + spec_hex_len(s, i + 1)
    }
}

/// The value of the digits from `a` to `b` in base `base`.
pub open spec fn spec_digits_value(s: Seq<u8>, a: int, b: int, base: int) -> int
    decreases b - a,
{
    if b <= a {
        0
    } else {
        spec_digits_value(s, a, b - 1, base) * base + digit_value(s[b - 1])
    }
}

/// The value and length of the digits of a number at `i`: decimal, or
/// hexadecimal after `0x`.
pub open spec fn spec_number_base(s: Seq<u8>, i: int) -> Result<(nat, int), Error> {
    if byte_is(s, i, 48) && byte_is(s, i + 1, 120) {
        let h = spec_hex_len(s, i + 2);
        let v = spec_digits_value(s, i + 2, i + 2 + h, 16);
        if h == 0 || v > i64::MAX {
            Err(err_at(i, i + 2 + h, ErrorKind::StrToHexIntError))
        } else {
            Ok((2 + h, v))
        }
    } else {
        let d = spec_digit_len(s, i);
        let v = spec_digits_value(s, i, i + d, 10);
        if d == 0 {
            Err(syntax_at(i))
        } else if v > i64::MAX {
            Err(err_at(i, i + d, ErrorKind::StrToIntError))
        } else {
            Ok((d, v))
        }
    }
}

/// The multiplier of a size suffix at `e`: `KB` or `MB`; 1 if there is none.
pub open spec fn spec_suffix(s: Seq<u8>, e: int) -> int {
    if byte_is(s, e, 75) && byte_is(s, e + 1, 66) {
        1024
    } else if byte_is(s, e, 77) && byte_is(s, e + 1, 66) {
        1048576
    } else {
        1
    }
}

/// A number token at `i`: its length (without trailing whitespace) and its
/// value, a size suffix applied.
#[verifier::opaque]
pub open spec fn spec_number(s: Seq<u8>, i: int) -> PRes<i64> {
    match spec_number_base(s, i) {
        Err(e) => Err(e),
        Ok((len, v)) => {
            let m = spec_suffix(s, i + len);
            if m == 1 {
                Ok((len, v as i64))
            } else if v * m > i64::MAX {
                Err(err_at(i, i + len + 2, ErrorKind::MulOverflow { left: v as i64, right: m as i64 }))
            } else {
                Ok((len + 2, (v * m) as i64))
            }
        },
    }
}

/// Lemma: a value of digits is not negative, and grows with its digits.
proof fn lemma_digits_mono(s: Seq<u8>, a: int, j: int, b: int, base: int)
    requires
        0 <= a <= j <= b <= s.len(),
        base == 10 || base == 16,
        forall|m: int| a <= m < b ==> #[trigger] is_hex_byte(s[m]),
    ensures
        0 <= spec_digits_value(s, a, j, base) <= spec_digits_value(s, a, b, base),
    decreases b - a,
{
    if b > j {
        lemma_digits_mono(s, a, j, b - 1, base);
        assert(is_hex_byte(s[b - 1]));
    } else if j > a {
        lemma_digits_mono(s, a, j - 1, j - 1, base);
        assert(is_hex_byte(s[j - 1]));
    }
}

/// The value of the digits from `a` to `b` in base `base`, if it fits in an
/// `i64`.
fn digits_value(s: &[u8], a: usize, b: usize, base: u8) -> (r: Option<i64>)
    requires
        a <= b <= s@.len(),
        base == 10 || base == 16,
        forall|m: int| a <= m < b ==> #[trigger] is_hex_byte(s@[m]),
        base == 10 ==> forall|m: int| a <= m < b ==> #[trigger] is_digit(s@[m]),
    ensures
        match r {
            Some(v) => v >= 0 && v == spec_digits_value(s@, a as int, b as int, base as int),
            None => spec_digits_value(s@, a as int, b as int, base as int) > i64::MAX,
        },
{
    let mut acc: i64 = 0;
    let mut j: usize = a;
    while j < b
        invariant
            a <= j <= b <= s@.len(),
            base == 10 || base == 16,
            forall|m: int| a <= m < b ==> #[trigger] is_hex_byte(s@[m]),
            acc >= 0,
            acc == spec_digits_value(s@, a as int, j as int, base as int),
        decreases b - j,
    {
        let c = s[j];
        assert(is_hex_byte(s@[j as int]));
        let d: i64 = if 48 <= c && c <= 57 {
            (c - 48) as i64
        } else if 97 <= c && c <= 102 {
            (c - 87) as i64
        } else {
            (c - 55) as i64
        };
        assert(is_hex_byte(s@[j as int]));
        assert(d == digit_value(s@[j as int]));
        let q: i64 = (9223372036854775807 - d) / (base as i64);
        proof {
            lemma_digits_mono(s@, a as int, j as int, j as int, base as int);
        }
        if acc > q {
            proof {
                let bs = base as int;
                let x = acc as int;
                let qq = q as int;
                let dd = d as int;
                assert(x * bs + dd > i64::MAX) by (nonlinear_arith)
                    requires
                        x > qq,
                        qq == (9223372036854775807int - dd) / bs,
                        bs == 10 || bs == 16,
                        0 <= dd < 16,
                ;
                lemma_digits_mono(s@, a as int, j + 1, b as int, base as int);
            }
            return None;
        }
        proof {
            let bs = base as int;
            let x = acc as int;
            let qq = q as int;
            let dd = d as int;
            assert(0 <= x * bs + dd <= i64::MAX) by (nonlinear_arith)
                requires
                    0 <= x <= qq,
                    qq == (9223372036854775807int - dd) / bs,
                    bs == 10 || bs == 16,
                    0 <= dd < 16,
            ;
        }
        acc = acc * (base as i64) + d;
        j = j + 1;
    }
    Some(acc)
}

/// The position after the decimal digits from `i` on.
fn digit_end(s: &[u8], i: usize) -> (r: usize)
    requires
        i <= s@.len(),
    ensures
        r == i + spec_digit_len(s@, i as int),
        r <= s@.len(),
        forall|m: int| i <= m < r ==> #[trigger] is_digit(s@[m]),
{
    let mut j: usize = i;
    while j < s.len() && 48 <= s[j] && s[j] <= 57
        invariant
            i <= j <= s@.len(),
            forall|m: int| i <= m < j ==> #[trigger] is_digit(s@[m]),
            i + spec_digit_len(s@, i as int) == j + spec_digit_len(s@, j as int),
        decreases s@.len() - j,
    {
        j = j + 1;
    }
    j
}

/// The position after the hexadecimal digits from `i` on.
fn hex_end(s: &[u8], i: usize) -> (r: usize)
    requires
        i <= s@.len(),
    ensures
        r == i + spec_hex_len(s@, i as int),
        r <= s@.len(),
        forall|m: int| i <= m < r ==> #[trigger] is_hex_byte(s@[m]),
{
    let mut j: usize = i;
    while j < s.len() && is_hex_char(s[j])
        invariant
            i <= j <= s@.len(),
            forall|m: int| i <= m < j ==> #[trigger] is_hex_byte(s@[m]),
            i + spec_hex_len(s@, i as int) == j + spec_hex_len(s@, j as int),
        decreases s@.len() - j,
    {
        j = j + 1;
    }
    j
}

/// A hexadecimal digit, see [`is_hex_byte`].
fn is_hex_char(c: u8) -> (r: bool)
    ensures
        r == is_hex_byte(c),
{
    (48 <= c && c <= 57) || (97 <= c && c <= 102) || (65 <= c && c <= 70)
}

/// A number token at `i`, see [`spec_number`]: the position after it
/// (without trailing whitespace) and its value.
pub fn number(s: &[u8], i: usize) -> (r: Result<(usize, i64), Error>)
    requires
        i <= s@.len() < usize::MAX,
    ensures
        agrees(r, s@, i as int, spec_number(s@, i as int)),
{
    reveal(spec_number);
    let base_result: Result<(usize, i64), Error> = if byte_at_is(s, i, 48) && byte_at_is(
        s,
        i + 1,
        120,
    ) {
        let e = hex_end(s, i + 2);
        match digits_value(s, i + 2, e, 16) {
            Some(v) => if e == i + 2 {
                Err(Error { span: Range { start: i, end: e }, kind: ErrorKind::StrToHexIntError })
            } else {
                Ok((e, v))
            },
            None => Err(
                Error { span: Range { start: i, end: e }, kind: ErrorKind::StrToHexIntError },
            ),
        }
    } else {
        let e = digit_end(s, i);
        if e == i {
            Err(syntax_error(i))
        } else {
            match digits_value(s, i, e, 10) {
                Some(v) => Ok((e, v)),
                None => Err(
                    Error { span: Range { start: i, end: e }, kind: ErrorKind::StrToIntError },
                ),
            }
        }
    };
    let (e, v) = match base_result {
        Ok(p) => p,
        Err(err) => {
            return Err(err);
        },
    };
    let m: i64 = if byte_at_is(s, e, 75) && byte_at_is(s, e + 1, 66) {
        1024
    } else if byte_at_is(s, e, 77) && byte_at_is(s, e + 1, 66) {
        1048576
    } else {
        1
    };
    if m == 1 {
        return Ok((e, v));
    }
    if v > 9223372036854775807 / m {
        proof {
            let vv = v as int;
            let mm = m as int;
            assert(vv * mm > i64::MAX) by (nonlinear_arith)
                requires
                    vv > 9223372036854775807int / mm,
                    mm > 0,
            ;
        }
        return Err(
            Error {
                span: Range { start: i, end: e + 2 },
                kind: ErrorKind::MulOverflow { left: v, right: m },
            },
        );
    }
    proof {
        let vv = v as int;
        let mm = m as int;
        assert(vv * mm <= i64::MAX) by (nonlinear_arith)
            requires
                vv <= 9223372036854775807int / mm,
                mm > 0,
        ;
    }
    Ok((e + 2, v * m))
}

// ---------------------------------------------------------------------------
// Text strings
// ---------------------------------------------------------------------------

/// The byte that a one-letter escape `\c` stands for: `\n`, `\t`, `\r`,
/// `\"` and `\\`.
pub open spec fn simple_escape(c: u8) -> Option<u8> {
    if c == 110 {
        Some(10u8)
    } else if c == 116 {
        Some(9u8)
    } else if c == 114 {
        Some(13u8)
    } else if c == 34 {
        Some(34u8)
    } else if c == 92 {
        Some(92u8)
    } else {
        None
    }
}

/// The rest of a text string from `j`, `acc` being the bytes read before:
/// the position after the closing quote, and all the bytes. A string does not
/// span lines; `\xHH` stands for the byte of hexadecimal value `HH`.
pub open spec fn spec_string_body(s: Seq<u8>, j: int, acc: Seq<u8>) -> Result<(int, Seq<u8>), Error>
    decreases s.len() - j,
{
    if j < 0 || j >= s.len() || s[j] == 10 {
        Err(syntax_at(j))
    } else if s[j] == 34 {
        Ok((j + 1, acc))
    } else if s[j] == 92 {
        if j + 1 < s.len() {
            match simple_escape(s[j + 1]) {
                Some(b) => spec_string_body(s, j + 2, acc.push(b)),
                None => if s[j + 1] == 120 && j + 3 < s.len() && is_hex_byte(s[j + 2])
                    && is_hex_byte(s[j + 3]) {
                    spec_string_body(
                        s,
                        j + 4,
                        acc.push((digit_value(s[j + 2]) * 16 + digit_value(s[j + 3])) as u8),
                    )
                } else {
                    Err(syntax_at(j))
                },
            }
        } else {
            Err(syntax_at(j))
        }
    } else {
        spec_string_body(s, j + 1, acc.push(s[j]))
    }
}

/// A text string token at `i`, between double quotes: its length (without
/// trailing whitespace) and its bytes.
#[verifier::opaque]
pub open spec fn spec_string_literal(s: Seq<u8>, i: int) -> PRes<Seq<u8>> {
    if !byte_is(s, i, 34) {
        Err(syntax_at(i))
    } else {
        match spec_string_body(s, i + 1, Seq::empty()) {
            Ok((e, b)) => Ok(((e - i) as nat, b)),
            Err(e) => Err(e),
        }
    }
}

/// The value of a hexadecimal digit, see [`digit_value`].
fn hex_value(c: u8) -> (r: u8)
    requires
        is_hex_byte(c),
    ensures
        r == digit_value(c),
        r < 16,
{
    if 48 <= c && c <= 57 {
        c - 48
    } else if 97 <= c && c <= 102 {
        c - 87
    } else {
        c - 55
    }
}

/// A text string token at `i`, see [`spec_string_literal`]. The string has
/// no more bytes than the token.
pub fn string_literal(s: &[u8], i: usize) -> (r: Result<(usize, Vec<u8>), Error>)
    requires
        i <= s@.len() < usize::MAX,
    ensures
        agrees(r, s@, i as int, spec_string_literal(s@, i as int)),
        r matches Ok((e, b)) ==> b@.len() <= e - i,
{
    reveal(spec_string_literal);
    if !byte_at_is(s, i, 34) {
        return Err(syntax_error(i));
    }
    let mut acc: Vec<u8> = Vec::new();
    let mut j: usize = i + 1;
    loop
        invariant
            i + 1 <= j <= s@.len() < usize::MAX,
            byte_is(s@, i as int, 34),
            acc@.len() <= j - i - 1,
            spec_string_body(s@, i + 1, Seq::empty()) == spec_string_body(s@, j as int, acc@),
        decreases s@.len() - j,
    {
        reveal(spec_string_literal);
        if j >= s.len() || s[j] == 10 {
            return Err(syntax_error(j));
        }
        let c = s[j];
        if c == 34 {
            return Ok((j + 1, acc));
        }
        if c == 92 {
            if j + 1 >= s.len() {
                return Err(syntax_error(j));
            }
            let n = s[j + 1];
            let b: u8 = if n == 110 {
                10
            } else if n == 116 {
                9
            } else if n == 114 {
                13
            } else if n == 34 {
                34
            } else if n == 92 {
                92
            } else if n == 120 && j + 3 < s.len() && is_hex_char(s[j + 2]) && is_hex_char(
                s[j + 3],
            ) {
                let hi = hex_value(s[j + 2]);
                let lo = hex_value(s[j + 3]);
                acc.push(hi * 16 + lo);
                j = j + 4;
                continue;
            } else {
                return Err(syntax_error(j));
            };
            acc.push(b);
            j = j + 2;
        } else {
            acc.push(c);
            j = j + 1;
        }
    }
}

// ---------------------------------------------------------------------------
// Regexes
// ---------------------------------------------------------------------------

/// The position of the slash that closes a regex whose text starts at `j`,
/// if there is one on the line: a backslash escapes the byte after it.
pub open spec fn spec_regex_end(s: Seq<u8>, j: int) -> Option<int>
    decreases s.len() - j,
{
    if j < 0 || j >= s.len() || s[j] == 10 {
        None
    } else if s[j] == 47 {
        Some(j)
    } else if s[j] == 92 {
        if j + 1 < s.len() && s[j + 1] != 10 {
            spec_regex_end(s, j + 2)
        } else {
            None
        }
    } else {
        spec_regex_end(s, j + 1)
    }
}

/// The flags `i` and `s` after a regex, from `j`: the position after them
/// and the two flags, starting from `ci` and `dot_all`.
pub open spec fn spec_regex_flags(s: Seq<u8>, j: int, ci: bool, dot_all: bool) -> (int, bool, bool)
    decreases s.len() - j,
{
    if byte_is(s, j, 105) {
        spec_regex_flags(s, j + 1, true, dot_all)
    } else if byte_is(s, j, 115) {
        spec_regex_flags(s, j + 1, ci, true)
    } else {
        (j, ci, dot_all)
    }
}

/// A regex token at `i`, `/text/` then its flags: its length (without
/// trailing whitespace), and its text with the two flags (case insensitive,
/// dot matches all). The text is kept as written, escapes included.
#[verifier::opaque]
pub open spec fn spec_regex(s: Seq<u8>, i: int) -> PRes<(Seq<char>, bool, bool)> {
    if !byte_is(s, i, 47) {
        Err(syntax_at(i))
    } else {
        match spec_regex_end(s, i + 1) {
            None => Err(syntax_at(i)),
            Some(e) => if e == i + 1 {
                Err(err_at(i, i + 2, ErrorKind::EmptyRegex))
            } else if !valid_utf8(s.subrange(i + 1, e)) {
                Err(syntax_at(i + 1))
            } else {
                let (f, ci, dot_all) = spec_regex_flags(s, e + 1, false, false);
                Ok(((f - i) as nat, (spec_text(s, i + 1, e), ci, dot_all)))
            },
        }
    }
}

/// The position of the slash closing a regex, see [`spec_regex_end`].
fn regex_end(s: &[u8], j: usize) -> (r: Option<usize>)
    requires
        j <= s@.len() < usize::MAX,
    ensures
        match r {
            Some(e) => j <= e < s@.len() && spec_regex_end(s@, j as int) == Some(e as int),
            None => spec_regex_end(s@, j as int) is None,
        },
{
    let mut k: usize = j;
    loop
        invariant
            j <= k <= s@.len() + 1,
            s@.len() < usize::MAX,
            spec_regex_end(s@, j as int) == spec_regex_end(s@, k as int),
        decreases s@.len() + 1 - k,
    {
        if k >= s.len() || s[k] == 10 {
            return None;
        }
        if s[k] == 47 {
            return Some(k);
        }
        if s[k] == 92 {
            if k + 1 < s.len() && s[k + 1] != 10 {
                k = k + 2;
            } else {
                return None;
            }
        } else {
            k = k + 1;
        }
    }
}

/// A regex token at `i`, see [`spec_regex`].
pub fn regex_literal(s: &[u8], i: usize) -> (r: Result<(usize, (String, bool, bool)), Error>)
    requires
        i <= s@.len() < usize::MAX,
    ensures
        agrees(r, s@, i as int, spec_regex(s@, i as int)),
{
    reveal(spec_regex);
    if !byte_at_is(s, i, 47) {
        return Err(syntax_error(i));
    }
    let e = match regex_end(s, i + 1) {
        Some(e) => e,
        None => {
            return Err(syntax_error(i));
        },
    };
    if e == i + 1 {
        return Err(Error { span: Range { start: i, end: i + 2 }, kind: ErrorKind::EmptyRegex });
    }
    let expr = match text(s, i + 1, e) {
        Some(t) => t,
        None => {
            return Err(syntax_error(i + 1));
        },
    };
    let mut f: usize = e + 1;
    let mut ci = false;
    let mut dot_all = false;
    while f < s.len() && (s[f] == 105 || s[f] == 115)
        invariant
            e + 1 <= f <= s@.len(),
            spec_regex_flags(s@, e + 1, false, false) == spec_regex_flags(
                s@,
                f as int,
                ci,
                dot_all,
            ),
        decreases s@.len() - f,
    {
        if s[f] == 105 {
            ci = true;
        } else {
            dot_all = true;
        }
        f = f + 1;
    }
    Ok((f, (expr, ci, dot_all)))
}

} // verus!
