//! Compiled string variables, and the confirmation of their matches.
use std::ops::Range;
use vstd::prelude::*;

use crate::base64::{default_alphabet, encode_base64, spec_default_alphabet, spec_encode_base64, spec_base64};
use crate::declaration::{
    VariableDeclaration, VariableDeclarationValue, VariableFlags, VariableModifiers,
};
use crate::error::CompilationError;
use crate::lexer::string_from_utf8;
use crate::regex_widen::{either, spec_either, spec_widen, widen};
use vstd::utf8::{encode_utf8, valid_utf8};
use vstd::string::StringSliceAdditionalSpecFns;
use crate::hex_string::{hex_string_literal, hex_string_regex, spec_hex_literal, spec_hex_regex};
use vstd::utf8::decode_utf8;
use crate::regex_matcher::{
    build_regex, regex_builds, regex_error_message, regex_find, regex_find_at, CompiledRegex,
    RegexSource,
};
use crate::wide::{
    is_ascii_alnum, is_match_wide, spec_is_ascii_alnum, spec_is_match_wide, spec_unwide,
    spec_wide, string_to_wide, unwide,
};

verus! {

/// How many bytes after a wide match are looked at to check the word
/// boundaries of a wide regex.
pub const WIDE_BOUNDARY_LOOKAHEAD: usize = 500;

/// A compiled variable used in a rule.
#[derive(Debug)]
pub struct Variable {
    /// Name of the variable, without the '$'.
    ///
    /// Anonymous variables are just named "".
    pub name: String,
    /// Is the variable marked as private.
    pub is_private: bool,
    /// Set of literals extracted from the variable.
    ///
    /// Will be used by the literal pass to scan for the variable.
    pub literals: Vec<Vec<u8>>,
    /// Flags related to variable modifiers.
    pub flags: VariableFlags,
    /// Type of matching for the variable.
    pub matcher_type: MatcherType,
    /// Regex of the non wide version of the regex: set for a wide regex that
    /// holds word boundaries, and used to check them on the unwidened match.
    pub non_wide_regex: Option<CompiledRegex>,
}

/// How the matches of a variable are found.
#[derive(Debug)]
pub enum MatcherType {
    /// The literals cover entirely the variable.
    Literals,
    /// The regex can confirm matches from literal matches.
    Atomized { left_validator: Option<CompiledRegex>, right_validator: Option<CompiledRegex> },
    /// The regex cannot confirm matches from literal matches.
    Raw(CompiledRegex),
}

/// The abstract form of a [`MatcherType`]: its regexes given by their source.
pub enum MatcherKind {
    Literals,
    Atomized { left: Option<RegexSource>, right: Option<RegexSource> },
    Raw(RegexSource),
}

/// State of a literal match on a variable's literals.
#[derive(Debug)]
pub enum AcMatchStatus {
    /// The literal yields multiple matches (can be empty).
    Multiple(Vec<Range<usize>>),
    /// The literal yields a single match.
    Single(Range<usize>),
    /// The literal does not give any match.
    NoMatch,
    /// Unknown status for the match, will need to be confirmed on its own.
    Unknown,
}

/// The abstract form of an [`AcMatchStatus`], ranges as pairs of offsets.
pub enum AcMatchStatusView {
    Multiple(Seq<(int, int)>),
    Single((int, int)),
    NoMatch,
    Unknown,
}

/// A range as a pair of offsets.
pub open spec fn range_pair(r: Range<usize>) -> (int, int) {
    (r.start as int, r.end as int)
}

/// An optional range as an optional pair of offsets.
pub open spec fn opt_range_pair(r: Option<Range<usize>>) -> Option<(int, int)> {
    match r {
        Some(m) => Some(range_pair(m)),
        None => None,
    }
}

impl View for AcMatchStatus {
    type V = AcMatchStatusView;

    open spec fn view(&self) -> AcMatchStatusView {
        match self {
            AcMatchStatus::Multiple(v) => AcMatchStatusView::Multiple(
                v@.map_values(|r: Range<usize>| range_pair(r)),
            ),
            AcMatchStatus::Single(r) => AcMatchStatusView::Single(range_pair(*r)),
            AcMatchStatus::NoMatch => AcMatchStatusView::NoMatch,
            AcMatchStatus::Unknown => AcMatchStatusView::Unknown,
        }
    }
}

/// Whether the match `s..e` in `mem` respects a `fullword` modifier with the
/// given flags: a wide match must not be preceded nor followed by a wide
/// alphanumeric character, an ascii match by an alphanumeric byte.
pub open spec fn spec_check_fullword(mem: Seq<u8>, s: int, e: int, flags: VariableFlags) -> bool {
    let match_is_wide = flags.wide && spec_is_match_wide(s, e, mem);
    &&& match_is_wide ==> !(s > 1 && mem[s - 1] == 0 && spec_is_ascii_alnum(mem[s - 2]))
    &&& match_is_wide ==> !(e + 1 < mem.len() && spec_is_ascii_alnum(mem[e]) && mem[e + 1] == 0)
    &&& (flags.ascii && !match_is_wide) ==> !(s > 0 && spec_is_ascii_alnum(mem[s - 1]))
    &&& (flags.ascii && !match_is_wide) ==> !(e < mem.len() && spec_is_ascii_alnum(mem[e]))
}

/// Where the unwidened window used to check word boundaries starts: one wide
/// character before the match when there is one.
pub open spec fn spec_wide_window_start(s: int, mem: Seq<u8>) -> int {
    if s >= 2 && mem[s - 1] == 0 {
        s - 2
    } else {
        s
    }
}

/// Where the unwidened window used to check word boundaries ends.
pub open spec fn spec_wide_window_end(e: int, mem: Seq<u8>) -> int {
    if mem.len() - e < WIDE_BOUNDARY_LOOKAHEAD {
        mem.len() as int
    } else {
        e + WIDE_BOUNDARY_LOOKAHEAD
    }
}

/// The match produced from a regex match `found` on the unwidened window:
/// it must start where the wide match starts in the window, and its length
/// is doubled back.
pub open spec fn spec_wide_boundary_result(
    s: int,
    found: Option<(usize, usize)>,
    expected_start: int,
) -> Option<(int, int)> {
    match found {
        Some((ms, me)) => if ms == expected_start {
            Some((s, s + 2 * (me - ms)))
        } else {
            None
        },
        None => None,
    }
}

/// Check of the word boundaries of a wide regex on the match `s..e`, the
/// non wide regex being `re`.
pub open spec fn spec_apply_wide_word_boundaries(s: int, e: int, mem: Seq<u8>, re: RegexSource) -> Option<
    (int, int),
> {
    if !spec_is_match_wide(s, e, mem) {
        Some((s, e))
    } else {
        let start = spec_wide_window_start(s, mem);
        let window = spec_unwide(mem.subrange(start, spec_wide_window_end(e, mem)));
        spec_wide_boundary_result(s, regex_find(re, window), if start < s { 1 } else { 0 })
    }
}

/// Validation of a match `s..e`: the fullword check, then the wide word
/// boundaries check.
pub open spec fn spec_validate(
    flags: VariableFlags,
    non_wide_regex: Option<RegexSource>,
    mem: Seq<u8>,
    s: int,
    e: int,
) -> Option<(int, int)> {
    if flags.fullword && !spec_check_fullword(mem, s, e, flags) {
        None
    } else {
        match non_wide_regex {
            Some(re) => spec_apply_wide_word_boundaries(s, e, mem, re),
            None => Some((s, e)),
        }
    }
}

/// The matches confirmed by a left validator `left`, scanning `mem` from
/// `position` up to `mat_end`: every match of the validator starts a
/// candidate `start..end` which is then validated.
pub open spec fn spec_left_matches(
    flags: VariableFlags,
    non_wide_regex: Option<RegexSource>,
    left: RegexSource,
    mem: Seq<u8>,
    mat_end: int,
    end: int,
    position: int,
) -> Seq<(int, int)>
    decreases mat_end + 1 - position,
{
    if position < 0 || position > mat_end || mat_end > mem.len() {
        Seq::empty()
    } else {
        match regex_find(left, mem.subrange(position, mat_end)) {
            None => Seq::empty(),
            Some((ms, _me)) => {
                let st = ms + position;
                let rest = if st <= mat_end {
                    spec_left_matches(flags, non_wide_regex, left, mem, mat_end, end, st + 1)
                } else {
                    Seq::empty()
                };
                if st <= end {
                    match spec_validate(flags, non_wide_regex, mem, st, end) {
                        Some(m) => seq![m] + rest,
                        None => rest,
                    }
                } else {
                    rest
                }
            },
        }
    }
}

/// The result of the processing of a literal match `s..e` on a variable.
pub open spec fn spec_process_ac_match(
    flags: VariableFlags,
    non_wide_regex: Option<RegexSource>,
    matcher: MatcherKind,
    mem: Seq<u8>,
    s: int,
    e: int,
    start_position: int,
) -> AcMatchStatusView {
    match matcher {
        MatcherKind::Literals => match spec_validate(flags, non_wide_regex, mem, s, e) {
            Some(m) => AcMatchStatusView::Single(m),
            None => AcMatchStatusView::NoMatch,
        },
        MatcherKind::Atomized { left, right } => {
            let end_opt: Option<int> = match right {
                Some(re) => match regex_find(re, mem.subrange(s, mem.len() as int)) {
                    Some((_ms, me)) => Some(s + me),
                    None => None,
                },
                None => Some(e),
            };
            match end_opt {
                None => AcMatchStatusView::NoMatch,
                Some(end) => match left {
                    None => match spec_validate(flags, non_wide_regex, mem, s, end) {
                        Some(m) => AcMatchStatusView::Single(m),
                        None => AcMatchStatusView::NoMatch,
                    },
                    Some(lv) => AcMatchStatusView::Multiple(
                        spec_left_matches(flags, non_wide_regex, lv, mem, e, end, start_position),
                    ),
                },
            }
        },
        MatcherKind::Raw(_) => AcMatchStatusView::Unknown,
    }
}

/// The first validated match of the raw regex `re` at or after `offset`:
/// each regex match is validated, and the search restarts one byte after the
/// start of a match that fails validation.
pub open spec fn spec_find_next_match_at(
    flags: VariableFlags,
    non_wide_regex: Option<RegexSource>,
    re: RegexSource,
    mem: Seq<u8>,
    offset: int,
) -> Option<(int, int)>
    decreases mem.len() - offset,
{
    if offset < 0 || offset >= mem.len() {
        None
    } else {
        match regex_find_at(re, mem, offset as usize) {
            None => None,
            Some((ms, me)) => if ms < offset {
                None
            } else {
                match spec_validate(flags, non_wide_regex, mem, ms as int, me as int) {
                    Some(m) => Some(m),
                    None => if ms < mem.len() {
                        spec_find_next_match_at(flags, non_wide_regex, re, mem, ms + 1)
                    } else {
                        None
                    },
                }
            },
        }
    }
}

/// The source of an optional regex.
pub open spec fn opt_regex_source(r: Option<CompiledRegex>) -> Option<RegexSource> {
    match r {
        Some(re) => Some(re@),
        None => None,
    }
}

/// ascii lower case of a byte.
pub open spec fn spec_ascii_lower(c: u8) -> u8 {
    if 0x41 <= c <= 0x5a {
        (c + 0x20) as u8
    } else {
        c
    }
}

/// Equality of two byte strings, ignoring ascii case.
pub open spec fn spec_eq_ignore_ascii_case(a: Seq<u8>, b: Seq<u8>) -> bool {
    &&& a.len() == b.len()
    &&& forall|i: int| 0 <= i < a.len() ==> spec_ascii_lower(a[i]) == spec_ascii_lower(b[i])
}

/// Error during the compilation of a variable.
#[derive(Debug)]
pub enum VariableCompilationError {
    /// Error when compiling a regex variable.
    Regex(String),
    /// Logic error while attempting to extract atoms from a variable.
    AtomsExtractionError,
    /// The wide form of the regex is not valid UTF-8, as when the regex
    /// text is cut in the middle of an escape.
    WidenError,
}

/// The literals of a text string before the `xor` and `base64` modifiers:
/// its wide form and/or itself.
pub open spec fn spec_base_literals(value: Seq<u8>, flags: VariableFlags) -> Seq<Seq<u8>> {
    if flags.wide {
        if flags.ascii {
            seq![spec_wide(value), value]
        } else {
            seq![spec_wide(value)]
        }
    } else {
        seq![value]
    }
}

/// `lit` xored byte-wise with `x`.
pub open spec fn spec_xor(lit: Seq<u8>, x: u8) -> Seq<u8> {
    lit.map_values(|c: u8| c ^ x)
}

/// Xoring a literal twice with the same byte gives it back.
pub proof fn lemma_xor_twice(lit: Seq<u8>, x: u8)
    ensures
        spec_xor(spec_xor(lit, x), x) == lit,
{
    let twice = spec_xor(spec_xor(lit, x), x);
    assert forall|i: int| 0 <= i < lit.len() implies #[trigger] twice[i] == lit[i] by {
        let c = lit[i];
        assert((c ^ x) ^ x == c) by (bit_vector);
    }
    assert(twice =~= lit);
}

/// Number of bytes in the xor range `lo..=hi`.
pub open spec fn spec_xor_range_len(lo: u8, hi: u8) -> nat {
    if lo <= hi {
        (hi - lo + 1) as nat
    } else {
        0
    }
}

/// `lit` xored with each byte of the range `lo..=hi`, in order.
pub open spec fn spec_xor_variants(lit: Seq<u8>, lo: u8, hi: u8) -> Seq<Seq<u8>> {
    Seq::new(spec_xor_range_len(lo, hi), |k: int| spec_xor(lit, (lo + k) as u8))
}

/// The literals of the `xor` modifier: every literal xored with each byte of
/// the range, literal by literal.
pub open spec fn spec_xor_literals(lits: Seq<Seq<u8>>, lo: u8, hi: u8) -> Seq<Seq<u8>>
    decreases lits.len(),
{
    if lits.len() == 0 {
        Seq::empty()
    } else {
        spec_xor_literals(lits.drop_last(), lo, hi) + spec_xor_variants(lits.last(), lo, hi)
    }
}

/// The `xor` modifier with the range `lo..=hi` gives, literal by literal
/// and key by key in increasing order, each literal with every byte xored
/// with the key, for every key `k` with `lo <= k <= hi`: `hi - lo + 1`
/// literals for each one, none for an empty range.
pub proof fn lemma_xor_literals_cover_range(lits: Seq<Seq<u8>>, lo: u8, hi: u8)
    ensures
        lo > hi ==> spec_xor_literals(lits, lo, hi).len() == 0,
        lo <= hi ==> spec_xor_literals(lits, lo, hi).len() == lits.len() * (hi - lo + 1),
        forall|j: int, k: u8|
            #![trigger spec_xor(lits[j], k)]
            0 <= j < lits.len() && lo <= k <= hi ==> spec_xor_literals(lits, lo, hi)[j * (hi - lo
                + 1) + (k - lo)] == spec_xor(lits[j], k),
    decreases lits.len(),
{
    let r = spec_xor_literals(lits, lo, hi);
    let w: int = hi - lo + 1;
    if lits.len() > 0 {
        let rest = lits.drop_last();
        lemma_xor_literals_cover_range(rest, lo, hi);
        let before = spec_xor_literals(rest, lo, hi);
        let v = spec_xor_variants(lits.last(), lo, hi);
        assert(r == before + v);
        if lo <= hi {
            assert(before.len() == (lits.len() - 1) * w);
            assert(r.len() == lits.len() * w) by (nonlinear_arith)
                requires
                    r.len() == before.len() + w,
                    before.len() == (lits.len() - 1) * w,
            ;
            assert forall|j: int, k: u8|
                #![trigger spec_xor(lits[j], k)]
                0 <= j < lits.len() && lo <= k <= hi implies r[j * (hi - lo + 1) + (k - lo)]
                    == spec_xor(lits[j], k) by {
                let idx = j * w + (k - lo);
                if j < lits.len() - 1 {
                    assert(idx < (lits.len() - 1) * w) by (nonlinear_arith)
                        requires
                            idx == j * w + (k - lo),
                            0 <= k - lo < w,
                            j < lits.len() - 1,
                    ;
                    assert(0 <= idx) by (nonlinear_arith)
                        requires
                            idx == j * w + (k - lo),
                            0 <= k - lo,
                            0 <= j,
                            w > 0,
                    ;
                    assert(rest[j] == lits[j]);
                    assert(before[idx] == spec_xor(rest[j], k));
                    assert(r[idx] == before[idx]);
                } else {
                    assert(idx == before.len() + (k - lo)) by (nonlinear_arith)
                        requires
                            idx == j * w + (k - lo),
                            j == lits.len() - 1,
                            before.len() == (lits.len() - 1) * w,
                    ;
                    assert(r[idx] == v[k - lo]);
                    assert((lo + (k - lo)) as u8 == k);
                }
            }
        } else {
            assert(v.len() == 0);
        }
    }
}

/// The literals given by the base64 form of `lit` at offset `offset`.
pub open spec fn spec_base64_piece(
    lit: Seq<u8>,
    flags: VariableFlags,
    alphabet: Seq<u8>,
    offset: int,
) -> Seq<Seq<u8>> {
    match spec_encode_base64(lit, alphabet, offset) {
        None => Seq::empty(),
        Some(l) => if flags.base64 {
            if flags.base64wide {
                seq![spec_wide(l), l]
            } else {
                seq![l]
            }
        } else {
            seq![spec_wide(l)]
        },
    }
}

/// The literals given by the base64 forms of `lit`, at offsets 0, 1 and 2.
pub open spec fn spec_base64_variants(lit: Seq<u8>, flags: VariableFlags, alphabet: Seq<u8>) -> Seq<
    Seq<u8>,
> {
    spec_base64_piece(lit, flags, alphabet, 0) + spec_base64_piece(lit, flags, alphabet, 1)
        + spec_base64_piece(lit, flags, alphabet, 2)
}

/// The literals of the `base64` and `base64wide` modifiers.
pub open spec fn spec_base64_literals(
    lits: Seq<Seq<u8>>,
    flags: VariableFlags,
    alphabet: Seq<u8>,
) -> Seq<Seq<u8>>
    decreases lits.len(),
{
    if lits.len() == 0 {
        Seq::empty()
    } else {
        spec_base64_literals(lits.drop_last(), flags, alphabet) + spec_base64_variants(
            lits.last(),
            flags,
            alphabet,
        )
    }
}

/// The alphabet of the base64 modifiers.
pub open spec fn spec_alphabet(alphabet: Option<Vec<u8>>) -> Seq<u8> {
    match alphabet {
        Some(a) => a@,
        None => spec_default_alphabet(),
    }
}

/// The literals of a text string with the given modifiers.
pub open spec fn spec_bytes_literals(value: Seq<u8>, modifiers: VariableModifiers) -> Seq<Seq<u8>> {
    let flags = modifiers.flags;
    let base = spec_base_literals(value, flags);
    if flags.xor {
        spec_xor_literals(base, modifiers.xor_range.0, modifiers.xor_range.1)
    } else if flags.base64 || flags.base64wide {
        spec_base64_literals(base, flags, spec_alphabet(modifiers.base64_alphabet))
    } else {
        base
    }
}

/// The contents of a vector of literals.
pub open spec fn literals_view(lits: Seq<Vec<u8>>) -> Seq<Seq<u8>> {
    lits.map_values(|l: Vec<u8>| l@)
}

/// The flags of a variable once compiled: `ascii` is implied when `wide`
/// is not set, `nocase` by a case insensitive regex; the other flags are
/// kept as declared.
pub open spec fn spec_compiled_flags(decl: VariableDeclaration) -> VariableFlags {
    let f = decl.modifiers.flags;
    let f1 = if !f.wide {
        VariableFlags { ascii: true, ..f }
    } else {
        f
    };
    match decl.value {
        VariableDeclarationValue::Regex { case_insensitive, .. } => if case_insensitive {
            VariableFlags { nocase: true, ..f1 }
        } else {
            f1
        },
        VariableDeclarationValue::HexString(_) => VariableFlags { fullword: false, wide: false, ..f1 },
        _ => f1,
    }
}

/// `lit` xored byte-wise with `x`.
pub fn xor_bytes(lit: &[u8], x: u8) -> (r: Vec<u8>)
    ensures
        r@ == spec_xor(lit@, x),
{
    let mut out: Vec<u8> = Vec::new();
    let mut i: usize = 0;
    while i < lit.len()
        invariant
            i <= lit@.len(),
            out@ =~= spec_xor(lit@.subrange(0, i as int), x),
        decreases lit@.len() - i,
    {
        out.push(lit[i] ^ x);
        i = i + 1;
    }
    assert(lit@.subrange(0, lit@.len() as int) =~= lit@);
    out
}

/// The literals of a text string before the `xor` and `base64` modifiers.
fn base_literals(value: Vec<u8>, flags: VariableFlags) -> (r: Vec<Vec<u8>>)
    requires
        2 * value@.len() <= usize::MAX,
    ensures
        literals_view(r@) == spec_base_literals(value@, flags),
{
    let mut literals: Vec<Vec<u8>> = Vec::new();
    if flags.wide {
        if flags.ascii {
            literals.push(string_to_wide(value.as_slice()));
            literals.push(value);
        } else {
            literals.push(string_to_wide(value.as_slice()));
        }
    } else {
        literals.push(value);
    }
    assert(literals_view(literals@) =~= spec_base_literals(value@, flags));
    literals
}

/// Without `xor` and `base64` modifiers, a text string is searched as
/// itself, unless it is only `wide`, and as its wide form when it is
/// `wide`, that form first: each byte followed by a nul byte.
pub proof fn lemma_plain_literals(value: Seq<u8>, modifiers: VariableModifiers)
    requires
        !modifiers.flags.xor,
        !modifiers.flags.base64,
        !modifiers.flags.base64wide,
    ensures
        !modifiers.flags.wide ==> spec_bytes_literals(value, modifiers) == seq![value],
        modifiers.flags.wide ==> {
            let r = spec_bytes_literals(value, modifiers);
            &&& r.len() == if modifiers.flags.ascii { 2int } else { 1int }
            &&& modifiers.flags.ascii ==> r[1] == value
            &&& r[0].len() == 2 * value.len()
            &&& forall|i: int|
                #![trigger value[i]]
                0 <= i < value.len() ==> r[0][2 * i] == value[i] && r[0][2 * i + 1] == 0
        },
{
    if modifiers.flags.wide {
        let w = spec_wide(value);
        assert forall|i: int| #![trigger value[i]] 0 <= i < value.len() implies w[2 * i] == value[i]
            && w[2 * i + 1] == 0 by {
            assert((2 * i) % 2 == 0 && (2 * i) / 2 == i);
            assert((2 * i + 1) % 2 == 1);
        }
    }
}

/// The literals of the `xor` modifier, see [`spec_xor_literals`].
pub fn xor_literals(lits: &Vec<Vec<u8>>, lo: u8, hi: u8) -> (r: Vec<Vec<u8>>)
    ensures
        literals_view(r@) == spec_xor_literals(literals_view(lits@), lo, hi),
{
    let ghost all = literals_view(lits@);
    let mut out: Vec<Vec<u8>> = Vec::new();
    let mut i: usize = 0;
    while i < lits.len()
        invariant
            i <= lits@.len(),
            all == literals_view(lits@),
            literals_view(out@) == spec_xor_literals(all.subrange(0, i as int), lo, hi),
        decreases lits@.len() - i,
    {
        let lit = &lits[i];
        let ghost before = literals_view(out@);
        let ghost variants = spec_xor_variants(lit@, lo, hi);
        if lo <= hi {
            let n: u16 = (hi - lo) as u16 + 1;
            let mut k: u16 = 0;
            while k < n
                invariant
                    lo <= hi,
                    n == hi - lo + 1,
                    k <= n,
                    variants == spec_xor_variants(lit@, lo, hi),
                    literals_view(out@) =~= before + variants.subrange(0, k as int),
                decreases n - k,
            {
                let x: u8 = lo + (k as u8);
                assert(x == (lo + k) as u8);
                assert(variants[k as int] == spec_xor(lit@, x));
                let ghost prev = literals_view(out@);
                out.push(xor_bytes(lit.as_slice(), x));
                assert(literals_view(out@) =~= prev.push(spec_xor(lit@, x)));
                assert(variants.subrange(0, k + 1) =~= variants.subrange(0, k as int).push(
                    variants[k as int],
                ));
                k = k + 1;
            }
            assert(variants.subrange(0, n as int) =~= variants);
        } else {
            assert(variants =~= Seq::<Seq<u8>>::empty());
        }
        assert(all.subrange(0, i + 1).drop_last() =~= all.subrange(0, i as int));
        assert(literals_view(out@) =~= before + variants);
        i = i + 1;
    }
    assert(all.subrange(0, lits@.len() as int) =~= all);
    out
}

/// The base64 encoding is at most twice as long as the encoded bytes.
pub proof fn lemma_base64_len(s: Seq<u8>, a: Seq<u8>)
    ensures
        spec_base64(s, a).len() <= 2 * s.len(),
    decreases s.len(),
{
    if s.len() >= 3 {
        lemma_base64_len(s.subrange(3, s.len() as int), a);
    }
}

/// The literals given by the base64 form of `lit` at `offset`, see
/// [`spec_base64_piece`].
fn base64_piece(lit: &[u8], flags: VariableFlags, alphabet: &[u8], offset: usize, out: &mut Vec<
    Vec<u8>,
>)
    requires
        alphabet@.len() == 64,
        offset <= 2,
        8 * lit@.len() + 16 <= usize::MAX,
    ensures
        literals_view(final(out)@) == literals_view(old(out)@) + spec_base64_piece(
            lit@,
            flags,
            alphabet@,
            offset as int,
        ),
{
    let ghost before = literals_view(out@);
    match encode_base64(lit, alphabet, offset) {
        Some(l) => {
            proof {
                lemma_base64_len(Seq::new(offset as nat, |i: int| 0u8) + lit@, alphabet@);
            }
            if flags.base64 {
                if flags.base64wide {
                    out.push(string_to_wide(l.as_slice()));
                }
                out.push(l);
            } else {
                out.push(string_to_wide(l.as_slice()));
            }
        },
        None => {},
    }
    assert(literals_view(out@) =~= before + spec_base64_piece(
        lit@,
        flags,
        alphabet@,
        offset as int,
    ));
}

/// The literals of the `base64` and `base64wide` modifiers, see
/// [`spec_base64_literals`].
pub fn base64_literals(lits: &Vec<Vec<u8>>, flags: VariableFlags, alphabet: &[u8]) -> (r: Vec<
    Vec<u8>,
>)
    requires
        alphabet@.len() == 64,
        forall|i: int| 0 <= i < lits@.len() ==> 8 * #[trigger] lits@[i]@.len() + 16 <= usize::MAX,
    ensures
        literals_view(r@) == spec_base64_literals(literals_view(lits@), flags, alphabet@),
{
    let ghost all = literals_view(lits@);
    let mut out: Vec<Vec<u8>> = Vec::new();
    let mut i: usize = 0;
    while i < lits.len()
        invariant
            i <= lits@.len(),
            alphabet@.len() == 64,
            all == literals_view(lits@),
            forall|j: int| 0 <= j < lits@.len() ==> 8 * #[trigger] lits@[j]@.len() + 16 <= usize::MAX,
            literals_view(out@) == spec_base64_literals(all.subrange(0, i as int), flags, alphabet@),
        decreases lits@.len() - i,
    {
        let lit = &lits[i];
        let ghost before = literals_view(out@);
        base64_piece(lit.as_slice(), flags, alphabet, 0, &mut out);
        base64_piece(lit.as_slice(), flags, alphabet, 1, &mut out);
        base64_piece(lit.as_slice(), flags, alphabet, 2, &mut out);
        assert(all.subrange(0, i + 1).drop_last() =~= all.subrange(0, i as int));
        assert(literals_view(out@) =~= before + spec_base64_variants(lit@, flags, alphabet@));
        i = i + 1;
    }
    assert(all.subrange(0, lits@.len() as int) =~= all);
    out
}

/// The result of the compilation of a variable value.
pub struct CompiledVariable {
    pub literals: Vec<Vec<u8>>,
    pub matcher_type: MatcherType,
    pub non_wide_regex: Option<CompiledRegex>,
}

/// Whether the base64 alphabet of the modifiers, if any, has 64 bytes.
pub open spec fn valid_alphabet(modifiers: VariableModifiers) -> bool {
    modifiers.base64_alphabet matches Some(a) ==> a@.len() == 64
}

/// Compile a text string with its modifiers into literals.
pub fn compile_bytes(value: Vec<u8>, modifiers: &VariableModifiers) -> (r: CompiledVariable)
    requires
        16 * value@.len() + 16 <= usize::MAX,
        valid_alphabet(*modifiers),
    ensures
        literals_view(r.literals@) == spec_bytes_literals(value@, *modifiers),
        r.matcher_type is Literals,
        r.non_wide_regex is None,
{
    let ghost v = value@;
    let literals = base_literals(value, modifiers.flags);
    if modifiers.flags.xor {
        let new_literals = xor_literals(&literals, modifiers.xor_range.0, modifiers.xor_range.1);
        return CompiledVariable {
            literals: new_literals,
            matcher_type: MatcherType::Literals,
            non_wide_regex: None,
        };
    }
    if modifiers.flags.base64 || modifiers.flags.base64wide {
        let default = default_alphabet();
        let alphabet: &[u8] = match &modifiers.base64_alphabet {
            Some(a) => a.as_slice(),
            None => default.as_slice(),
        };
        assert forall|i: int| 0 <= i < literals@.len() implies 8 * #[trigger] literals@[i]@.len()
            + 16 <= usize::MAX by {
            assert(literals_view(literals@)[i] == literals@[i]@);
            assert(literals_view(literals@) == spec_base_literals(v, modifiers.flags));
            assert(spec_wide(v).len() == 2 * v.len());
            let b = spec_base_literals(v, modifiers.flags);
            assert(b.len() == literals@.len());
            if modifiers.flags.wide && modifiers.flags.ascii {
                assert(b[0] == spec_wide(v) && b[1] == v);
            } else if modifiers.flags.wide {
                assert(b[0] == spec_wide(v));
            } else {
                assert(b[0] == v);
            }
            assert(b[i].len() <= 2 * v.len());
            assert(literals@[i]@.len() <= 2 * v.len());
        }
        let new_literals = base64_literals(&literals, modifiers.flags, alphabet);
        return CompiledVariable {
            literals: new_literals,
            matcher_type: MatcherType::Literals,
            non_wide_regex: None,
        };
    }
    CompiledVariable { literals, matcher_type: MatcherType::Literals, non_wide_regex: None }
}

/// Compile a regex expression, with unicode, octal and multi-line off.
pub fn compile_regex_expr(expr: &str, case_insensitive: bool, dot_all: bool) -> (r: Result<
    CompiledRegex,
    VariableCompilationError,
>)
    ensures
        r is Ok <==> regex_builds((expr@, case_insensitive, dot_all)),
        r matches Ok(re) ==> re@ == (expr@, case_insensitive, dot_all),
        r matches Err(e) ==> e matches VariableCompilationError::Regex(m) && m@ == regex_error_message(
            (expr@, case_insensitive, dot_all),
        ),
{
    match build_regex(expr, case_insensitive, dot_all) {
        Ok(re) => Ok(re),
        Err(e) => Err(VariableCompilationError::Regex(e)),
    }
}

/// The text of the regex searched for a `wide` regex variable `expr`: its
/// wide form, or, with `ascii` too, a regex of either form.
pub open spec fn spec_wide_text(expr: Seq<char>, ascii: bool) -> Seq<u8> {
    let w = spec_widen(encode_utf8(expr)).0;
    if ascii {
        spec_either(encode_utf8(expr), w)
    } else {
        w
    }
}

/// Whether the regex as written must check the word boundaries of the
/// matches of a `wide` regex variable: its wide form dropped some.
pub open spec fn spec_has_boundaries(expr: Seq<char>) -> bool {
    spec_widen(encode_utf8(expr)).1
}

/// The source of the regex searched for a regex variable with the flags
/// `flags`: the regex as written, or for a `wide` one, its wide text.
pub open spec fn spec_regex_source(expr: Seq<char>, ci: bool, dot_all: bool, flags: VariableFlags) -> RegexSource {
    if flags.wide {
        (decode_utf8(spec_wide_text(expr, flags.ascii)), ci, dot_all)
    } else {
        (expr, ci, dot_all)
    }
}

/// The regex that checks the word boundaries of the matches: the regex as
/// written, for a `wide` regex whose wide form dropped word boundaries.
pub open spec fn spec_regex_non_wide(expr: Seq<char>, ci: bool, dot_all: bool, flags: VariableFlags) -> Option<RegexSource> {
    if flags.wide && spec_has_boundaries(expr) {
        Some((expr, ci, dot_all))
    } else {
        None
    }
}

/// Whether a regex variable compiles: its regex builds; for a `wide` one,
/// its wide text is valid UTF-8 and its regex builds, and so does the regex
/// as written when it checks word boundaries.
pub open spec fn spec_regex_compiles(expr: Seq<char>, ci: bool, dot_all: bool, flags: VariableFlags) -> bool {
    if flags.wide {
        &&& valid_utf8(spec_wide_text(expr, flags.ascii))
        &&& regex_builds(spec_regex_source(expr, ci, dot_all, flags))
        &&& spec_has_boundaries(expr) ==> regex_builds((expr, ci, dot_all))
    } else {
        regex_builds((expr, ci, dot_all))
    }
}

/// Whether `e` is the error of the compilation of a regex variable that
/// does not compile: a widen error when the wide text is not valid UTF-8,
/// else the message of the first regex that does not build.
pub open spec fn spec_regex_error(
    expr: Seq<char>,
    ci: bool,
    dot_all: bool,
    flags: VariableFlags,
    e: VariableCompilationError,
) -> bool {
    if flags.wide && !valid_utf8(spec_wide_text(expr, flags.ascii)) {
        e is WidenError
    } else if !regex_builds(spec_regex_source(expr, ci, dot_all, flags)) {
        e matches VariableCompilationError::Regex(m) && m@ == regex_error_message(
            spec_regex_source(expr, ci, dot_all, flags),
        )
    } else {
        e matches VariableCompilationError::Regex(m) && m@ == regex_error_message(
            (expr, ci, dot_all),
        )
    }
}

/// Compile a regex variable: its matches are searched with its regex on its
/// own. A `wide` regex is searched with its wide form (or either form with
/// `ascii`), and, where word boundaries had to be dropped from it, its
/// matches are checked with the regex as written.
pub fn compile_regex(expr: &str, case_insensitive: bool, dot_all: bool, flags: VariableFlags) -> (r:
    Result<CompiledVariable, VariableCompilationError>)
    ensures
        r is Ok <==> spec_regex_compiles(expr@, case_insensitive, dot_all, flags),
        match r {
            Ok(c) => {
                &&& c.literals@.len() == 0
                &&& c.matcher_type matches MatcherType::Raw(re) && re@ == spec_regex_source(
                    expr@,
                    case_insensitive,
                    dot_all,
                    flags,
                )
                &&& opt_regex_source(c.non_wide_regex) == spec_regex_non_wide(
                    expr@,
                    case_insensitive,
                    dot_all,
                    flags,
                )
            },
            Err(e) => spec_regex_error(expr@, case_insensitive, dot_all, flags, e),
        },
{
    if !flags.wide {
        let regex = match compile_regex_expr(expr, case_insensitive, dot_all) {
            Ok(re) => re,
            Err(e) => {
                return Err(e);
            },
        };
        return Ok(
            CompiledVariable {
                literals: Vec::new(),
                matcher_type: MatcherType::Raw(regex),
                non_wide_regex: None,
            },
        );
    }
    let bytes = expr.as_bytes();
    let (w, boundary) = widen(bytes);
    let text_bytes = if flags.ascii {
        either(bytes, w.as_slice())
    } else {
        w
    };
    let text = match string_from_utf8(text_bytes) {
        Some(t) => t,
        None => {
            return Err(VariableCompilationError::WidenError);
        },
    };
    let regex = match compile_regex_expr(text.as_str(), case_insensitive, dot_all) {
        Ok(re) => re,
        Err(e) => {
            return Err(e);
        },
    };
    let non_wide_regex = if boundary {
        match compile_regex_expr(expr, case_insensitive, dot_all) {
            Ok(re) => Some(re),
            Err(e) => {
                return Err(e);
            },
        }
    } else {
        None
    };
    Ok(CompiledVariable { literals: Vec::new(), matcher_type: MatcherType::Raw(regex), non_wide_regex })
}

/// Whether the declared value of a variable is not too long to be compiled.
pub open spec fn declaration_fits(decl: VariableDeclaration) -> bool {
    &&& decl.value matches VariableDeclarationValue::Bytes(s) ==> 16 * s@.len() + 16 <= usize::MAX
    &&& valid_alphabet(decl.modifiers)
}

/// Whether a variable declaration compiles: always for a text string; for a
/// regex, when it is not `wide` and the regex builds; for a hex string, when
/// it is made of bytes only or its regex builds.
pub open spec fn spec_variable_compiles(decl: VariableDeclaration) -> bool {
    match decl.value {
        VariableDeclarationValue::Bytes(_) => true,
        VariableDeclarationValue::Regex { expr, case_insensitive, dot_all } => spec_regex_compiles(
            expr@,
            case_insensitive,
            dot_all,
            spec_compiled_flags(decl),
        ),
        VariableDeclarationValue::HexString(h) => spec_hex_literal(h@) is Some || regex_builds(
            (decode_utf8(spec_hex_regex(h@)), false, true),
        ),
    }
}

/// Whether `v` is the compiled form of the declaration `decl`.
pub open spec fn spec_variable_compiled(decl: VariableDeclaration, v: Variable) -> bool {
    &&& v.name == decl.name
    &&& v.flags == spec_compiled_flags(decl)
    &&& v.is_private == decl.modifiers.flags.private
    &&& !(decl.value is Regex) ==> v.non_wide_regex is None
    &&& match decl.value {
        VariableDeclarationValue::Bytes(s) => {
            &&& literals_view(v.literals@) == spec_bytes_literals(
                s@,
                VariableModifiers { flags: spec_compiled_flags(decl), ..decl.modifiers },
            )
            &&& v.matcher_type is Literals
        },
        VariableDeclarationValue::Regex { expr, case_insensitive, dot_all } => {
            &&& v.literals@.len() == 0
            &&& v.matcher_view() == MatcherKind::Raw(
                spec_regex_source(expr@, case_insensitive, dot_all, spec_compiled_flags(decl)),
            )
            &&& v.non_wide_regex_view() == spec_regex_non_wide(
                expr@,
                case_insensitive,
                dot_all,
                spec_compiled_flags(decl),
            )
        },
        VariableDeclarationValue::HexString(h) => match spec_hex_literal(h@) {
            Some(l) => {
                &&& literals_view(v.literals@) == seq![l]
                &&& v.matcher_type is Literals
            },
            None => {
                &&& v.literals@.len() == 0
                &&& v.matcher_view() == MatcherKind::Raw(
                    (decode_utf8(spec_hex_regex(h@)), false, true),
                )
            },
        },
    }
}

/// Whether `e` is the error of the compilation of the declaration `decl`:
/// a `wide` regex gives a widen error, a regex that does not build a regex
/// error.
pub open spec fn spec_variable_error(decl: VariableDeclaration, e: CompilationError) -> bool {
    match e {
        CompilationError::VariableCompilation { variable_name, span, error } => {
            &&& variable_name == decl.name
            &&& span == decl.span
            &&& match decl.value {
                VariableDeclarationValue::Bytes(_) => false,
                VariableDeclarationValue::Regex { expr, case_insensitive, dot_all } => spec_regex_error(
                    expr@,
                    case_insensitive,
                    dot_all,
                    spec_compiled_flags(decl),
                    error,
                ),
                VariableDeclarationValue::HexString(h) => error matches VariableCompilationError::Regex(
                    m,
                ) && m@ == regex_error_message((decode_utf8(spec_hex_regex(h@)), false, true)),
            }
        },
        _ => false,
    }
}

/// Compile a variable declaration.
///
/// A text string gives the literals of its modifiers; a regex is searched on
/// its own; a hex string made of bytes only is searched as one literal,
/// another one by its regex, with `.` matching every byte. `fullword` and
/// `wide` do not apply to a hex string. A `wide` regex is searched by its
/// wide form, see [`compile_regex`]. A regex that cannot be built gives a
/// [`CompilationError::VariableCompilation`] error.
pub fn compile_variable(decl: VariableDeclaration) -> (r: Result<Variable, CompilationError>)
    requires
        declaration_fits(decl),
    ensures
        r is Ok <==> spec_variable_compiles(decl),
        match r {
            Ok(v) => spec_variable_compiled(decl, v),
            Err(e) => spec_variable_error(decl, e),
        },
{
    let ghost d = decl;
    let VariableDeclaration { name, value, modifiers, span } = decl;
    let mut modifiers = modifiers;
    if !modifiers.flags.wide {
        modifiers.flags.ascii = true;
    }
    let compiled = match value {
        VariableDeclarationValue::Bytes(s) => Ok(compile_bytes(s, &modifiers)),
        VariableDeclarationValue::Regex { expr, case_insensitive, dot_all } => {
            if case_insensitive {
                modifiers.flags.nocase = true;
            }
            compile_regex(expr.as_str(), case_insensitive, dot_all, modifiers.flags)
        },
        VariableDeclarationValue::HexString(tokens) => {
            modifiers.flags.fullword = false;
            modifiers.flags.wide = false;
            match hex_string_literal(&tokens) {
                Some(lit) => {
                    let mut literals: Vec<Vec<u8>> = Vec::new();
                    literals.push(lit);
                    assert(literals_view(literals@) =~= seq![literals@[0]@]);
                    Ok(
                        CompiledVariable {
                            literals,
                            matcher_type: MatcherType::Literals,
                            non_wide_regex: None,
                        },
                    )
                },
                None => {
                    let expr = hex_string_regex(&tokens);
                    compile_regex(expr.as_str(), false, true, modifiers.flags)
                },
            }
        },
    };
    match compiled {
        Ok(c) => Ok(
            Variable {
                name,
                is_private: modifiers.flags.private,
                literals: c.literals,
                flags: modifiers.flags,
                matcher_type: c.matcher_type,
                non_wide_regex: c.non_wide_regex,
            },
        ),
        Err(error) => Err(CompilationError::VariableCompilation { variable_name: name, span, error }),
    }
}

/// Check the match `start..end` respects a possible fullword modifier for the
/// variable.
pub fn check_fullword(mem: &[u8], start: usize, end: usize, flags: VariableFlags) -> (r: bool)
    requires
        start <= end <= mem@.len(),
    ensures
        r == spec_check_fullword(mem@, start as int, end as int, flags),
{
    let mut match_is_wide = false;
    if flags.wide {
        match_is_wide = is_match_wide(start, end, mem);
        if match_is_wide {
            if start > 1 && mem[start - 1] == 0 && is_ascii_alnum(mem[start - 2]) {
                return false;
            }
            if mem.len() > 0 && end < mem.len() - 1 && is_ascii_alnum(mem[end]) && mem[end + 1] == 0 {
                return false;
            }
        }
    }
    if flags.ascii && !match_is_wide {
        if start > 0 && is_ascii_alnum(mem[start - 1]) {
            return false;
        }
        if end < mem.len() && is_ascii_alnum(mem[end]) {
            return false;
        }
    }
    true
}

/// The start and end of the window of `mem` that is unwidened to check the
/// word boundaries of the wide match `start..end`.
pub fn wide_window(mem: &[u8], start: usize, end: usize) -> (r: (usize, usize))
    requires
        start <= end <= mem@.len(),
    ensures
        r.0 == spec_wide_window_start(start as int, mem@),
        r.1 == spec_wide_window_end(end as int, mem@),
        r.0 <= start <= end <= r.1 <= mem@.len(),
{
    let window_start = if start >= 2 && mem[start - 1] == 0 {
        start - 2
    } else {
        start
    };
    let window_end = if mem.len() - end < WIDE_BOUNDARY_LOOKAHEAD {
        mem.len()
    } else {
        end + WIDE_BOUNDARY_LOOKAHEAD
    };
    (window_start, window_end)
}

/// The match given by the regex match `found` on the unwidened window: the
/// regex match must start at `expected_start`, and the match, starting at
/// `start`, gets twice the length of the regex match.
pub fn wide_boundary_result(start: usize, found: Option<(usize, usize)>, expected_start: usize) -> (r:
    Option<Range<usize>>)
    requires
        found matches Some((ms, me)) ==> (ms == expected_start ==> ms <= me && start + 2 * (me
            - ms) <= usize::MAX),
    ensures
        opt_range_pair(r) == spec_wide_boundary_result(start as int, found, expected_start as int),
{
    match found {
        Some((ms, me)) => {
            if ms == expected_start {
                Some(start..start + 2 * (me - ms))
            } else {
                None
            }
        },
        None => None,
    }
}

/// The unwidened form of a byte string is at most half as long.
pub proof fn lemma_unwide_len(m: Seq<u8>)
    ensures
        2 * spec_unwide(m).len() <= m.len(),
    decreases m.len(),
{
    if m.len() >= 2 && m[1] == 0 {
        lemma_unwide_len(m.subrange(2, m.len() as int));
    }
}

/// Check the wide match `start..end` respects the word boundaries inside the
/// variable, with `regex` the non wide form of its regex.
pub fn apply_wide_word_boundaries(start: usize, end: usize, mem: &[u8], regex: &CompiledRegex) -> (r:
    Option<Range<usize>>)
    requires
        start <= end <= mem@.len(),
    ensures
        opt_range_pair(r) == spec_apply_wide_word_boundaries(
            start as int,
            end as int,
            mem@,
            regex@,
        ),
        r matches Some(m) ==> start == m.start <= m.end <= mem@.len(),
{
    if !is_match_wide(start, end, mem) {
        return Some(start..end);
    }
    let (window_start, window_end) = wide_window(mem, start, end);
    let window = unwide(&mem[window_start..window_end]);
    let expected_start: usize = if window_start < start {
        1
    } else {
        0
    };
    let found = regex.find(window.as_slice());
    proof {
        lemma_unwide_len(mem@.subrange(window_start as int, window_end as int));
        if let Some((ms, me)) = found {
            if ms == expected_start {
                assert(start + 2 * (me - ms) <= window_end);
            }
        }
    }
    wide_boundary_result(start, found, expected_start)
}

/// Byte-wise equality of two byte strings, ignoring ascii case.
pub fn eq_ignore_ascii_case(a: &[u8], b: &[u8]) -> (r: bool)
    ensures
        r == spec_eq_ignore_ascii_case(a@, b@),
{
    if a.len() != b.len() {
        return false;
    }
    let mut i: usize = 0;
    while i < a.len()
        invariant
            a@.len() == b@.len(),
            i <= a@.len(),
            forall|j: int| 0 <= j < i ==> spec_ascii_lower(a@[j]) == spec_ascii_lower(b@[j]),
        decreases a@.len() - i,
    {
        let x = if 0x41 <= a[i] && a[i] <= 0x5a {
            a[i] + 0x20
        } else {
            a[i]
        };
        let y = if 0x41 <= b[i] && b[i] <= 0x5a {
            b[i] + 0x20
        } else {
            b[i]
        };
        if x != y {
            return false;
        }
        i = i + 1;
    }
    true
}

/// Byte-wise equality of two byte strings.
pub fn bytes_eq(a: &[u8], b: &[u8]) -> (r: bool)
    ensures
        r == (a@ == b@),
{
    if a.len() != b.len() {
        return false;
    }
    let mut i: usize = 0;
    while i < a.len()
        invariant
            a@.len() == b@.len(),
            i <= a@.len(),
            forall|j: int| 0 <= j < i ==> a@[j] == b@[j],
        decreases a@.len() - i,
    {
        if a[i] != b[i] {
            return false;
        }
        i = i + 1;
    }
    assert(a@ =~= b@);
    true
}

impl Variable {
    /// The source of the non wide regex of the variable, if any.
    pub open spec fn non_wide_regex_view(&self) -> Option<RegexSource> {
        opt_regex_source(self.non_wide_regex)
    }

    /// How the matches of the variable are found.
    pub open spec fn matcher_view(&self) -> MatcherKind {
        match self.matcher_type {
            MatcherType::Literals => MatcherKind::Literals,
            MatcherType::Atomized { left_validator, right_validator } => MatcherKind::Atomized {
                left: opt_regex_source(left_validator),
                right: opt_regex_source(right_validator),
            },
            MatcherType::Raw(r) => MatcherKind::Raw(r@),
        }
    }

    /// Build a variable from its parts.
    pub(crate) fn from_parts(
        name: String,
        is_private: bool,
        literals: Vec<Vec<u8>>,
        flags: VariableFlags,
        matcher_type: MatcherType,
        non_wide_regex: Option<CompiledRegex>,
    ) -> (r: Variable)
        ensures
            r.name == name,
            r.is_private == is_private,
            r.literals == literals,
            r.flags == flags,
            r.non_wide_regex_view() == opt_regex_source(non_wide_regex),
    {
        Variable { name, is_private, literals, flags, matcher_type, non_wide_regex }
    }

    /// Confirm that a literal match is a match on the given literal.
    ///
    /// This is needed because the literal pass is case insensitive and may
    /// report false positive matches. This checks the tentative match
    /// `mat` does match the literal with the given index, ignoring ascii case
    /// only for a `nocase` variable.
    pub fn confirm_ac_literal(&self, mem: &[u8], mat: &Range<usize>, literal_index: usize) -> (r:
        bool)
        requires
            literal_index < self.literals@.len(),
            mat.start <= mat.end <= mem@.len(),
        ensures
            r == if self.flags.nocase {
                spec_eq_ignore_ascii_case(
                    self.literals@[literal_index as int]@,
                    mem@.subrange(mat.start as int, mat.end as int),
                )
            } else {
                self.literals@[literal_index as int]@ == mem@.subrange(
                    mat.start as int,
                    mat.end as int,
                )
            },
    {
        let literal = &self.literals[literal_index];
        let window = &mem[mat.start..mat.end];
        if self.flags.nocase {
            if !eq_ignore_ascii_case(literal.as_slice(), window) {
                return false;
            }
        } else if !bytes_eq(literal.as_slice(), window) {
            return false;
        }
        true
    }

    /// Validate a match `mat` of the variable: check a possible fullword
    /// modifier, and the word boundaries of a wide regex. Returns the
    /// possibly shortened match.
    pub fn validate_and_update_match(&self, mem: &[u8], mat: Range<usize>) -> (r: Option<
        Range<usize>,
    >)
        requires
            mat.start <= mat.end <= mem@.len(),
        ensures
            opt_range_pair(r) == spec_validate(
                self.flags,
                self.non_wide_regex_view(),
                mem@,
                mat.start as int,
                mat.end as int,
            ),
            r matches Some(m) ==> mat.start == m.start <= m.end <= mem@.len(),
    {
        if self.flags.fullword && !check_fullword(mem, mat.start, mat.end, self.flags) {
            return None;
        }
        match &self.non_wide_regex {
            Some(regex) => apply_wide_word_boundaries(mat.start, mat.end, mem, regex),
            None => Some(mat),
        }
    }

    /// The matches confirmed by the left validator `validator` between
    /// `start_position` and `mat_end`, each candidate ending at `end`.
    fn left_validator_matches(
        &self,
        validator: &CompiledRegex,
        mem: &[u8],
        mat_end: usize,
        end: usize,
        start_position: usize,
    ) -> (r: Vec<Range<usize>>)
        requires
            mat_end <= mem@.len(),
            end <= mem@.len(),
        ensures
            r@.map_values(|m: Range<usize>| range_pair(m)) == spec_left_matches(
                self.flags,
                self.non_wide_regex_view(),
                validator@,
                mem@,
                mat_end as int,
                end as int,
                start_position as int,
            ),
            forall|i: int| #![trigger r@[i]] 0 <= i < r@.len() ==> r@[i].start <= r@[i].end <= mem@.len(),
            forall|i: int| #![trigger r@[i]] 0 <= i < r@.len() ==> start_position <= r@[i].start <= mat_end,
            forall|i: int, j: int| #![trigger r@[i], r@[j]] 0 <= i < j < r@.len() ==> r@[i].start < r@[j].start,
    {
        let ghost flags = self.flags;
        let ghost nwr = self.non_wide_regex_view();
        let ghost total = spec_left_matches(
            flags,
            nwr,
            validator@,
            mem@,
            mat_end as int,
            end as int,
            start_position as int,
        );
        let mut matches: Vec<Range<usize>> = Vec::new();
        let mut position = start_position;
        let mut done = false;
        while !done && position <= mat_end
            invariant
                mat_end <= mem@.len(),
                end <= mem@.len(),
                flags == self.flags,
                nwr == self.non_wide_regex_view(),
                forall|i: int| 0 <= i < matches@.len() ==> #[trigger] matches@[i].start <= matches@[i].end <= mem@.len(),
                start_position <= position,
                forall|i: int| #![trigger matches@[i]] 0 <= i < matches@.len() ==> start_position <= matches@[i].start <= mat_end
                    && (!done ==> matches@[i].start < position),
                forall|i: int, j: int| #![trigger matches@[i], matches@[j]] 0 <= i < j < matches@.len() ==> matches@[i].start < matches@[j].start,
                total == matches@.map_values(|m: Range<usize>| range_pair(m)) + if done {
                    Seq::<(int, int)>::empty()
                } else {
                    spec_left_matches(
                        flags,
                        nwr,
                        validator@,
                        mem@,
                        mat_end as int,
                        end as int,
                        position as int,
                    )
                },
            decreases mat_end + 1 - position, if done { 0int } else { 1int },
        {
            let found = validator.find(&mem[position..mat_end]);
            match found {
                None => {
                    done = true;
                    assert(matches@.map_values(|m: Range<usize>| range_pair(m)) + Seq::<
                        (int, int),
                    >::empty() =~= matches@.map_values(|m: Range<usize>| range_pair(m)));
                },
                Some((ms, _me)) => {
                    let st = ms + position;
                    let ghost old_view = matches@.map_values(|m: Range<usize>| range_pair(m));
                    let ghost rest = if st <= mat_end {
                        spec_left_matches(
                            flags,
                            nwr,
                            validator@,
                            mem@,
                            mat_end as int,
                            end as int,
                            st + 1,
                        )
                    } else {
                        Seq::empty()
                    };
                    if st <= end {
                        match self.validate_and_update_match(mem, st..end) {
                            Some(m) => {
                                matches.push(m);
                                assert(matches@.map_values(|m: Range<usize>| range_pair(m))
                                    =~= old_view.push(range_pair(m)));
                                assert(old_view.push(range_pair(m)) + rest =~= old_view + (seq![
                                    range_pair(m),
                                ] + rest));
                            },
                            None => {},
                        }
                    }
                    if st < mat_end {
                        position = st + 1;
                    } else {
                        done = true;
                        assert(matches@.map_values(|m: Range<usize>| range_pair(m)) + Seq::<
                            (int, int),
                        >::empty() =~= matches@.map_values(|m: Range<usize>| range_pair(m)));
                    }
                },
            }
        }
        if !done {
            assert(matches@.map_values(|m: Range<usize>| range_pair(m)) + Seq::<
                (int, int),
            >::empty() =~= matches@.map_values(|m: Range<usize>| range_pair(m)));
        }
        matches
    }

    /// Process a literal match `mat` of the variable.
    ///
    /// For a variable entirely covered by its literals, the match is
    /// validated. For an atomized regex, the right validator extends the match
    /// to its end, and the left validator finds its possible starts, searched
    /// from `start_position` on. A raw regex gives an unknown status: the
    /// variable must be searched on its own.
    pub fn process_ac_match(&self, mem: &[u8], mat: Range<usize>, start_position: usize) -> (r:
        AcMatchStatus)
        requires
            mat.start <= mat.end <= mem@.len(),
        ensures
            r@ == spec_process_ac_match(
                self.flags,
                self.non_wide_regex_view(),
                self.matcher_view(),
                mem@,
                mat.start as int,
                mat.end as int,
                start_position as int,
            ),
            r matches AcMatchStatus::Single(m) ==> mat.start == m.start <= m.end <= mem@.len(),
            r matches AcMatchStatus::Multiple(v) ==> forall|i: int| #![trigger v@[i]]
                0 <= i < v@.len() ==> v@[i].start <= v@[i].end <= mem@.len(),
            r matches AcMatchStatus::Multiple(v) ==> forall|i: int| #![trigger v@[i]]
                0 <= i < v@.len() ==> start_position <= v@[i].start <= mat.end,
            r matches AcMatchStatus::Multiple(v) ==> forall|i: int, j: int| #![trigger v@[i], v@[j]]
                0 <= i < j < v@.len() ==> v@[i].start < v@[j].start,
    {
        match &self.matcher_type {
            MatcherType::Literals => match self.validate_and_update_match(mem, mat) {
                Some(m) => AcMatchStatus::Single(m),
                None => AcMatchStatus::NoMatch,
            },
            MatcherType::Atomized { left_validator, right_validator } => {
                let end = match right_validator {
                    Some(validator) => match validator.find(&mem[mat.start..mem.len()]) {
                        Some((_ms, me)) => mat.start + me,
                        None => {
                            return AcMatchStatus::NoMatch;
                        },
                    },
                    None => mat.end,
                };
                match left_validator {
                    None => match self.validate_and_update_match(mem, mat.start..end) {
                        Some(m) => AcMatchStatus::Single(m),
                        None => AcMatchStatus::NoMatch,
                    },
                    Some(validator) => {
                        let matches = self.left_validator_matches(
                            validator,
                            mem,
                            mat.end,
                            end,
                            start_position,
                        );
                        AcMatchStatus::Multiple(matches)
                    },
                }
            },
            MatcherType::Raw(_) => AcMatchStatus::Unknown,
        }
    }

    /// Find the next match of a raw regex variable at or after `offset`.
    ///
    /// Variables whose matches are found from their literals have no raw
    /// regex, and get no match here.
    pub fn find_next_match_at(&self, mem: &[u8], offset: usize) -> (r: Option<Range<usize>>)
        ensures
            opt_range_pair(r) == match self.matcher_view() {
                MatcherKind::Raw(re) => spec_find_next_match_at(
                    self.flags,
                    self.non_wide_regex_view(),
                    re,
                    mem@,
                    offset as int,
                ),
                _ => None,
            },
            r matches Some(m) ==> offset <= m.start <= m.end <= mem@.len(),
    {
        let regex = match &self.matcher_type {
            MatcherType::Raw(r) => r,
            _ => {
                return None;
            },
        };
        let ghost total = spec_find_next_match_at(
            self.flags,
            self.non_wide_regex_view(),
            regex@,
            mem@,
            offset as int,
        );
        assert(self.matcher_view() == MatcherKind::Raw(regex@));
        let mut pos = offset;
        while pos < mem.len()
            invariant
                offset <= pos,
                self.matcher_view() == MatcherKind::Raw(regex@),
                total == spec_find_next_match_at(
                    self.flags,
                    self.non_wide_regex_view(),
                    regex@,
                    mem@,
                    offset as int,
                ),
                total == spec_find_next_match_at(
                    self.flags,
                    self.non_wide_regex_view(),
                    regex@,
                    mem@,
                    pos as int,
                ),
            decreases mem@.len() - pos,
        {
            let found = regex.find_at(mem, pos);
            assert(total == match found {
                None => None,
                Some((ms, me)) => match spec_validate(
                    self.flags,
                    self.non_wide_regex_view(),
                    mem@,
                    ms as int,
                    me as int,
                ) {
                    Some(m) => Some(m),
                    None => if ms < mem@.len() {
                        spec_find_next_match_at(
                            self.flags,
                            self.non_wide_regex_view(),
                            regex@,
                            mem@,
                            ms + 1,
                        )
                    } else {
                        None
                    },
                },
            });
            match found {
                None => {
                    return None;
                },
                Some((ms, me)) => {
                    match self.validate_and_update_match(mem, ms..me) {
                        Some(m) => {
                            return Some(m);
                        },
                        None => {
                            if ms >= mem.len() {
                                return None;
                            }
                            pos = ms + 1;
                        },
                    }
                },
            }
        }
        None
    }
}

} // verus!

verus! {

/// A validated match keeps its start: validation only checks it, and
/// may move its end.
pub proof fn lemma_validate_start(flags: VariableFlags, nwr: Option<RegexSource>, mem: Seq<u8>, s: int, e: int)
    ensures
        spec_validate(flags, nwr, mem, s, e) matches Some(m) ==> m.0 == s,
{
}

/// A `fullword` match is a whole word: a candidate `s..e` of a variable
/// searched as ascii, preceded or followed by an ascii letter or digit, is
/// rejected; one that is wide, preceded or followed by a wide letter or
/// digit, is rejected too.
pub proof fn lemma_fullword_rejects_word_neighbours(
    flags: VariableFlags,
    nwr: Option<RegexSource>,
    mem: Seq<u8>,
    s: int,
    e: int,
)
    requires
        flags.fullword,
        0 <= s <= e <= mem.len(),
        spec_validate(flags, nwr, mem, s, e) is Some,
    ensures
        flags.ascii && !(flags.wide && spec_is_match_wide(s, e, mem)) ==> {
            &&& !(s > 0 && spec_is_ascii_alnum(mem[s - 1]))
            &&& !(e < mem.len() && spec_is_ascii_alnum(mem[e]))
        },
        flags.wide && spec_is_match_wide(s, e, mem) ==> {
            &&& !(s > 1 && mem[s - 1] == 0 && spec_is_ascii_alnum(mem[s - 2]))
            &&& !(e + 1 < mem.len() && spec_is_ascii_alnum(mem[e]) && mem[e + 1] == 0)
        },
{
}

/// The match that the search of a raw regex finds from `offset` is the
/// validation of a match of the regex found at or after `offset`, and it
/// starts where that match starts.
pub proof fn lemma_find_next_match_at_is_validated(
    flags: VariableFlags,
    nwr: Option<RegexSource>,
    re: RegexSource,
    mem: Seq<u8>,
    offset: int,
)
    ensures
        spec_find_next_match_at(flags, nwr, re, mem, offset) matches Some(m) ==> exists|o: int|
            #![trigger regex_find_at(re, mem, o as usize)]
            offset <= o < mem.len() && (regex_find_at(re, mem, o as usize) matches Some(
                (ms, me),
            ) && o <= ms && m.0 == ms && spec_validate(flags, nwr, mem, ms as int, me as int)
                == Some(m)),
    decreases mem.len() - offset,
{
    if 0 <= offset < mem.len() {
        if let Some((ms, me)) = regex_find_at(re, mem, offset as usize) {
            if ms >= offset {
                lemma_validate_start(flags, nwr, mem, ms as int, me as int);
                if spec_validate(flags, nwr, mem, ms as int, me as int) is None && ms < mem.len() {
                    lemma_find_next_match_at_is_validated(flags, nwr, re, mem, ms + 1);
                }
            }
        }
    }
}

/// The matches that a left validator gives are validated candidates whose
/// starts lie between `position` and `mat_end`, in increasing order, each
/// ending where its validation says.
pub proof fn lemma_left_matches_are_validated(
    flags: VariableFlags,
    nwr: Option<RegexSource>,
    left: RegexSource,
    mem: Seq<u8>,
    mat_end: int,
    end: int,
    position: int,
)
    ensures
        forall|k: int|
            #![trigger spec_left_matches(flags, nwr, left, mem, mat_end, end, position)[k]]
            0 <= k < spec_left_matches(flags, nwr, left, mem, mat_end, end, position).len() ==> {
                let m = spec_left_matches(flags, nwr, left, mem, mat_end, end, position)[k];
                &&& position <= m.0 <= end
                &&& spec_validate(flags, nwr, mem, m.0, end) == Some(m)
            },
        forall|k: int, l: int|
            #![trigger spec_left_matches(flags, nwr, left, mem, mat_end, end, position)[k], spec_left_matches(flags, nwr, left, mem, mat_end, end, position)[l]]
            0 <= k < l < spec_left_matches(flags, nwr, left, mem, mat_end, end, position).len()
                ==> spec_left_matches(flags, nwr, left, mem, mat_end, end, position)[k].0
                < spec_left_matches(flags, nwr, left, mem, mat_end, end, position)[l].0,
    decreases mat_end + 1 - position,
{
    let r = spec_left_matches(flags, nwr, left, mem, mat_end, end, position);
    if !(position < 0 || position > mat_end || mat_end > mem.len()) {
        if let Some((ms, _me)) = regex_find(left, mem.subrange(position, mat_end)) {
            let st = ms + position;
            let rest = if st <= mat_end {
                spec_left_matches(flags, nwr, left, mem, mat_end, end, st + 1)
            } else {
                Seq::empty()
            };
            if st <= mat_end {
                lemma_left_matches_are_validated(flags, nwr, left, mem, mat_end, end, st + 1);
            }
            if st <= end {
                lemma_validate_start(flags, nwr, mem, st, end);
                match spec_validate(flags, nwr, mem, st, end) {
                    Some(m) => {
                        assert(r == seq![m] + rest);
                        assert forall|k: int| #![trigger r[k]] 0 <= k < r.len() implies position
                            <= r[k].0 <= end && spec_validate(flags, nwr, mem, r[k].0, end) == Some(
                            r[k],
                        ) by {
                            if k > 0 {
                                assert(r[k] == rest[k - 1]);
                            }
                        }
                        assert forall|k: int, l: int| #![trigger r[k], r[l]] 0 <= k < l < r.len()
                            implies r[k].0 < r[l].0 by {
                            assert(r[l] == rest[l - 1]);
                            if k > 0 {
                                assert(r[k] == rest[k - 1]);
                            }
                        }
                    },
                    None => {},
                }
            }
        }
    }
}

} // verus!
