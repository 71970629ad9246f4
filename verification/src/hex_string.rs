//! Hex strings: the bytes they stand for when they hold bytes only, and the
//! regex that matches them otherwise.
use vstd::prelude::*;
use vstd::utf8::decode_utf8;

use crate::declaration::HexToken;
use crate::lexer::ascii_string;

verus! {

/// The bytes of a hex string made of bytes only; `None` if it holds any
/// other token.
pub open spec fn spec_hex_literal(tokens: Seq<HexToken>) -> Option<Seq<u8>>
    decreases tokens.len(),
{
    if tokens.len() == 0 {
        Some(Seq::empty())
    } else {
        match (spec_hex_literal(tokens.drop_last()), tokens.last()) {
            (Some(l), HexToken::Byte(b)) => Some(l.push(b)),
            _ => None,
        }
    }
}

/// The lower case hexadecimal digit of a value below 16.
pub open spec fn hex_digit(n: u8) -> u8 {
    if n < 10 {
        (48 + n) as u8
    } else {
        (87 + n) as u8
    }
}

/// The regex escape of a byte: `\xHH`.
pub open spec fn spec_byte_escape(b: u8) -> Seq<u8> {
    seq![92u8, 120u8, hex_digit(b / 16), hex_digit(b % 16)]
}

/// The decimal digits of `n`.
pub open spec fn spec_decimal(n: nat) -> Seq<u8>
    decreases n,
{
    if n < 10 {
        seq![(48 + n) as u8]
    } else {
        spec_decimal(n / 10).push((48 + n % 10) as u8)
    }
}

/// The escapes of the 16 bytes whose low half is `low`, from high half `h`
/// on: the bytes of a `?B` mask.
pub open spec fn spec_low_class(h: nat, low: u8) -> Seq<u8>
    decreases 16 - h,
{
    if h >= 16 {
        Seq::empty()
    } else {
        spec_byte_escape((h * 16 + low) as u8) + spec_low_class(h + 1, low)
    }
}

/// The regex of one token: a byte is escaped; `??` is any byte; `A?` is the
/// range of the bytes of high half `A`; `?B` is the class of the bytes of
/// low half `B`; a jump repeats any byte; alternatives are a group.
pub open spec fn spec_token_regex(t: HexToken) -> Seq<u8> {
    match t {
        HexToken::Byte(b) => spec_byte_escape(b),
        HexToken::MaskedByte { value, mask } => if mask == 0 {
            seq![46u8]
        } else if mask == 0xF0 {
            seq![91u8] + spec_byte_escape(value & 0xF0) + seq![45u8] + spec_byte_escape(
                value | 0x0F,
            ) + seq![93u8]
        } else {
            seq![91u8] + spec_low_class(0, value & 0x0F) + seq![93u8]
        },
        HexToken::Jump { from, to } => seq![46u8, 123u8] + spec_decimal(from as nat) + seq![44u8]
            + match to {
            Some(t) => spec_decimal(t as nat),
            None => Seq::empty(),
        } + seq![125u8],
        HexToken::AlternativesStart => seq![40u8, 63u8, 58u8],
        HexToken::AlternativeSeparator => seq![124u8],
        HexToken::AlternativesEnd => seq![41u8],
    }
}

/// The regex of a hex string, as text: the regexes of its tokens in order.
pub open spec fn spec_hex_regex(tokens: Seq<HexToken>) -> Seq<u8>
    decreases tokens.len(),
{
    if tokens.len() == 0 {
        Seq::empty()
    } else {
        spec_hex_regex(tokens.drop_last()) + spec_token_regex(tokens.last())
    }
}

/// Whether every byte is ASCII.
pub open spec fn all_ascii(s: Seq<u8>) -> bool {
    forall|i: int| 0 <= i < s.len() ==> #[trigger] s[i] < 128
}

/// The bytes of a hex string made of bytes only, see [`spec_hex_literal`].
pub fn hex_string_literal(tokens: &Vec<HexToken>) -> (r: Option<Vec<u8>>)
    ensures
        match spec_hex_literal(tokens@) {
            Some(l) => r matches Some(v) && v@ == l,
            None => r is None,
        },
{
    let mut out: Vec<u8> = Vec::new();
    let mut i: usize = 0;
    while i < tokens.len()
        invariant
            i <= tokens@.len(),
            spec_hex_literal(tokens@.subrange(0, i as int)) == Some(out@),
        decreases tokens@.len() - i,
    {
        assert(tokens@.subrange(0, i + 1).drop_last() =~= tokens@.subrange(0, i as int));
        match tokens[i] {
            HexToken::Byte(b) => {
                out.push(b);
            },
            _ => {
                proof {
                    lemma_hex_literal_none(tokens@, i + 1);
                }
                return None;
            },
        }
        i = i + 1;
    }
    assert(tokens@.subrange(0, tokens@.len() as int) =~= tokens@);
    Some(out)
}

/// Lemma: a hex string with a token other than a byte in its first `n`
/// tokens has no bytes-only form.
proof fn lemma_hex_literal_none(tokens: Seq<HexToken>, n: int)
    requires
        0 < n <= tokens.len(),
        !(tokens[n - 1] is Byte),
    ensures
        spec_hex_literal(tokens) is None,
    decreases tokens.len(),
{
    if tokens.len() > n {
        assert(tokens.drop_last()[n - 1] == tokens[n - 1]);
        lemma_hex_literal_none(tokens.drop_last(), n);
    }
}

/// The lower case hexadecimal digit of a value below 16.
fn push_hex_digit(out: &mut Vec<u8>, n: u8)
    requires
        n < 16,
    ensures
        final(out)@ == old(out)@.push(hex_digit(n)),
{
    if n < 10 {
        out.push(48 + n);
    } else {
        out.push(87 + n);
    }
}

/// Push the escape of a byte, see [`spec_byte_escape`].
fn push_byte_escape(out: &mut Vec<u8>, b: u8)
    ensures
        final(out)@ == old(out)@ + spec_byte_escape(b),
{
    out.push(92);
    out.push(120);
    push_hex_digit(out, b / 16);
    push_hex_digit(out, b % 16);
    assert(final(out)@ =~= old(out)@ + spec_byte_escape(b));
}

/// Push the decimal digits of `n`, see [`spec_decimal`].
pub(crate) fn push_decimal(out: &mut Vec<u8>, n: u64)
    ensures
        final(out)@ == old(out)@ + spec_decimal(n as nat),
    decreases n,
{
    if n >= 10 {
        push_decimal(out, n / 10);
    }
    let d: u8 = (n % 10) as u8;
    out.push(48 + d);
    assert(final(out)@ =~= old(out)@ + spec_decimal(n as nat));
}

/// Push the regex of a token, see [`spec_token_regex`].
fn push_token_regex(out: &mut Vec<u8>, t: HexToken)
    ensures
        final(out)@ == old(out)@ + spec_token_regex(t),
{
    let ghost start = out@;
    match t {
        HexToken::Byte(b) => push_byte_escape(out, b),
        HexToken::MaskedByte { value, mask } => {
            if mask == 0 {
                out.push(46);
            } else if mask == 0xF0 {
                out.push(91);
                push_byte_escape(out, value & 0xF0);
                out.push(45);
                push_byte_escape(out, value | 0x0F);
                out.push(93);
            } else {
                out.push(91);
                let low = value & 0x0F;
                assert(value & 0x0F < 16) by (bit_vector);
                proof {
                    lemma_low_class(0, low, 0);
                }
                let mut h: u8 = 0;
                while h < 16
                    invariant
                        h <= 16,
                        low < 16,
                        out@ == start.push(91u8) + spec_low_class(0, low).subrange(
                            0,
                            4 * h as int,
                        ),
                    decreases 16 - h,
                {
                    proof {
                        lemma_low_class(0, low, h as nat);
                    }
                    push_byte_escape(out, h * 16 + low);
                    h = h + 1;
                    assert(out@ =~= start.push(91u8) + spec_low_class(0, low).subrange(
                        0,
                        4 * h as int,
                    ));
                }
                proof {
                    lemma_low_class(0, low, 16);
                }
                out.push(93);
            }
            assert(out@ =~= start + spec_token_regex(t));
        },
        HexToken::Jump { from, to } => {
            out.push(46);
            out.push(123);
            push_decimal(out, from as u64);
            out.push(44);
            match to {
                Some(n) => push_decimal(out, n as u64),
                None => {},
            }
            out.push(125);
            assert(out@ =~= start + spec_token_regex(t));
        },
        HexToken::AlternativesStart => {
            out.push(40);
            out.push(63);
            out.push(58);
            assert(out@ =~= start + spec_token_regex(t));
        },
        HexToken::AlternativeSeparator => {
            out.push(124);
            assert(out@ =~= start + spec_token_regex(t));
        },
        HexToken::AlternativesEnd => {
            out.push(41);
            assert(out@ =~= start + spec_token_regex(t));
        },
    }
}

/// Lemma: the escapes of a `?B` class, each four bytes long, in order.
proof fn lemma_low_class(from: nat, low: u8, h: nat)
    requires
        from <= h <= 16,
        low < 16,
    ensures
        spec_low_class(from, low).len() == 4 * (16 - from),
        h < 16 ==> spec_low_class(from, low).subrange(4 * (h - from), 4 * (h - from) + 4)
            == spec_byte_escape((h * 16 + low) as u8),
    decreases 16 - from,
{
    if from < 16 {
        lemma_low_class(from + 1, low, if h > from { h } else { from + 1 });
        let rest = spec_low_class(from + 1, low);
        let all = spec_low_class(from, low);
        assert(all == spec_byte_escape((from * 16 + low) as u8) + rest);
        if h < 16 {
            if h == from {
                assert(all.subrange(0, 4) =~= spec_byte_escape((from * 16 + low) as u8));
            } else {
                lemma_low_class(from + 1, low, h);
                assert(all.subrange(4 * (h - from), 4 * (h - from) + 4) =~= rest.subrange(
                    4 * (h - (from + 1)),
                    4 * (h - (from + 1)) + 4,
                ));
            }
        }
    }
}

/// The regex of a hex string, as text, see [`spec_hex_regex`].
pub fn hex_string_regex(tokens: &Vec<HexToken>) -> (r: String)
    ensures
        r@ == decode_utf8(spec_hex_regex(tokens@)),
{
    let mut out: Vec<u8> = Vec::new();
    let mut i: usize = 0;
    while i < tokens.len()
        invariant
            i <= tokens@.len(),
            out@ == spec_hex_regex(tokens@.subrange(0, i as int)),
        decreases tokens@.len() - i,
    {
        assert(tokens@.subrange(0, i + 1).drop_last() =~= tokens@.subrange(0, i as int));
        push_token_regex(&mut out, tokens[i]);
        i = i + 1;
    }
    assert(tokens@.subrange(0, tokens@.len() as int) =~= tokens@);
    proof {
        lemma_hex_regex_ascii(tokens@);
    }
    ascii_string(out)
}

/// Lemma: the regex of a hex string is ASCII.
proof fn lemma_hex_regex_ascii(tokens: Seq<HexToken>)
    ensures
        all_ascii(spec_hex_regex(tokens)),
    decreases tokens.len(),
{
    if tokens.len() > 0 {
        lemma_hex_regex_ascii(tokens.drop_last());
        lemma_token_regex_ascii(tokens.last());
        let a = spec_hex_regex(tokens.drop_last());
        let b = spec_token_regex(tokens.last());
        assert forall|i: int| 0 <= i < (a + b).len() implies #[trigger] (a + b)[i] < 128 by {
            if i >= a.len() {
                assert((a + b)[i] == b[i - a.len()]);
            }
        }
    }
}

/// Lemma: the regex of a token is ASCII.
proof fn lemma_token_regex_ascii(t: HexToken)
    ensures
        all_ascii(spec_token_regex(t)),
{
    match t {
        HexToken::MaskedByte { value, mask } => {
            if mask != 0 && mask != 0xF0 {
                lemma_low_class_ascii(0, value & 0x0F);
            }
        },
        HexToken::Jump { from, to } => {
            lemma_decimal_ascii(from as nat);
            if let Some(n) = to {
                lemma_decimal_ascii(n as nat);
            }
        },
        _ => {},
    }
    let r = spec_token_regex(t);
    assert forall|i: int| 0 <= i < r.len() implies #[trigger] r[i] < 128 by {
        if let HexToken::Jump { from, to } = t {
            let d = spec_decimal(from as nat);
            let tail = match to {
                Some(n) => spec_decimal(n as nat),
                None => Seq::empty(),
            };
            assert(r == seq![46u8, 123u8] + d + seq![44u8] + tail + seq![125u8]);
        }
    }
}

/// Lemma: decimal digits are ASCII.
pub(crate) proof fn lemma_decimal_ascii(n: nat)
    ensures
        all_ascii(spec_decimal(n)),
    decreases n,
{
    if n >= 10 {
        lemma_decimal_ascii(n / 10);
    }
}

/// Lemma: the escapes of a `?B` class are ASCII.
proof fn lemma_low_class_ascii(h: nat, low: u8)
    ensures
        all_ascii(spec_low_class(h, low)),
    decreases 16 - h,
{
    if h < 16 {
        lemma_low_class_ascii(h + 1, low);
        let a = spec_byte_escape((h * 16 + low) as u8);
        let b = spec_low_class(h + 1, low);
        assert forall|i: int| 0 <= i < (a + b).len() implies #[trigger] (a + b)[i] < 128 by {
            if i >= a.len() {
                assert((a + b)[i] == b[i - a.len()]);
            }
        }
    }
}

/// Whether `d` is a non-empty run of decimal digits.
pub open spec fn is_decimal_text(d: Seq<u8>) -> bool {
    d.len() > 0 && forall|i: int| 0 <= i < d.len() ==> 48 <= #[trigger] d[i] <= 57
}

/// The number written by the decimal digits `d`, most significant first.
pub open spec fn decimal_text_value(d: Seq<u8>) -> int
    decreases d.len(),
{
    if d.len() == 0 {
        0
    } else {
        decimal_text_value(d.drop_last()) * 10 + (d.last() - 48)
    }
}

/// The digits written for `n` are decimal digits that read back as `n`.
pub proof fn lemma_decimal_reads_back(n: nat)
    ensures
        is_decimal_text(spec_decimal(n)),
        decimal_text_value(spec_decimal(n)) == n,
    decreases n,
{
    let d = spec_decimal(n);
    if n < 10 {
        assert(d.drop_last() =~= Seq::<u8>::empty());
        assert(decimal_text_value(Seq::<u8>::empty()) == 0);
        assert(d.last() == (48 + n) as u8);
        assert(decimal_text_value(d) == decimal_text_value(d.drop_last()) * 10 + (d.last() - 48));
    } else {
        lemma_decimal_reads_back(n / 10);
        assert(d.drop_last() =~= spec_decimal(n / 10));
        assert(forall|i: int| 0 <= i < d.len() - 1 ==> d[i] == spec_decimal(n / 10)[i]);
        assert(d.last() == (48 + n % 10) as u8);
        assert(decimal_text_value(d) == decimal_text_value(d.drop_last()) * 10 + (d.last() - 48));
        assert((n / 10) * 10 + n % 10 == n);
    }
}

/// The regex of a jump `[from-to]` is a repetition of any byte, `.{m,n}`,
/// with `m` the decimal digits of `from` and `n` those of `to`; a jump
/// with no upper bound, `[from-]`, is `.{m,}`: at least `from` bytes, with
/// no upper bound.
pub proof fn lemma_jump_regex(from: u32, to: Option<u32>)
    ensures
        to is None ==> exists|m: Seq<u8>|
            #![trigger decimal_text_value(m)]
            is_decimal_text(m) && decimal_text_value(m) == from && spec_token_regex(
                HexToken::Jump { from, to },
            ) == seq![46u8, 123u8] + m + seq![44u8, 125u8],
        to matches Some(t) ==> exists|m: Seq<u8>, n: Seq<u8>|
            #![trigger decimal_text_value(m), decimal_text_value(n)]
            is_decimal_text(m) && decimal_text_value(m) == from && is_decimal_text(n)
                && decimal_text_value(n) == t && spec_token_regex(HexToken::Jump { from, to })
                == seq![46u8, 123u8] + m + seq![44u8] + n + seq![125u8],
{
    let m = spec_decimal(from as nat);
    lemma_decimal_reads_back(from as nat);
    match to {
        None => {
            assert(spec_token_regex(HexToken::Jump { from, to }) =~= seq![46u8, 123u8] + m + seq![
                44u8,
                125u8,
            ]);
        },
        Some(t) => {
            lemma_decimal_reads_back(t as nat);
            let n = spec_decimal(t as nat);
            assert(spec_token_regex(HexToken::Jump { from, to }) =~= seq![46u8, 123u8] + m + seq![
                44u8,
            ] + n + seq![125u8]);
        },
    }
}

/// The value of a lower case hexadecimal digit; -1 for another byte.
pub open spec fn hex_text_value(c: u8) -> int {
    if 48 <= c <= 57 {
        c - 48
    } else if 97 <= c <= 102 {
        c - 87
    } else {
        -1
    }
}

/// The escape of a byte is `\x` followed by two hexadecimal digits that
/// read back as the byte, the high half first.
pub proof fn lemma_byte_escape_reads_back(b: u8)
    ensures
        spec_byte_escape(b).len() == 4,
        spec_byte_escape(b)[0] == 92,
        spec_byte_escape(b)[1] == 120,
        0 <= hex_text_value(spec_byte_escape(b)[2]) < 16,
        0 <= hex_text_value(spec_byte_escape(b)[3]) < 16,
        hex_text_value(spec_byte_escape(b)[2]) * 16 + hex_text_value(spec_byte_escape(b)[3]) == b,
{
}

/// The `?B` class from high half `h` on holds, for each high half `j` from
/// `h` to 15, the escape of the byte of high half `j` and low half `low`.
proof fn lemma_low_class_entries(h: nat, low: u8)
    requires
        h <= 16,
    ensures
        spec_low_class(h, low).len() == 4 * (16 - h),
        forall|j: int|
            #![trigger spec_byte_escape((j * 16 + low) as u8)]
            h <= j < 16 ==> spec_low_class(h, low).subrange(4 * (j - h), 4 * (j - h) + 4)
                == spec_byte_escape((j * 16 + low) as u8),
    decreases 16 - h,
{
    if h < 16 {
        lemma_low_class_entries(h + 1, low);
        let first = spec_byte_escape((h * 16 + low) as u8);
        let rest = spec_low_class(h + 1, low);
        let c = spec_low_class(h, low);
        assert(c == first + rest);
        assert forall|j: int|
            #![trigger spec_byte_escape((j * 16 + low) as u8)]
            h <= j < 16 implies c.subrange(4 * (j - h), 4 * (j - h) + 4) == spec_byte_escape(
                (j * 16 + low) as u8,
            ) by {
            if j == h {
                assert(c.subrange(0, 4) =~= first);
            } else {
                assert(rest.subrange(4 * (j - h - 1), 4 * (j - h - 1) + 4) == spec_byte_escape(
                    (j * 16 + low) as u8,
                ));
                assert(c.subrange(4 * (j - h), 4 * (j - h) + 4) =~= rest.subrange(
                    4 * (j - h - 1),
                    4 * (j - h - 1) + 4,
                ));
            }
        }
    }
}

/// The regex of a masked byte matches the bytes that agree with it on the
/// given half: `??` is any byte, `.`; `A?` is the range `[\xA0-\xAF]`
/// from the byte of high half `A` and low half 0 to the one of low half
/// 15; `?B` is the class of the 16 bytes of low half `B`, one for each high
/// half, in increasing order.
pub proof fn lemma_masked_byte_regex(value: u8, mask: u8)
    ensures
        mask == 0 ==> spec_token_regex(HexToken::MaskedByte { value, mask }) == seq![46u8],
        mask == 0xF0 ==> exists|lo: u8, hi: u8|
            #![trigger spec_byte_escape(lo), spec_byte_escape(hi)]
            lo / 16 == value / 16 && lo % 16 == 0 && hi / 16 == value / 16 && hi % 16 == 15
                && spec_token_regex(HexToken::MaskedByte { value, mask }) == seq![91u8]
                + spec_byte_escape(lo) + seq![45u8] + spec_byte_escape(hi) + seq![93u8],
        mask != 0 && mask != 0xF0 ==> {
            let r = spec_token_regex(HexToken::MaskedByte { value, mask });
            &&& r.len() == 66
            &&& r[0] == 91
            &&& r[65] == 93
            &&& forall|b: u8|
                #![trigger spec_byte_escape(b)]
                b % 16 == value % 16 ==> r.subrange(1 + 4 * (b / 16), 5 + 4 * (b / 16))
                    == spec_byte_escape(b)
        },
{
    if mask == 0xF0 {
        let lo = value & 0xF0;
        let hi = value | 0x0F;
        assert(lo / 16 == value / 16 && lo % 16 == 0 && hi / 16 == value / 16 && hi % 16 == 15)
            by (bit_vector)
            requires
                lo == value & 0xF0,
                hi == value | 0x0F,
        ;
        assert(spec_token_regex(HexToken::MaskedByte { value, mask }) == seq![91u8]
            + spec_byte_escape(lo) + seq![45u8] + spec_byte_escape(hi) + seq![93u8]);
    } else if mask != 0 {
        let low = value & 0x0F;
        assert(low == value % 16) by (bit_vector)
            requires
                low == value & 0x0F,
        ;
        lemma_low_class_entries(0, low);
        let c = spec_low_class(0, low);
        let r = spec_token_regex(HexToken::MaskedByte { value, mask });
        assert(r == seq![91u8] + c + seq![93u8]);
        assert forall|b: u8|
            #![trigger spec_byte_escape(b)]
            b % 16 == value % 16 implies r.subrange(1 + 4 * (b / 16), 5 + 4 * (b / 16))
                == spec_byte_escape(b) by {
            let j: int = (b / 16) as int;
            assert(b == j * 16 + low);
            assert(c.subrange(4 * j, 4 * j + 4) == spec_byte_escape((j * 16 + low) as u8));
            assert(r.subrange(1 + 4 * j, 5 + 4 * j) =~= c.subrange(4 * j, 4 * j + 4));
        }
    }
}

} // verus!
