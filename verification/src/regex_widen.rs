//! The `wide` form of a regex: the regex of its matches with a nul byte
//! after every byte.
//!
//! The regex text is rewritten token by token: every atom (a byte, an
//! escape, `.`, a class) becomes `(?:atom\x00)`; groups, alternations,
//! repetitions and anchors are kept; word boundaries (`\b`, `\B`) cannot be
//! widened and are dropped, the matches being checked afterwards with the
//! regex as written.
use vstd::prelude::*;

verus! {

/// The text `\x00`, a nul byte in a regex.
pub open spec fn nul_escape() -> Seq<u8> {
    seq![92u8, 120u8, 48u8, 48u8]
}

/// An atom made wide: `(?:atom\x00)`.
pub open spec fn wrap(atom: Seq<u8>) -> Seq<u8> {
    seq![40u8, 63u8, 58u8] + atom + nul_escape() + seq![41u8]
}

/// The lower case hexadecimal digit of a value below 16.
pub open spec fn hex_char(n: u8) -> u8 {
    if n < 10 {
        (48 + n) as u8
    } else {
        (87 + n) as u8
    }
}

/// The escape `\xHH` of a byte.
pub open spec fn byte_escape(b: u8) -> Seq<u8> {
    seq![92u8, 120u8, hex_char(b / 16), hex_char(b % 16)]
}

/// The position after the first `c` at or after `j`, or the end.
pub open spec fn spec_until(s: Seq<u8>, j: int, c: u8) -> int
    decreases s.len() - j,
{
    if j < 0 || j >= s.len() {
        s.len() as int
    } else if s[j] == c {
        j + 1
    } else {
        spec_until(s, j + 1, c)
    }
}

/// The position after the `]` that closes a class, scanning from `j` with
/// `depth` nested classes open; the end if there is none.
pub open spec fn spec_class_end(s: Seq<u8>, j: int, depth: nat) -> int
    decreases s.len() - j,
{
    if j < 0 || j >= s.len() {
        s.len() as int
    } else if s[j] == 92 {
        if j + 1 < s.len() {
            spec_class_end(s, j + 2, depth)
        } else {
            s.len() as int
        }
    } else if s[j] == 91 {
        spec_class_end(s, j + 1, depth + 1)
    } else if s[j] == 93 {
        if depth == 0 {
            j + 1
        } else {
            spec_class_end(s, j + 1, (depth - 1) as nat)
        }
    } else {
        spec_class_end(s, j + 1, depth)
    }
}

/// Where the body of a class starting at `i` (its `[`) begins: after a
/// negation `^`, and after a `]` that is then a plain byte.
pub open spec fn spec_class_body(s: Seq<u8>, i: int) -> int {
    let j = if i + 1 < s.len() && s[i + 1] == 94 {
        i + 2
    } else {
        i + 1
    };
    if j < s.len() && s[j] == 93 {
        j + 1
    } else {
        j
    }
}

/// The end of the escape at `i` (its `\`), whose letter is `x`: `\x{...}`
/// or `\xHH`.
pub open spec fn spec_hex_escape_end(s: Seq<u8>, i: int) -> int {
    if i + 2 < s.len() && s[i + 2] == 123 {
        spec_until(s, i + 3, 125)
    } else if i + 4 <= s.len() {
        i + 4
    } else {
        s.len() as int
    }
}

/// Whether a byte is kept as it is: `)`, `|`, `^`, `$`, `*`, `+`, `?`.
pub open spec fn is_kept(c: u8) -> bool {
    c == 41 || c == 124 || c == 94 || c == 36 || c == 42 || c == 43 || c == 63
}

/// The wide form of the regex text `s` from `i` on, `acc` being the text
/// written before and `boundary` whether a word boundary was dropped before:
/// the whole wide text, and whether a word boundary was dropped.
pub open spec fn spec_widen_from(s: Seq<u8>, i: int, acc: Seq<u8>, boundary: bool) -> (Seq<u8>, bool)
    decreases s.len() - i,
{
    if i < 0 || i >= s.len() {
        (acc, boundary)
    } else {
        let c = s[i];
        if c == 92 {
            if i + 1 >= s.len() {
                (acc + s.subrange(i, s.len() as int), boundary)
            } else {
                let n = s[i + 1];
                if n == 98 || n == 66 {
                    spec_widen_from(s, i + 2, acc, true)
                } else if n == 65 || n == 122 {
                    spec_widen_from(s, i + 2, acc + s.subrange(i, i + 2), boundary)
                } else if n == 120 {
                    let e = spec_hex_escape_end(s, i);
                    if e <= i || e > s.len() {
                        (acc, boundary)
                    } else {
                        spec_widen_from(s, e, acc + wrap(s.subrange(i, e)), boundary)
                    }
                } else {
                    spec_widen_from(s, i + 2, acc + wrap(s.subrange(i, i + 2)), boundary)
                }
            }
        } else if c == 91 {
            let e = spec_class_end(s, spec_class_body(s, i), 0);
            if e <= i || e > s.len() {
                (acc, boundary)
            } else {
                spec_widen_from(s, e, acc + wrap(s.subrange(i, e)), boundary)
            }
        } else if c == 46 {
            spec_widen_from(s, i + 1, acc + wrap(seq![46u8]), boundary)
        } else if c == 40 {
            let e = if i + 1 < s.len() && s[i + 1] == 63 {
                let a = spec_until(s, i + 2, 58);
                let b = spec_until(s, i + 2, 41);
                let g = spec_until(s, i + 2, 62);
                let m1 = if a < b {
                    a
                } else {
                    b
                };
                if m1 < g {
                    m1
                } else {
                    g
                }
            } else {
                i + 1
            };
            if e <= i || e > s.len() {
                (acc, boundary)
            } else {
                spec_widen_from(s, e, acc + s.subrange(i, e), boundary)
            }
        } else if c == 123 {
            let e = spec_until(s, i + 1, 125);
            if e <= i || e > s.len() {
                (acc, boundary)
            } else {
                spec_widen_from(s, e, acc + s.subrange(i, e), boundary)
            }
        } else if is_kept(c) {
            spec_widen_from(s, i + 1, acc.push(c), boundary)
        } else {
            spec_widen_from(s, i + 1, acc + wrap(byte_escape(c)), boundary)
        }
    }
}

/// The wide form of the regex text `s`, and whether a word boundary was
/// dropped from it.
pub open spec fn spec_widen(s: Seq<u8>) -> (Seq<u8>, bool) {
    spec_widen_from(s, 0, Seq::empty(), false)
}

/// The text of a regex that matches the regex `s` or its wide form `w`:
/// `(?:s)|(?:w)`.
pub open spec fn spec_either(s: Seq<u8>, w: Seq<u8>) -> Seq<u8> {
    seq![40u8, 63u8, 58u8] + s + seq![41u8, 124u8, 40u8, 63u8, 58u8] + w + seq![41u8]
}

/// Lemma: the first `c` is found within the text.
proof fn lemma_until(s: Seq<u8>, j: int, c: u8)
    ensures
        j < s.len() ==> j < spec_until(s, j, c),
        spec_until(s, j, c) <= s.len(),
        0 <= j <= s.len() ==> j <= spec_until(s, j, c),
    decreases s.len() - j,
{
    if 0 <= j < s.len() && s[j] != c {
        lemma_until(s, j + 1, c);
    }
}

/// Lemma: the end of a class is within the text, after where it is looked
/// for.
proof fn lemma_class_end(s: Seq<u8>, j: int, depth: nat)
    ensures
        spec_class_end(s, j, depth) <= s.len(),
        0 <= j < s.len() ==> j < spec_class_end(s, j, depth),
    decreases s.len() - j,
{
    if 0 <= j < s.len() {
        if s[j] == 92 {
            if j + 1 < s.len() {
                lemma_class_end(s, j + 2, depth);
            }
        } else if s[j] == 91 {
            lemma_class_end(s, j + 1, depth + 1);
        } else if s[j] == 93 {
            if depth != 0 {
                lemma_class_end(s, j + 1, (depth - 1) as nat);
            }
        } else {
            lemma_class_end(s, j + 1, depth);
        }
    }
}

/// The position after the first `c` at or after `j`, see [`spec_until`].
fn until(s: &[u8], j: usize, c: u8) -> (r: usize)
    requires
        j <= s@.len(),
    ensures
        r == spec_until(s@, j as int, c),
        j <= r <= s@.len(),
{
    proof {
        lemma_until(s@, j as int, c);
    }
    let mut k = j;
    while k < s.len() && s[k] != c
        invariant
            j <= k <= s@.len(),
            spec_until(s@, k as int, c) == spec_until(s@, j as int, c),
        decreases s@.len() - k,
    {
        k = k + 1;
    }
    if k < s.len() {
        k + 1
    } else {
        k
    }
}

/// The end of a class, see [`spec_class_end`].
fn class_end(s: &[u8], j: usize) -> (r: usize)
    requires
        j <= s@.len(),
    ensures
        r == spec_class_end(s@, j as int, 0),
        r <= s@.len(),
        j < s@.len() ==> j < r,
{
    proof {
        lemma_class_end(s@, j as int, 0);
    }
    let mut k = j;
    let mut depth: usize = 0;
    loop
        invariant
            j <= k <= s@.len(),
            depth <= k,
            spec_class_end(s@, k as int, depth as nat) == spec_class_end(s@, j as int, 0),
        decreases s@.len() - k,
    {
        if k >= s.len() {
            return k;
        }
        let c = s[k];
        if c == 92 {
            if k + 1 < s.len() {
                k = k + 2;
            } else {
                return s.len();
            }
        } else if c == 91 {
            depth = depth + 1;
            k = k + 1;
        } else if c == 93 {
            if depth == 0 {
                return k + 1;
            }
            depth = depth - 1;
            k = k + 1;
        } else {
            k = k + 1;
        }
    }
}

/// The lower case hexadecimal digit of a value below 16.
fn hex_char_of(n: u8) -> (r: u8)
    requires
        n < 16,
    ensures
        r == hex_char(n),
{
    if n < 10 {
        48 + n
    } else {
        87 + n
    }
}

/// Append the bytes of `s` from `a` to `b`.
fn push_range(out: &mut Vec<u8>, s: &[u8], a: usize, b: usize)
    requires
        a <= b <= s@.len(),
    ensures
        final(out)@ == old(out)@ + s@.subrange(a as int, b as int),
{
    let ghost start = out@;
    let mut k = a;
    while k < b
        invariant
            a <= k <= b <= s@.len(),
            out@ == start + s@.subrange(a as int, k as int),
        decreases b - k,
    {
        out.push(s[k]);
        k = k + 1;
        assert(out@ =~= start + s@.subrange(a as int, k as int));
    }
}

/// Append `(?:`.
fn push_group_start(out: &mut Vec<u8>)
    ensures
        final(out)@ == old(out)@ + seq![40u8, 63u8, 58u8],
{
    out.push(40);
    out.push(63);
    out.push(58);
    assert(final(out)@ =~= old(out)@ + seq![40u8, 63u8, 58u8]);
}

/// Append `\x00)`.
fn push_nul_end(out: &mut Vec<u8>)
    ensures
        final(out)@ == old(out)@ + nul_escape() + seq![41u8],
{
    out.push(92);
    out.push(120);
    out.push(48);
    out.push(48);
    out.push(41);
    assert(final(out)@ =~= old(out)@ + nul_escape() + seq![41u8]);
}

/// Append the wide form of the atom `s[a..b]`, see [`wrap`].
fn push_wrapped(out: &mut Vec<u8>, s: &[u8], a: usize, b: usize)
    requires
        a <= b <= s@.len(),
    ensures
        final(out)@ == old(out)@ + wrap(s@.subrange(a as int, b as int)),
{
    let ghost start = out@;
    push_group_start(out);
    push_range(out, s, a, b);
    push_nul_end(out);
    assert(out@ =~= start + wrap(s@.subrange(a as int, b as int)));
}

/// Append the wide form of a plain byte, see [`byte_escape`].
fn push_wrapped_byte(out: &mut Vec<u8>, c: u8)
    ensures
        final(out)@ == old(out)@ + wrap(byte_escape(c)),
{
    let ghost start = out@;
    push_group_start(out);
    out.push(92);
    out.push(120);
    out.push(hex_char_of(c / 16));
    out.push(hex_char_of(c % 16));
    push_nul_end(out);
    assert(out@ =~= start + wrap(byte_escape(c)));
}

/// The wide form of the regex text `s`, see [`spec_widen`].
pub fn widen(s: &[u8]) -> (r: (Vec<u8>, bool))
    ensures
        (r.0@, r.1) == spec_widen(s@),
{
    let mut out: Vec<u8> = Vec::new();
    let mut boundary = false;
    let mut i: usize = 0;
    loop
        invariant
            i <= s@.len(),
            spec_widen_from(s@, i as int, out@, boundary) == spec_widen(s@),
        decreases s@.len() - i,
    {
        if i >= s.len() {
            return (out, boundary);
        }
        let c = s[i];
        if c == 92 {
            if i + 1 >= s.len() {
                push_range(&mut out, s, i, s.len());
                return (out, boundary);
            }
            let n = s[i + 1];
            if n == 98 || n == 66 {
                boundary = true;
                i = i + 2;
            } else if n == 65 || n == 122 {
                push_range(&mut out, s, i, i + 2);
                i = i + 2;
            } else if n == 120 {
                let e = if i + 2 < s.len() && s[i + 2] == 123 {
                    until(s, i + 3, 125)
                } else if s.len() - i >= 4 {
                    i + 4
                } else {
                    s.len()
                };
                push_wrapped(&mut out, s, i, e);
                i = e;
            } else {
                push_wrapped(&mut out, s, i, i + 2);
                i = i + 2;
            }
        } else if c == 91 {
            let j0 = if i + 1 < s.len() && s[i + 1] == 94 {
                i + 2
            } else {
                i + 1
            };
            let j = if j0 < s.len() && s[j0] == 93 {
                j0 + 1
            } else {
                j0
            };
            let e = class_end(s, j);
            if e <= i {
                return (out, boundary);
            }
            push_wrapped(&mut out, s, i, e);
            i = e;
        } else if c == 46 {
            let ghost start = out@;
            push_group_start(&mut out);
            out.push(46);
            push_nul_end(&mut out);
            assert(out@ =~= start + wrap(seq![46u8]));
            i = i + 1;
        } else if c == 40 {
            let e = if i + 1 < s.len() && s[i + 1] == 63 {
                let a = until(s, i + 2, 58);
                let b = until(s, i + 2, 41);
                let g = until(s, i + 2, 62);
                let m1 = if a < b {
                    a
                } else {
                    b
                };
                if m1 < g {
                    m1
                } else {
                    g
                }
            } else {
                i + 1
            };
            push_range(&mut out, s, i, e);
            i = e;
        } else if c == 123 {
            let e = until(s, i + 1, 125);
            push_range(&mut out, s, i, e);
            i = e;
        } else if c == 41 || c == 124 || c == 94 || c == 36 || c == 42 || c == 43 || c == 63 {
            out.push(c);
            i = i + 1;
        } else {
            push_wrapped_byte(&mut out, c);
            i = i + 1;
        }
    }
}

/// The text `(?:s)|(?:w)`, see [`spec_either`].
pub fn either(s: &[u8], w: &[u8]) -> (r: Vec<u8>)
    ensures
        r@ == spec_either(s@, w@),
{
    let mut out: Vec<u8> = Vec::new();
    push_group_start(&mut out);
    push_range(&mut out, s, 0, s.len());
    out.push(41);
    out.push(124);
    push_group_start(&mut out);
    push_range(&mut out, w, 0, w.len());
    out.push(41);
    assert(s@.subrange(0, s@.len() as int) =~= s@);
    assert(w@.subrange(0, w@.len() as int) =~= w@);
    assert(out@ =~= spec_either(s@, w@));
    out
}

} // verus!
