//! Helpers on "wide" (UTF-16LE-like) byte strings: every ascii byte is
//! followed by a nul byte.
use vstd::prelude::*;

verus! {

/// Whether `c` is an ascii letter or digit.
pub open spec fn spec_is_ascii_alnum(c: u8) -> bool {
    (0x30 <= c <= 0x39) || (0x41 <= c <= 0x5a) || (0x61 <= c <= 0x7a)
}

/// The wide version of `s`: each byte followed by a nul byte.
pub open spec fn spec_wide(s: Seq<u8>) -> Seq<u8> {
    Seq::new(2 * s.len(), |i: int| if i % 2 == 0 { s[i / 2] } else { 0u8 })
}

/// The ascii bytes of the longest wide prefix of `m`: the pairs `(b, 0)` read
/// from the start of `m`, stopping at the first pair whose second byte is not
/// nul, or when fewer than two bytes remain.
pub open spec fn spec_unwide(m: Seq<u8>) -> Seq<u8>
    decreases m.len(),
{
    if m.len() < 2 || m[1] != 0 {
        Seq::empty()
    } else {
        seq![m[0]] + spec_unwide(m.subrange(2, m.len() as int))
    }
}

/// The range `start..end` of `mem` is a wide string: it has an even length
/// and every second byte of it is nul.
pub open spec fn spec_is_match_wide(start: int, end: int, mem: Seq<u8>) -> bool {
    &&& (end - start) % 2 == 0
    &&& forall|i: int| start <= i < end && (i - start) % 2 == 1 ==> mem[i] == 0
}

/// Whether `c` is an ascii letter or digit.
pub fn is_ascii_alnum(c: u8) -> (r: bool)
    ensures
        r == spec_is_ascii_alnum(c),
{
    (0x30 <= c && c <= 0x39) || (0x41 <= c && c <= 0x5a) || (0x61 <= c && c <= 0x7a)
}

/// Convert an ascii string to a wide string.
pub fn string_to_wide(s: &[u8]) -> (res: Vec<u8>)
    requires
        2 * s@.len() <= usize::MAX,
    ensures
        res@ == spec_wide(s@),
{
    let mut res: Vec<u8> = Vec::with_capacity(s.len() * 2);
    let mut i: usize = 0;
    while i < s.len()
        invariant
            i <= s@.len(),
            2 * s@.len() <= usize::MAX,
            res@ =~= spec_wide(s@.subrange(0, i as int)),
        decreases s@.len() - i,
    {
        res.push(s[i]);
        res.push(0u8);
        i = i + 1;
        assert(res@ =~= spec_wide(s@.subrange(0, i as int)));
    }
    assert(s@.subrange(0, s@.len() as int) =~= s@);
    res
}

/// Remove the nul bytes of the wide prefix of `mem`, see [`spec_unwide`].
pub fn unwide(mem: &[u8]) -> (res: Vec<u8>)
    ensures
        res@ == spec_unwide(mem@),
{
    let mut res: Vec<u8> = Vec::new();
    let mut i: usize = 0;
    assert(mem@.subrange(0, mem@.len() as int) =~= mem@);
    assert(res@ + spec_unwide(mem@) =~= spec_unwide(mem@));
    while i + 1 < mem.len() && mem[i + 1] == 0
        invariant
            i % 2 == 0,
            i <= mem@.len(),
            spec_unwide(mem@) == res@ + spec_unwide(mem@.subrange(i as int, mem@.len() as int)),
        decreases mem@.len() - i,
    {
        let ghost rest = mem@.subrange(i as int, mem@.len() as int);
        assert(rest.subrange(2, rest.len() as int) =~= mem@.subrange(i + 2, mem@.len() as int));
        res.push(mem[i]);
        i = i + 2;
        assert(spec_unwide(mem@) == res@ + spec_unwide(mem@.subrange(i as int, mem@.len() as int))) by {
            assert(seq![rest[0]] + spec_unwide(rest.subrange(2, rest.len() as int)) == spec_unwide(rest));
        }
    }
    let ghost rest = mem@.subrange(i as int, mem@.len() as int);
    assert(rest.len() < 2 || rest[1] == mem@[i + 1]);
    assert(spec_unwide(rest) =~= Seq::empty());
    assert(res@ + Seq::<u8>::empty() =~= res@);
    res
}

/// Is the match `start..end` in `mem` a wide string or an ascii one.
pub fn is_match_wide(start: usize, end: usize, mem: &[u8]) -> (r: bool)
    requires
        start <= end <= mem@.len(),
    ensures
        r == spec_is_match_wide(start as int, end as int, mem@),
{
    if (end - start) % 2 != 0 {
        return false;
    }
    let half: usize = (end - start) / 2;
    let mut k: usize = 0;
    while k < half
        invariant
            k <= half,
            2 * half == end - start,
            end <= mem@.len(),
            forall|j: int| start <= j < start + 2 * k && (j - start) % 2 == 1 ==> mem@[j] == 0,
        decreases half - k,
    {
        if mem[start + 2 * k + 1] != 0 {
            return false;
        }
        k = k + 1;
    }
    true
}

/// Removing the nul bytes of a widened string gives back the string:
/// `unwide(string_to_wide(s)) == s`.
pub proof fn lemma_unwide_of_wide(s: Seq<u8>)
    ensures
        spec_unwide(spec_wide(s)) == s,
    decreases s.len(),
{
    let w = spec_wide(s);
    if s.len() == 0 {
        assert(spec_unwide(w) =~= s);
    } else {
        let tail = s.subrange(1, s.len() as int);
        assert(w.subrange(2, w.len() as int) =~= spec_wide(tail));
        lemma_unwide_of_wide(tail);
        assert(w[1] == 0u8);
        assert(seq![w[0]] + tail =~= s);
    }
}

/// Removing the nul bytes of a memory keeps the even bytes of its longest
/// wide prefix: every kept byte is followed by a nul, and the pair after
/// them, if any, is not a byte and a nul (a trailing odd byte is left out).
pub proof fn lemma_unwide_elements(m: Seq<u8>)
    ensures
        2 * spec_unwide(m).len() <= m.len(),
        forall|i: int|
            #![trigger spec_unwide(m)[i]]
            0 <= i < spec_unwide(m).len() ==> spec_unwide(m)[i] == m[2 * i] && m[2 * i + 1] == 0,
        !(2 * spec_unwide(m).len() + 1 < m.len() && m[2 * spec_unwide(m).len() as int + 1] == 0),
    decreases m.len(),
{
    if !(m.len() < 2 || m[1] != 0) {
        let rest = m.subrange(2, m.len() as int);
        lemma_unwide_elements(rest);
        let u = spec_unwide(m);
        assert(u == seq![m[0]] + spec_unwide(rest));
        let ur = spec_unwide(rest);
        assert forall|i: int| #![trigger spec_unwide(m)[i]] 0 <= i < spec_unwide(m).len() implies spec_unwide(
            m,
        )[i] == m[2 * i] && m[2 * i + 1] == 0 by {
            if i == 0 {
                assert(u[0] == m[0]);
            } else {
                assert(u[i] == ur[i - 1]);
                assert(ur[i - 1] == rest[2 * (i - 1)] && rest[2 * (i - 1) + 1] == 0);
                assert(rest[2 * (i - 1)] == m[2 * i]);
                assert(rest[2 * (i - 1) + 1] == m[2 * i + 1]);
            }
        }
        let k = spec_unwide(rest).len() as int;
        if 2 * k + 1 < rest.len() {
            assert(rest[2 * k + 1] == m[2 * (k + 1) + 1]);
        }
    }
}

/// A widened string is recognised as a wide match over its whole length.
pub proof fn lemma_wide_is_match_wide(s: Seq<u8>)
    ensures
        spec_is_match_wide(0, 2 * s.len() as int, spec_wide(s)),
{
}

} // verus!
