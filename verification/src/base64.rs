//! Base64 encodings of literals, for the `base64` and `base64wide` modifiers.
use vstd::prelude::*;

verus! {

/// The standard base64 alphabet.
pub open spec fn spec_default_alphabet() -> Seq<u8> {
    Seq::new(
        64,
        |i: int|
            if i < 26 {
                (0x41 + i) as u8
            } else if i < 52 {
                (0x61 + i - 26) as u8
            } else if i < 62 {
                (0x30 + i - 52) as u8
            } else if i == 62 {
                0x2bu8
            } else {
                0x2fu8
            },
    )
}

/// Base64 encoding of `s` with the alphabet `a`, without padding.
pub open spec fn spec_base64(s: Seq<u8>, a: Seq<u8>) -> Seq<u8>
    decreases s.len(),
{
    if s.len() == 0 {
        Seq::empty()
    } else if s.len() == 1 {
        seq![a[(s[0] >> 2u8) as int], a[((s[0] & 3u8) << 4u8) as int]]
    } else if s.len() == 2 {
        seq![
            a[(s[0] >> 2u8) as int],
            a[(((s[0] & 3u8) << 4u8) | (s[1] >> 4u8)) as int],
            a[((s[1] & 15u8) << 2u8) as int],
        ]
    } else {
        seq![
            a[(s[0] >> 2u8) as int],
            a[(((s[0] & 3u8) << 4u8) | (s[1] >> 4u8)) as int],
            a[(((s[1] & 15u8) << 2u8) | (s[2] >> 6u8)) as int],
            a[(s[2] & 63u8) as int],
        ] + spec_base64(s.subrange(3, s.len() as int), a)
    }
}

/// How many leading characters of the encoding depend on the `offset`
/// padding bytes put before the literal.
pub open spec fn spec_leading_cut(offset: int) -> int {
    if offset == 0 {
        0
    } else if offset == 1 {
        2
    } else {
        3
    }
}

/// The base64 form of `s` when it starts `offset` bytes (0, 1 or 2) into a
/// group of three bytes: `s` is encoded behind `offset` nul bytes, then the
/// characters that depend on the bytes around `s` are cut at both ends.
/// `None` when nothing is left.
pub open spec fn spec_encode_base64(s: Seq<u8>, alphabet: Seq<u8>, offset: int) -> Option<Seq<u8>> {
    let padded = Seq::new(offset as nat, |i: int| 0u8) + s;
    let enc = spec_base64(padded, alphabet);
    let lead = spec_leading_cut(offset);
    let trail: int = if padded.len() % 3 == 0 {
        0
    } else {
        1
    };
    if enc.len() <= lead + trail {
        None
    } else {
        Some(enc.subrange(lead, enc.len() - trail))
    }
}

/// The standard base64 alphabet.
pub fn default_alphabet() -> (r: Vec<u8>)
    ensures
        r@ == spec_default_alphabet(),
{
    let mut r: Vec<u8> = Vec::new();
    let mut i: u8 = 0;
    while i < 64
        invariant
            i <= 64,
            r@ =~= spec_default_alphabet().subrange(0, i as int),
        decreases 64 - i,
    {
        let c: u8 = if i < 26 {
            0x41 + i
        } else if i < 52 {
            0x61 + i - 26
        } else if i < 62 {
            0x30 + i - 52
        } else if i == 62 {
            0x2b
        } else {
            0x2f
        };
        r.push(c);
        i = i + 1;
    }
    r
}

proof fn lemma_b64_indexes(x: u8, y: u8, z: u8)
    ensures
        (x >> 2u8) < 64,
        ((x & 3u8) << 4u8) < 64,
        (((x & 3u8) << 4u8) | (y >> 4u8)) < 64,
        ((y & 15u8) << 2u8) < 64,
        (((y & 15u8) << 2u8) | (z >> 6u8)) < 64,
        (z & 63u8) < 64,
{
    assert((x >> 2u8) < 64) by (bit_vector);
    assert(((x & 3u8) << 4u8) < 64) by (bit_vector);
    assert((((x & 3u8) << 4u8) | (y >> 4u8)) < 64) by (bit_vector);
    assert(((y & 15u8) << 2u8) < 64) by (bit_vector);
    assert((((y & 15u8) << 2u8) | (z >> 6u8)) < 64) by (bit_vector);
    assert((z & 63u8) < 64) by (bit_vector);
}

/// Base64 encoding of `s` with the 64 bytes alphabet `alphabet`, without
/// padding.
pub fn base64_encode(s: &[u8], alphabet: &[u8]) -> (r: Vec<u8>)
    requires
        alphabet@.len() == 64,
    ensures
        r@ == spec_base64(s@, alphabet@),
{
    let mut out: Vec<u8> = Vec::new();
    let mut i: usize = 0;
    assert(s@.subrange(0, s@.len() as int) =~= s@);
    while i < s.len()
        invariant
            alphabet@.len() == 64,
            i <= s@.len(),
            spec_base64(s@, alphabet@) == out@ + spec_base64(
                s@.subrange(i as int, s@.len() as int),
                alphabet@,
            ),
        decreases s@.len() - i,
    {
        let rest = Ghost(s@.subrange(i as int, s@.len() as int));
        let remaining = s.len() - i;
        let x = s[i];
        let y: u8 = if remaining > 1 {
            s[i + 1]
        } else {
            0
        };
        let z: u8 = if remaining > 2 {
            s[i + 2]
        } else {
            0
        };
        proof {
            lemma_b64_indexes(x, y, z);
        }
        let ghost old_out = out@;
        if remaining == 1 {
            out.push(alphabet[(x >> 2) as usize]);
            out.push(alphabet[((x & 3) << 4) as usize]);
            i = s.len();
        } else if remaining == 2 {
            out.push(alphabet[(x >> 2) as usize]);
            out.push(alphabet[(((x & 3) << 4) | (y >> 4)) as usize]);
            out.push(alphabet[((y & 15) << 2) as usize]);
            i = s.len();
        } else {
            out.push(alphabet[(x >> 2) as usize]);
            out.push(alphabet[(((x & 3) << 4) | (y >> 4)) as usize]);
            out.push(alphabet[(((y & 15) << 2) | (z >> 6)) as usize]);
            out.push(alphabet[(z & 63) as usize]);
            i = i + 3;
            assert(rest@.subrange(3, rest@.len() as int) =~= s@.subrange(
                i as int,
                s@.len() as int,
            ));
        }
        assert(spec_base64(rest@, alphabet@) =~= out@.subrange(
            old_out.len() as int,
            out@.len() as int,
        ) + spec_base64(s@.subrange(i as int, s@.len() as int), alphabet@));
        assert(out@ =~= old_out + out@.subrange(old_out.len() as int, out@.len() as int));
    }
    assert(spec_base64(s@.subrange(i as int, s@.len() as int), alphabet@) =~= Seq::empty());
    assert(out@ + Seq::<u8>::empty() =~= out@);
    out
}

/// The base64 form of `s` starting `offset` bytes into a group of three
/// bytes, as searched for by the `base64` modifiers, see
/// [`spec_encode_base64`].
pub fn encode_base64(s: &[u8], alphabet: &[u8], offset: usize) -> (r: Option<Vec<u8>>)
    requires
        alphabet@.len() == 64,
        offset <= 2,
        s@.len() + 2 <= usize::MAX,
    ensures
        match r {
            Some(v) => spec_encode_base64(s@, alphabet@, offset as int) == Some(v@),
            None => spec_encode_base64(s@, alphabet@, offset as int) is None,
        },
{
    let mut padded: Vec<u8> = Vec::new();
    let mut k: usize = 0;
    while k < offset
        invariant
            k <= offset,
            padded@ =~= Seq::new(k as nat, |i: int| 0u8),
        decreases offset - k,
    {
        padded.push(0);
        k = k + 1;
    }
    let mut j: usize = 0;
    while j < s.len()
        invariant
            j <= s@.len(),
            padded@ =~= Seq::new(offset as nat, |i: int| 0u8) + s@.subrange(0, j as int),
        decreases s@.len() - j,
    {
        padded.push(s[j]);
        j = j + 1;
    }
    assert(s@.subrange(0, s@.len() as int) =~= s@);
    let enc = base64_encode(padded.as_slice(), alphabet);
    let lead: usize = if offset == 0 {
        0
    } else if offset == 1 {
        2
    } else {
        3
    };
    let trail: usize = if padded.len() % 3 == 0 {
        0
    } else {
        1
    };
    if enc.len() <= lead + trail {
        return None;
    }
    let out = vstd::slice::slice_to_vec(&enc.as_slice()[lead..enc.len() - trail]);
    Some(out)
}

} // verus!
