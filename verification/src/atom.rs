//! Ranking of atoms: the slices of literals searched for by the literal
//! pass.
use vstd::prelude::*;

verus! {

/// Quality of one byte of an atom: common bytes (nul, space, 0xCC, 0xFF)
/// are the worst, lower case letters come next.
pub open spec fn spec_byte_quality(b: u8) -> int {
    if b == 0x00 || b == 0x20 || b == 0xcc || b == 0xff {
        12
    } else if 0x61 <= b <= 0x7a {
        18
    } else {
        20
    }
}

/// Sum of the qualities of the bytes of `atom`.
pub open spec fn spec_quality_sum(atom: Seq<u8>) -> int
    decreases atom.len(),
{
    if atom.len() == 0 {
        0
    } else {
        spec_quality_sum(atom.drop_last()) + spec_byte_quality(atom.last())
    }
}

/// Number of distinct bytes in `atom`.
pub open spec fn spec_nb_unique(atom: Seq<u8>) -> int
    decreases atom.len(),
{
    if atom.len() == 0 {
        0
    } else {
        spec_nb_unique(atom.drop_last()) + if atom.drop_last().contains(atom.last()) {
            0int
        } else {
            1int
        }
    }
}

/// Whether a byte is one of the very common ones.
pub open spec fn spec_is_common_byte(b: u8) -> bool {
    b == 0x00 || b == 0x20 || b == 0xcc || b == 0xff
}

/// Rank of an atom: the sum of its bytes qualities, heavily penalized when
/// the atom repeats a single very common byte, and raised by two for each
/// distinct byte otherwise.
pub open spec fn spec_atom_rank(atom: Seq<u8>) -> int {
    if atom.len() > 0 && spec_nb_unique(atom) == 1 && spec_is_common_byte(atom[0]) {
        spec_quality_sum(atom) - 10 * atom.len()
    } else {
        spec_quality_sum(atom) + 2 * spec_nb_unique(atom)
    }
}

/// Quality of one byte of an atom.
fn byte_quality(b: u8) -> (r: i64)
    ensures
        r == spec_byte_quality(b),
{
    if b == 0x00 || b == 0x20 || b == 0xcc || b == 0xff {
        12
    } else if 0x61 <= b && b <= 0x7a {
        18
    } else {
        20
    }
}

/// Rank of an atom, see [`spec_atom_rank`].
pub fn atom_rank(atom: &[u8]) -> (r: i64)
    requires
        atom@.len() <= 0x1000,
    ensures
        r == spec_atom_rank(atom@),
{
    let mut quality: i64 = 0;
    let mut nb_unique: i64 = 0;
    let mut i: usize = 0;
    while i < atom.len()
        invariant
            i <= atom@.len() <= 0x1000,
            quality == spec_quality_sum(atom@.subrange(0, i as int)),
            nb_unique == spec_nb_unique(atom@.subrange(0, i as int)),
            0 <= quality <= 20 * i,
            0 <= nb_unique <= i,
        decreases atom@.len() - i,
    {
        let ghost prefix = atom@.subrange(0, i as int);
        let b = atom[i];
        let mut seen = false;
        let mut j: usize = 0;
        while j < i
            invariant
                j <= i < atom@.len(),
                b == atom@[i as int],
                prefix == atom@.subrange(0, i as int),
                seen == prefix.subrange(0, j as int).contains(b),
            decreases i - j,
        {
            let ghost s0 = prefix.subrange(0, j as int);
            let ghost s1 = prefix.subrange(0, j + 1);
            proof {
                if atom@[j as int] == b {
                    assert(s1[j as int] == b);
                } else if seen {
                    let k = choose|k: int| 0 <= k < s0.len() && s0[k] == b;
                    assert(s1[k] == b);
                } else {
                    assert forall|k: int| 0 <= k < s1.len() implies s1[k] != b by {
                        if k < j {
                            assert(s1[k] == s0[k]);
                        }
                    }
                }
            }
            if atom[j] == b {
                seen = true;
            }
            j = j + 1;
        }
        assert(prefix.subrange(0, i as int) =~= prefix);
        let ghost next = atom@.subrange(0, i + 1);
        assert(next.drop_last() =~= prefix);
        assert(next.last() == b);
        quality = quality + byte_quality(b);
        if !seen {
            nb_unique = nb_unique + 1;
        }
        i = i + 1;
    }
    assert(atom@.subrange(0, atom@.len() as int) =~= atom@);
    let len = atom.len() as i64;
    if atom.len() > 0 && nb_unique == 1 && (atom[0] == 0x00 || atom[0] == 0x20 || atom[0] == 0xcc
        || atom[0] == 0xff) {
        quality - 10 * len
    } else {
        quality + 2 * nb_unique
    }
}

/// Whether `i` is the position of the best 4 bytes atom of `lit`: the last
/// of the windows of highest rank.
pub open spec fn spec_is_best_atom(lit: Seq<u8>, i: int) -> bool {
    &&& 0 <= i <= lit.len() - 4
    &&& forall|j: int|
        0 <= j <= lit.len() - 4 ==> #[trigger] spec_atom_rank(lit.subrange(j, j + 4))
            <= spec_atom_rank(lit.subrange(i, i + 4))
    &&& forall|j: int|
        i < j <= lit.len() - 4 ==> #[trigger] spec_atom_rank(lit.subrange(j, j + 4))
            < spec_atom_rank(lit.subrange(i, i + 4))
}

/// Pick the best 4 bytes atom of a literal, returned as the number of bytes
/// cut on its left and on its right. Literals of at most 4 bytes are kept
/// whole.
pub fn pick_best_atom_in_literal(lit: &[u8]) -> (r: (usize, usize))
    ensures
        lit@.len() <= 4 ==> r == (0usize, 0usize),
        lit@.len() > 4 ==> spec_is_best_atom(lit@, r.0 as int) && r.1 == lit@.len() - r.0 - 4,
{
    if lit.len() <= 4 {
        return (0, 0);
    }
    let last = lit.len() - 4;
    let mut best: usize = 0;
    let mut best_rank = atom_rank(&lit[0..4]);
    let mut i: usize = 1;
    while i <= last
        invariant
            lit@.len() > 4,
            last == lit@.len() - 4,
            last + 4 == lit.len(),
            1 <= i <= last + 1,
            best < i,
            best_rank == spec_atom_rank(lit@.subrange(best as int, best + 4)),
            forall|j: int|
                0 <= j < i ==> #[trigger] spec_atom_rank(lit@.subrange(j, j + 4)) <= best_rank,
            forall|j: int|
                best < j < i ==> #[trigger] spec_atom_rank(lit@.subrange(j, j + 4)) < best_rank,
        decreases last + 1 - i,
    {
        let rank = atom_rank(&lit[i..i + 4]);
        if rank >= best_rank {
            best = i;
            best_rank = rank;
        }
        i = i + 1;
    }
    (best, lit.len() - best - 4)
}

} // verus!
