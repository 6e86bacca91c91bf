use vstd::prelude::*;

verus! {

/// Number of occupancy sets: one per non-empty piece kind.
pub const BOARD_AMT: usize = 12;

/// Whether bit `i` of `x` is set.
pub open spec fn bit_of(x: u64, i: int) -> bool {
    (x >> (i as u64)) & 1u64 == 1u64
}

/// Setting or clearing bit `i` changes that bit and no other.
pub proof fn lemma_bit_update(x: u64, i: u64, j: u64)
    requires
        i < 64,
        j < 64,
    ensures
        bit_of(x | (1u64 << i), j as int) == (i == j || bit_of(x, j as int)),
        bit_of(x & !(1u64 << i), j as int) == (i != j && bit_of(x, j as int)),
{
    assert(((x | (1u64 << i)) >> j) & 1u64 == 1u64 <==> (i == j || (x >> j) & 1u64 == 1u64))
        by (bit_vector)
        requires
            i < 64,
            j < 64,
    ;
    assert(((x & !(1u64 << i)) >> j) & 1u64 == 1u64 <==> (i != j && (x >> j) & 1u64 == 1u64))
        by (bit_vector)
        requires
            i < 64,
            j < 64,
    ;
}

/// Twelve 64-square occupancy sets, indexed by piece index (see `spec_index`)
/// and by square index `file * 8 + rank`.
#[derive(Clone, Copy, Debug)]
pub struct BitBoards {
    pub boards: [u64; BOARD_AMT],
}

impl BitBoards {
    /// Whether square `sq` is set in occupancy set `k`.
    pub open spec fn bit(&self, k: int, sq: int) -> bool {
        bit_of(self.boards@[k], sq)
    }

    /// Twelve empty occupancy sets.
    pub fn new() -> (r: BitBoards)
        ensures
            forall|k: int, sq: int| 0 <= k < 12 && 0 <= sq < 64 ==> !r.bit(k, sq),
    {
        assert forall|sq: u64| sq < 64 implies !bit_of(0u64, sq as int) by {
            assert((0u64 >> sq) & 1u64 == 0u64) by (bit_vector);
        }
        let r = BitBoards { boards: [0u64; BOARD_AMT] };
        assert forall|k: int, sq: int| 0 <= k < 12 && 0 <= sq < 64 implies !r.bit(k, sq) by {
            assert(!bit_of(0u64, (sq as u64) as int));
        }
        r
    }

    /// Whether square `sq` is set in occupancy set `k`.
    pub fn get_bit(&self, k: usize, sq: usize) -> (r: bool)
        requires
            k < 12,
            sq < 64,
        ensures
            r == self.bit(k as int, sq as int),
    {
        (self.boards[k] >> (sq as u64)) & 1u64 == 1u64
    }

    /// Sets square `sq` of occupancy set `k` to `value`, leaving every other bit as it was.
    pub fn set_bit(&mut self, k: usize, sq: usize, value: bool)
        requires
            k < 12,
            sq < 64,
        ensures
            forall|k2: int, sq2: int|
                0 <= k2 < 12 && 0 <= sq2 < 64 ==> final(self).bit(k2, sq2) == (if k2 == k
                    && sq2 == sq {
                    value
                } else {
                    old(self).bit(k2, sq2)
                }),
    {
        let x = self.boards[k];
        let y = if value {
            x | (1u64 << (sq as u64))
        } else {
            x & !(1u64 << (sq as u64))
        };
        self.boards[k] = y;
        proof {
            assert forall|sq2: int| 0 <= sq2 < 64 implies bit_of(y, sq2) == (if sq2 == sq {
                value
            } else {
                bit_of(x, sq2)
            }) by {
                lemma_bit_update(x, sq as u64, sq2 as u64);
            }
        }
    }
}

} // verus!
