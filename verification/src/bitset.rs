//! A fixed set of small numbers.

use vstd::prelude::*;

verus! {

/// Whether bit `k` of `byte` is set.
pub open spec fn bit_of(byte: u8, k: u8) -> bool {
    (byte >> k) & 1 == 1
}

proof fn lemma_set_bit(byte: u8, k: u8)
    requires
        k < 8,
    ensures
        forall|j: u8| j < 8 ==> (#[trigger] bit_of(byte | (1u8 << k), j) <==> j == k || bit_of(byte, j)),
{
    assert forall|j: u8| j < 8 implies (#[trigger] bit_of(byte | (1u8 << k), j) <==> j == k
        || bit_of(byte, j)) by {
        assert(k < 8 && j < 8 ==> ((((byte | (1u8 << k)) >> j) & 1 == 1) <==> (j == k || (byte >> j)
            & 1 == 1))) by (bit_vector);
    }
}

proof fn lemma_zero_byte()
    ensures
        forall|j: u8| j < 8 ==> !#[trigger] bit_of(0u8, j),
{
    assert forall|j: u8| j < 8 implies !#[trigger] bit_of(0u8, j) by {
        assert(j < 8 ==> (0u8 >> j) & 1 != 1) by (bit_vector);
    }
}

/// A set of bit positions below a limit that is fixed when the set is made.
#[derive(Debug)]
pub struct BitSet {
    entries: Vec<u8>,
}

impl BitSet {
    /// The positions that the set can hold are those below the limit.
    pub closed spec fn limit(&self) -> nat {
        self.entries@.len() * 8
    }

    /// Whether the set holds `bit`.
    pub closed spec fn holds(&self, bit: nat) -> bool {
        bit < self.limit() && bit_of(self.entries@[bit as int / 8], (bit % 8) as u8)
    }

    /// An empty set with room for the positions below `max_bit_count`.
    pub fn new(max_bit_count: u32) -> (set: Self)
        ensures
            set.limit() >= max_bit_count,
            set.limit() < max_bit_count + 8,
            forall|bit: nat| !set.holds(bit),
    {
        let bytes: u64 = (max_bit_count as u64 + 7) / 8;
        let mut entries: Vec<u8> = Vec::new();
        let mut i: u64 = 0;
        while i < bytes
            invariant
                i <= bytes,
                entries@.len() == i,
                forall|k: int| 0 <= k < entries@.len() ==> entries@[k] == 0,
            decreases bytes - i,
        {
            entries.push(0);
            i += 1;
        }
        proof {
            lemma_zero_byte();
        }
        BitSet { entries }
    }

    /// Whether the set holds `bit`; a position at or beyond the limit is
    /// never held.
    pub fn has_bit(&self, bit: u32) -> (held: bool)
        ensures
            held == self.holds(bit as nat),
    {
        let at = (bit / 8) as usize;
        if at >= self.entries.len() {
            return false;
        }
        let k: u8 = (bit % 8) as u8;
        (self.entries[at] >> k) & 1 == 1
    }

    /// Puts `bit` into the set.
    pub fn set_bit(&mut self, bit: u32)
        requires
            bit < old(self).limit(),
        ensures
            final(self).limit() == old(self).limit(),
            forall|other: nat| final(self).holds(other) == (other == bit || old(self).holds(other)),
    {
        let at = (bit / 8) as usize;
        let k: u8 = (bit % 8) as u8;
        let byte: u8 = self.entries[at];
        proof {
            lemma_set_bit(byte, k);
        }
        self.entries[at] = byte | (1u8 << k);
        proof {
            assert forall|other: nat| final(self).holds(other) == (other == bit || old(self).holds(
                other,
            )) by {
                if other < old(self).limit() {
                    let j = (other % 8) as u8;
                    if other as int / 8 == at {
                        assert(bit_of(byte | (1u8 << k), j) <==> j == k || bit_of(byte, j));
                    }
                }
            }
        }
    }
}

} // verus!
