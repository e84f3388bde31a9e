//! Compact bit-vector over piece (or block) indices, with the byte-packed,
//! most-significant-bit-first wire form used by `bitfield` messages.

use vstd::prelude::*;

verus! {

/// True iff bit `j` (counting from the most significant bit, `0 <= j < 8`)
/// of byte `b` is set.
pub open spec fn bit_of_byte(b: u8, j: u8) -> bool {
    b & (0x80u8 >> j) != 0
}

/// Number of bytes needed to pack `n` bits, padded to a whole byte.
pub open spec fn packed_len(n: int) -> int {
    (n + 7) / 8
}

/// `bytes` is the byte-packed, most-significant-bit-first form of `bits`,
/// padded with clear bits to a whole byte.
pub open spec fn packs(bits: Seq<bool>, bytes: Seq<u8>) -> bool {
    &&& bytes.len() == packed_len(bits.len() as int)
    &&& forall|bj: int, j: u8|
        0 <= bj < bytes.len() && j < 8 ==> #[trigger] bit_of_byte(bytes[bj], j) == (8 * bj + j
            < bits.len() && bits[8 * bj + j])
}

/// How many of the bits in `s` are set.
pub open spec fn count_set(s: Seq<bool>) -> int
    decreases s.len(),
{
    if s.len() == 0 {
        0
    } else {
        count_set(s.drop_last()) + if s.last() { 1int } else { 0int }
    }
}

/// Packing loses no bit: the bit read back from the packed bytes at
/// position `i` is the original bit, so unpacking the packed form of a
/// bitfield restores it exactly.
pub proof fn lemma_packs_extract(bits: Seq<bool>, bytes: Seq<u8>, i: int)
    requires
        packs(bits, bytes),
        0 <= i < bits.len(),
    ensures
        bit_of_byte(bytes[i / 8], (i % 8) as u8) == bits[i],
{
    assert(0 <= i / 8 < bytes.len());
    assert(8 * (i / 8) + ((i % 8) as u8) == i);
    assert(bit_of_byte(bytes[i / 8], (i % 8) as u8) == (8 * (i / 8) + ((i % 8) as u8) < bits.len()
        && bits[8 * (i / 8) + ((i % 8) as u8)]));
}

/// At most every bit of `s` can be set.
pub proof fn lemma_count_set_bound(s: Seq<bool>)
    ensures
        0 <= count_set(s) <= s.len(),
    decreases s.len(),
{
    if s.len() > 0 {
        lemma_count_set_bound(s.drop_last());
    }
}

/// Bit `j` of byte zero is clear, and setting bit `j` by or-ing in its mask
/// touches no other bit.
proof fn lemma_bit_masks()
    by (bit_vector)
    ensures
        forall|j: u8| j < 8 ==> !(#[trigger] bit_of_byte(0u8, j)),
        forall|b: u8, j: u8, k: u8|
            j < 8 && k < 8 ==> #[trigger] bit_of_byte(b | (0x80u8 >> j), k) == (j == k
                || bit_of_byte(b, k)),
{
}

/// Bit-vector with one bit per index; its view is the sequence of bits.
pub struct Bitfield {
    bits: Vec<bool>,
}

impl View for Bitfield {
    type V = Seq<bool>;

    closed spec fn view(&self) -> Seq<bool> {
        self.bits@
    }
}

impl Clone for Bitfield {
    fn clone(&self) -> (r: Self)
        ensures
            r@ == self@,
    {
        Bitfield { bits: self.bits.clone() }
    }
}

impl Bitfield {
    /// A bitfield of `n` bits, all clear.
    pub fn new(n: usize) -> (r: Bitfield)
        ensures
            r@.len() == n,
            forall|i: int| 0 <= i < n ==> !r@[i],
    {
        let mut bits: Vec<bool> = Vec::new();
        let mut k: usize = 0;
        while k < n
            invariant
                k <= n,
                bits@.len() == k,
                forall|i: int| 0 <= i < k ==> !bits@[i],
            decreases n - k,
        {
            bits.push(false);
            k = k + 1;
        }
        Bitfield { bits }
    }

    pub fn len(&self) -> (r: usize)
        ensures
            r == self@.len(),
    {
        self.bits.len()
    }

    pub fn get(&self, i: usize) -> (r: bool)
        requires
            i < self@.len(),
        ensures
            r == self@[i as int],
    {
        self.bits[i]
    }

    pub fn set(&mut self, i: usize, v: bool)
        requires
            i < old(self)@.len(),
        ensures
            final(self)@ == old(self)@.update(i as int, v),
    {
        self.bits.set(i, v);
    }

    /// Clear every bit, keeping the length.
    pub fn clear_all(&mut self)
        ensures
            final(self)@.len() == old(self)@.len(),
            forall|i: int| 0 <= i < final(self)@.len() ==> !final(self)@[i],
    {
        let n = self.bits.len();
        let mut k: usize = 0;
        while k < n
            invariant
                k <= n,
                self.bits@.len() == n,
                forall|i: int| 0 <= i < k ==> !self.bits@[i],
            decreases n - k,
        {
            self.bits.set(k, false);
            k = k + 1;
        }
    }

    /// True iff every bit is set.
    pub fn all_set(&self) -> (r: bool)
        ensures
            r == (forall|i: int| 0 <= i < self@.len() ==> self@[i]),
    {
        let n = self.bits.len();
        let mut k: usize = 0;
        while k < n
            invariant
                k <= n,
                self.bits@.len() == n,
                forall|i: int| 0 <= i < k ==> self.bits@[i],
            decreases n - k,
        {
            if !self.bits[k] {
                proof {
                    assert(!self@[k as int]);
                }
                return false;
            }
            k = k + 1;
        }
        true
    }

    /// How many bits are set.
    pub fn count(&self) -> (r: usize)
        ensures
            r == count_set(self@),
    {
        let n = self.bits.len();
        let mut k: usize = 0;
        let mut c: usize = 0;
        proof {
            assert(self.bits@.subrange(0, 0) =~= Seq::<bool>::empty());
        }
        while k < n
            invariant
                k <= n,
                self.bits@.len() == n,
                c == count_set(self.bits@.subrange(0, k as int)),
                c <= k,
            decreases n - k,
        {
            proof {
                assert(self.bits@.subrange(0, k + 1).drop_last() =~= self.bits@.subrange(
                    0,
                    k as int,
                ));
                assert(self.bits@.subrange(0, k + 1).last() == self.bits@[k as int]);
            }
            if self.bits[k] {
                c = c + 1;
            }
            k = k + 1;
        }
        proof {
            assert(self.bits@.subrange(0, n as int) =~= self.bits@);
        }
        c
    }

    /// Byte-packed form: one bit per index, most significant bit first,
    /// padded with clear bits to a whole byte.
    pub fn to_bytes(&self) -> (r: Vec<u8>)
        requires
            self@.len() <= usize::MAX - 7,
        ensures
            packs(self@, r@),
    {
        proof {
            lemma_bit_masks();
        }
        let n = self.bits.len();
        let nbytes = (n + 7) / 8;
        let mut out: Vec<u8> = Vec::new();
        let mut bi: usize = 0;
        while bi < nbytes
            invariant
                nbytes == (n + 7) / 8,
                n == self.bits@.len(),
                n <= usize::MAX - 7,
                bi <= nbytes,
                out@.len() == bi,
                forall|i: int|
                    0 <= i < 8 * bi && i < n ==> bit_of_byte(out@[i / 8], (i % 8) as u8)
                        == self.bits@[i],
                forall|bj: int, j: u8|
                    0 <= bj < bi && j < 8 && 8 * bj + j >= n ==> !(#[trigger] bit_of_byte(
                        out@[bj],
                        j,
                    )),
                forall|j: u8| j < 8 ==> !(#[trigger] bit_of_byte(0u8, j)),
                forall|b: u8, j: u8, k: u8|
                    j < 8 && k < 8 ==> #[trigger] bit_of_byte(b | (0x80u8 >> j), k) == (j == k
                        || bit_of_byte(b, k)),
            decreases nbytes - bi,
        {
            let mut byte: u8 = 0;
            let mut j: usize = 0;
            while j < 8
                invariant
                    n == self.bits@.len(),
                    bi < nbytes,
                    nbytes == (n + 7) / 8,
                    n <= usize::MAX - 7,
                    j <= 8,
                    forall|k: u8|
                        k < j ==> #[trigger] bit_of_byte(byte, k) == (8 * bi + k < n
                            && self.bits@[8 * bi + k]),
                    forall|k: u8| j <= k < 8 ==> !(#[trigger] bit_of_byte(byte, k)),
                    forall|b: u8, jj: u8, k: u8|
                        jj < 8 && k < 8 ==> #[trigger] bit_of_byte(b | (0x80u8 >> jj), k) == (jj
                            == k || bit_of_byte(b, k)),
                decreases 8 - j,
            {
                let i = bi * 8 + j;
                if i < n && self.bits[i] {
                    byte = byte | (0x80u8 >> (j as u32));
                }
                j = j + 1;
            }
            let ghost out0 = out@;
            out.push(byte);
            proof {
                assert forall|i: int| 0 <= i < 8 * (bi + 1) && i < n implies bit_of_byte(
                    out@[i / 8],
                    (i % 8) as u8,
                ) == self.bits@[i] by {
                    if i >= 8 * bi {
                        assert(i / 8 == bi as int);
                        assert(out@[i / 8] == byte);
                        assert(8 * (bi as int) + (i % 8) == i);
                        assert(bit_of_byte(byte, (i % 8) as u8) == (8 * bi + ((i % 8) as u8) < n
                            && self.bits@[8 * bi + ((i % 8) as u8)]));
                    } else {
                        assert(out@[i / 8] == out0[i / 8]) by {
                            assert(0 <= i / 8 < bi as int);
                        }
                    }
                }
                assert forall|bj: int, j2: u8|
                    0 <= bj < bi + 1 && j2 < 8 && 8 * bj + j2 >= n implies !bit_of_byte(
                    out@[bj],
                    j2,
                ) by {
                    if bj == bi as int {
                        assert(out@[bj] == byte);
                        assert(bit_of_byte(byte, j2) == (8 * bi + j2 < n && self.bits@[8 * bi
                            + j2]));
                    } else {
                        assert(out@[bj] == out0[bj]);
                    }
                }
            }
            bi = bi + 1;
        }
        proof {
            assert forall|bj: int, j: u8| 0 <= bj < out@.len() && j < 8 implies
                #[trigger] bit_of_byte(out@[bj], j) == (8 * bj + j < n && self.bits@[8 * bj + j])
                by {
                if 8 * bj + j < n {
                    let i: int = 8 * bj + j;
                    assert(i / 8 == bj && i % 8 == j);
                    assert(bit_of_byte(out@[i / 8], (i % 8) as u8) == self.bits@[i]);
                }
            }
        }
        out
    }

    /// Rebuild an `n`-bit bitfield from its byte-packed form; any padding
    /// bits beyond `n` are ignored.
    pub fn from_bytes(bytes: &Vec<u8>, n: usize) -> (r: Bitfield)
        requires
            bytes@.len() == packed_len(n as int),
        ensures
            r@.len() == n,
            forall|i: int| 0 <= i < n ==> r@[i] == bit_of_byte(bytes@[i / 8], (i % 8) as u8),
    {
        let mut bits: Vec<bool> = Vec::new();
        let mut i: usize = 0;
        while i < n
            invariant
                bytes@.len() == packed_len(n as int),
                i <= n,
                bits@.len() == i,
                forall|k: int|
                    0 <= k < i ==> bits@[k] == bit_of_byte(bytes@[k / 8], (k % 8) as u8),
            decreases n - i,
        {
            proof {
                assert(i / 8 < bytes@.len()) by {
                    assert(i as int / 8 < (n as int + 7) / 8);
                }
            }
            let byte = bytes[i / 8];
            let b = byte & (0x80u8 >> ((i % 8) as u32));
            bits.push(b != 0);
            i = i + 1;
        }
        Bitfield { bits }
    }
}

} // verus!
