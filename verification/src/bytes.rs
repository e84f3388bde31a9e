//! Big-endian integer fields and byte-sequence comparison, shared by the
//! wire codec and the handshake.

use vstd::prelude::*;

verus! {

/// The four bytes of `n`, most significant first.
pub open spec fn be32(n: u32) -> Seq<u8> {
    seq![
        ((n >> 24) & 0xff) as u8,
        ((n >> 16) & 0xff) as u8,
        ((n >> 8) & 0xff) as u8,
        (n & 0xff) as u8,
    ]
}

/// The `u32` read from four bytes, most significant first.
pub open spec fn be32_of(s: Seq<u8>) -> u32
    recommends
        s.len() == 4,
{
    (((s[0] as u32) << 24) | ((s[1] as u32) << 16) | ((s[2] as u32) << 8) | (s[3] as u32)) as u32
}

/// The two bytes of `n`, most significant first.
pub open spec fn be16(n: u16) -> Seq<u8> {
    seq![((n >> 8) & 0xff) as u8, (n & 0xff) as u8]
}

/// The `u16` read from two bytes, most significant first.
pub open spec fn be16_of(s: Seq<u8>) -> u16
    recommends
        s.len() == 2,
{
    (((s[0] as u16) << 8) | (s[1] as u16)) as u16
}

/// Reading back the four bytes of `n` yields `n` again.
pub proof fn lemma_be32_round_trip(n: u32)
    ensures
        be32_of(be32(n)) == n,
{
    assert((((((n >> 24) & 0xff) as u8 as u32) << 24) | ((((n >> 16) & 0xff) as u8 as u32) << 16)
        | ((((n >> 8) & 0xff) as u8 as u32) << 8) | ((n & 0xff) as u8 as u32)) as u32 == n)
        by (bit_vector);
}

/// Reading back the two bytes of `n` yields `n` again.
pub proof fn lemma_be16_round_trip(n: u16)
    ensures
        be16_of(be16(n)) == n,
{
    assert((((((n >> 8) & 0xff) as u8 as u16) << 8) | ((n & 0xff) as u8 as u16)) as u16 == n)
        by (bit_vector);
}

/// Append the four big-endian bytes of `n`.
pub fn push_be32(out: &mut Vec<u8>, n: u32)
    requires
        old(out)@.len() + 4 <= usize::MAX,
    ensures
        final(out)@ == old(out)@ + be32(n),
{
    out.push(((n >> 24) & 0xff) as u8);
    out.push(((n >> 16) & 0xff) as u8);
    out.push(((n >> 8) & 0xff) as u8);
    out.push((n & 0xff) as u8);
    proof {
        assert(out@ =~= old(out)@ + be32(n));
    }
}

/// Append the two big-endian bytes of `n`.
pub fn push_be16(out: &mut Vec<u8>, n: u16)
    requires
        old(out)@.len() + 2 <= usize::MAX,
    ensures
        final(out)@ == old(out)@ + be16(n),
{
    out.push(((n >> 8) & 0xff) as u8);
    out.push((n & 0xff) as u8);
    proof {
        assert(out@ =~= old(out)@ + be16(n));
    }
}

/// Read the big-endian `u32` that starts at `at`.
pub fn read_be32(buf: &Vec<u8>, at: usize) -> (r: u32)
    requires
        at + 4 <= buf@.len(),
    ensures
        r == be32_of(buf@.subrange(at as int, at + 4)),
{
    let _len = buf.len();
    let b0 = buf[at];
    let b1 = buf[at + 1];
    let b2 = buf[at + 2];
    let b3 = buf[at + 3];
    proof {
        assert(buf@.subrange(at as int, at + 4)[0] == b0);
        assert(buf@.subrange(at as int, at + 4)[1] == b1);
        assert(buf@.subrange(at as int, at + 4)[2] == b2);
        assert(buf@.subrange(at as int, at + 4)[3] == b3);
        assert((((b0 as u32) << 24) | ((b1 as u32) << 16) | ((b2 as u32) << 8) | (b3 as u32))
            <= u32::MAX) by (bit_vector);
    }
    ((b0 as u32) << 24) | ((b1 as u32) << 16) | ((b2 as u32) << 8) | (b3 as u32)
}

/// Read the big-endian `u16` that starts at `at`.
pub fn read_be16(buf: &Vec<u8>, at: usize) -> (r: u16)
    requires
        at + 2 <= buf@.len(),
    ensures
        r == be16_of(buf@.subrange(at as int, at + 2)),
{
    let _len = buf.len();
    let b0 = buf[at];
    let b1 = buf[at + 1];
    proof {
        assert(buf@.subrange(at as int, at + 2)[0] == b0);
        assert(buf@.subrange(at as int, at + 2)[1] == b1);
        assert((((b0 as u16) << 8) | (b1 as u16)) <= u16::MAX) by (bit_vector);
    }
    ((b0 as u16) << 8) | (b1 as u16)
}

/// Append every byte of `src`.
pub fn push_bytes(out: &mut Vec<u8>, src: &Vec<u8>)
    requires
        old(out)@.len() + src@.len() <= usize::MAX,
    ensures
        final(out)@ == old(out)@ + src@,
{
    let n = src.len();
    let mut i: usize = 0;
    while i < n
        invariant
            n == src@.len(),
            old(out)@.len() + n <= usize::MAX,
            i <= n,
            out@ == old(out)@ + src@.subrange(0, i as int),
        decreases n - i,
    {
        out.push(src[i]);
        proof {
            assert(out@ =~= old(out)@ + src@.subrange(0, i + 1));
        }
        i = i + 1;
    }
    proof {
        assert(src@.subrange(0, n as int) =~= src@);
    }
}

/// Compare two byte vectors for equality of contents.
pub fn bytes_eq(a: &Vec<u8>, b: &Vec<u8>) -> (r: bool)
    ensures
        r == (a@ == b@),
{
    if a.len() != b.len() {
        return false;
    }
    let n = a.len();
    let mut i: usize = 0;
    while i < n
        invariant
            n == a@.len(),
            n == b@.len(),
            i <= n,
            forall|k: int| 0 <= k < i ==> a@[k] == b@[k],
        decreases n - i,
    {
        if a[i] != b[i] {
            return false;
        }
        i = i + 1;
    }
    proof {
        assert(a@ =~= b@);
    }
    true
}

/// Compare a range of `a` (starting at `at`, of `b`'s length) with `b`.
pub fn range_eq(a: &Vec<u8>, at: usize, b: &Vec<u8>) -> (r: bool)
    requires
        at + b@.len() <= a@.len(),
    ensures
        r == (a@.subrange(at as int, at + b@.len()) == b@),
{
    let n = b.len();
    let total = a.len();
    let mut i: usize = 0;
    while i < n
        invariant
            n == b@.len(),
            total == a@.len(),
            at + n <= a@.len(),
            i <= n,
            forall|k: int| 0 <= k < i ==> a@[at + k] == b@[k],
        decreases n - i,
    {
        if a[at + i] != b[i] {
            proof {
                assert(a@.subrange(at as int, at + b@.len())[i as int] != b@[i as int]);
            }
            return false;
        }
        i = i + 1;
    }
    proof {
        assert(a@.subrange(at as int, at + b@.len()) =~= b@);
    }
    true
}

/// Copy the range of `src` from `from` (exclusive end `to`) into a new vector.
pub fn copy_range(src: &Vec<u8>, from: usize, to: usize) -> (r: Vec<u8>)
    requires
        from <= to,
        to <= src@.len(),
    ensures
        r@ == src@.subrange(from as int, to as int),
{
    let mut out: Vec<u8> = Vec::new();
    let mut i: usize = from;
    while i < to
        invariant
            from <= i <= to,
            to <= src@.len(),
            out@.len() == i - from,
            forall|k: int| 0 <= k < out@.len() ==> out@[k] == src@[from + k],
        decreases to - i,
    {
        out.push(src[i]);
        i = i + 1;
    }
    proof {
        assert(out@ =~= src@.subrange(from as int, to as int));
    }
    out
}

} // verus!
