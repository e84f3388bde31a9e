//! Piece ledger: the authoritative record of which pieces and blocks are
//! owned locally, and the verification gate for newly received data.

use vstd::prelude::*;

use sha1::{Digest, Sha1};

use crate::bitfield::{count_set, Bitfield};
use crate::bytes::bytes_eq;
use crate::messages::BLOCK_BYTES;

verus! {

/// The 20-byte SHA-1 digest of a byte sequence; a function of the bytes
/// alone, left unspecified here.
pub uninterp spec fn sha1_of(data: Seq<u8>) -> Seq<u8>;

/// Relies on the `sha1` crate (`Digest::update` then `finalize`): the 20-byte
/// SHA-1 digest of the input, a function of the input bytes alone.
#[verifier::external_body]
fn compute_sha1(data: &Vec<u8>) -> (r: Vec<u8>)
    ensures
        r@ == sha1_of(data@),
        r@.len() == 20,
{
    let mut hasher = Sha1::new();
    hasher.update(data.as_slice());
    hasher.finalize().as_slice().to_vec()
}

/// One file of the content: relative path and length in bytes.
pub struct FileEntry {
    pub path: String,
    pub length: u64,
}

/// The already-parsed torrent metadata this engine consumes: the info-hash,
/// the piece geometry, the expected piece digests, and the file layout.
pub struct TorrentMetadata {
    pub info_hash: Vec<u8>,
    pub piece_length: u32,
    pub piece_hashes: Vec<Vec<u8>>,
    pub total_length: u64,
    pub files: Vec<FileEntry>,
}

impl TorrentMetadata {
    /// The metadata invariant: 20-byte digests, and exactly
    /// `ceil(total_length / piece_length)` pieces, one digest each.
    pub open spec fn wf(&self) -> bool {
        &&& self.info_hash@.len() == 20
        &&& self.piece_length >= 1
        &&& 1 <= self.piece_hashes@.len() <= u32::MAX
        &&& forall|i: int|
            0 <= i < self.piece_hashes@.len() ==> (#[trigger] self.piece_hashes@[i])@.len() == 20
        &&& (self.piece_hashes@.len() - 1) * self.piece_length < self.total_length
        &&& self.total_length <= self.piece_hashes@.len() * self.piece_length
    }

    /// Check the metadata invariant, so that a caller can fail fast on
    /// malformed input before any session is spawned.
    pub fn validate(&self) -> (r: bool)
        ensures
            r == self.wf(),
    {
        if self.info_hash.len() != 20 {
            return false;
        }
        if self.piece_length < 1 {
            return false;
        }
        let n = self.piece_hashes.len();
        if n < 1 {
            return false;
        }
        if n as u64 > u32::MAX as u64 {
            return false;
        }
        let mut i: usize = 0;
        while i < n
            invariant
                n == self.piece_hashes@.len(),
                i <= n,
                forall|k: int| 0 <= k < i ==> (#[trigger] self.piece_hashes@[k])@.len() == 20,
            decreases n - i,
        {
            if self.piece_hashes[i].len() != 20 {
                return false;
            }
            i = i + 1;
        }
        proof {
            assert((n - 1) * self.piece_length <= 0xffff_ffffu64 * 0xffff_ffffu64 && n
                * self.piece_length <= 0xffff_ffffu64 * 0xffff_ffffu64) by (nonlinear_arith)
                requires
                    1 <= n <= 0xffff_ffffu64,
                    1 <= self.piece_length <= 0xffff_ffffu64,
            ;
        }
        let below = (n as u64 - 1) as u128 * self.piece_length as u128;
        let above = n as u128 * self.piece_length as u128;
        below < self.total_length as u128 && self.total_length as u128 <= above
    }
}

/// Status of one piece. `Verifying` is the transient phase inside
/// `receive_block` while the assembled buffer is being hashed; between
/// calls a piece is `Missing`, `InProgress` or `Complete`.
#[derive(Clone, Copy, PartialEq, Eq, Structural, Debug)]
pub enum PieceStatus {
    Missing,
    InProgress,
    Verifying,
    Complete,
}

/// Per-piece record: status, block-completion bitmap, and the in-memory
/// assembly buffer, always sized to the piece's declared length.
pub struct PieceState {
    pub status: PieceStatus,
    pub blocks: Bitfield,
    pub buffer: Vec<u8>,
}

/// A block to request on the wire: piece index, byte offset into the piece,
/// and byte length.
#[derive(Clone, Copy, PartialEq, Eq, Structural, Debug)]
pub struct BlockRequest {
    pub piece: u32,
    pub offset: u32,
    pub length: u32,
}

/// Why the ledger refuses a block write.
#[derive(Clone, Copy, PartialEq, Eq, Structural, Debug)]
pub enum LedgerError {
    UnknownPiece,
    OffsetOutOfRange,
}

/// What a successful block write did.
#[derive(Clone, Copy, PartialEq, Eq, Structural, Debug)]
pub enum ReceiveOutcome {
    /// Stored; the piece still has blocks outstanding.
    Stored,
    /// The piece assembled and its digest matched: it is now `Complete`.
    PieceComplete,
    /// The piece assembled but its digest did not match: it was reset to
    /// `Missing` with cleared block state.
    PieceRejected,
    /// The piece was already `Complete`; the write was a no-op.
    AlreadyComplete,
}

/// Every element of `s` is true.
pub open spec fn all_true(s: Seq<bool>) -> bool {
    forall|i: int| 0 <= i < s.len() ==> s[i]
}

/// Every element of `s` is false.
pub open spec fn all_false(s: Seq<bool>) -> bool {
    forall|i: int| 0 <= i < s.len() ==> !s[i]
}

/// Every byte of `s` is zero.
pub open spec fn all_zero(s: Seq<u8>) -> bool {
    forall|i: int| 0 <= i < s.len() ==> s[i] == 0u8
}

/// `buf` with `data` written over the range starting at `off`.
pub open spec fn splice(buf: Seq<u8>, off: int, data: Seq<u8>) -> Seq<u8>
    recommends
        0 <= off,
        off + data.len() <= buf.len(),
{
    buf.subrange(0, off) + data + buf.subrange(off + data.len(), buf.len() as int)
}

/// Number of blocks a piece of `len` bytes splits into.
pub open spec fn blocks_in(len: int) -> int {
    (len + BLOCK_BYTES - 1) / (BLOCK_BYTES as int)
}

/// The piece ledger: per-piece state plus the aggregate local bitfield,
/// kept in sync with per-piece `Complete` status.
pub struct Download {
    pub pieces: Vec<PieceState>,
    pub local: Bitfield,
    pub piece_length: u32,
    pub total_length: u64,
    pub piece_hashes: Vec<Vec<u8>>,
}

impl Download {
    /// Number of pieces.
    pub open spec fn count(&self) -> int {
        self.pieces@.len() as int
    }

    /// Declared length of piece `i`: `piece_length`, except the last piece,
    /// which holds the remainder of the total length.
    pub open spec fn plen(&self, i: int) -> int {
        if i < self.count() - 1 {
            self.piece_length as int
        } else {
            self.total_length - (self.count() - 1) * self.piece_length
        }
    }

    /// Well-formedness: geometry as in the metadata, buffers sized to their
    /// piece, block bitmaps sized to their piece's block count, the local
    /// bitfield tracking exactly the `Complete` pieces, and every `Complete`
    /// piece holding bytes whose digest is the expected one.
    pub open spec fn wf(&self) -> bool {
        &&& self.piece_length >= 1
        &&& 1 <= self.count() <= u32::MAX
        &&& self.piece_hashes@.len() == self.count()
        &&& (self.count() - 1) * self.piece_length < self.total_length
        &&& self.total_length <= self.count() * self.piece_length
        &&& forall|i: int|
            0 <= i < self.count() ==> (#[trigger] self.piece_hashes@[i])@.len() == 20
        &&& self.local@.len() == self.count()
        &&& forall|i: int|
            0 <= i < self.count() ==> (#[trigger] self.pieces@[i]).buffer@.len() == self.plen(i)
        &&& forall|i: int|
            0 <= i < self.count() ==> (#[trigger] self.pieces@[i]).blocks@.len() == blocks_in(
                self.plen(i),
            )
        &&& forall|i: int|
            0 <= i < self.count() ==> (self.local@[i] <==> (#[trigger] self.pieces@[i]).status
                is Complete)
        &&& forall|i: int| 0 <= i < self.count() ==> !((#[trigger] self.pieces@[i]).status is Verifying)
        &&& forall|i: int|
            0 <= i < self.count() && (#[trigger] self.pieces@[i]).status is Missing ==> all_false(
                self.pieces@[i].blocks@,
            )
        &&& forall|i: int|
            0 <= i < self.count() && (#[trigger] self.pieces@[i]).status is InProgress
                ==> !all_true(self.pieces@[i].blocks@)
        &&& forall|i: int|
            0 <= i < self.count() && (#[trigger] self.pieces@[i]).status is Complete ==> all_true(
                self.pieces@[i].blocks@,
            ) && sha1_of(self.pieces@[i].buffer@) == self.piece_hashes@[i]@
    }

    /// True iff piece `i` is `Complete`.
    pub open spec fn piece_done(&self, i: int) -> bool {
        self.pieces@[i].status is Complete
    }

    /// Declared length of piece `piece_index`, in bytes.
    pub fn piece_len(&self, piece_index: u32) -> (r: u64)
        requires
            self.wf(),
            piece_index < self.count(),
        ensures
            r == self.plen(piece_index as int),
            1 <= r <= self.piece_length,
    {
        let n = self.pieces.len();
        if (piece_index as usize) < n - 1 {
            self.piece_length as u64
        } else {
            proof {
                assert((n - 1) * self.piece_length <= 0xffff_ffffu64 * 0xffff_ffffu64)
                    by (nonlinear_arith)
                    requires
                        1 <= n <= 0xffff_ffffu64 + 1,
                        1 <= self.piece_length <= 0xffff_ffffu64,
                ;
                assert(self.total_length - (n - 1) * self.piece_length <= self.piece_length)
                    by (nonlinear_arith)
                    requires
                        self.total_length <= n * self.piece_length,
                        n >= 1,
                ;
            }
            let used: u128 = (n as u64 - 1) as u128 * self.piece_length as u128;
            (self.total_length as u128 - used) as u64
        }
    }
}

/// A vector of `n` zero bytes.
fn zero_bytes(n: usize) -> (r: Vec<u8>)
    ensures
        r@.len() == n,
        all_zero(r@),
{
    let mut out: Vec<u8> = Vec::new();
    let mut i: usize = 0;
    while i < n
        invariant
            i <= n,
            out@.len() == i,
            all_zero(out@),
        decreases n - i,
    {
        out.push(0u8);
        i = i + 1;
    }
    out
}

/// A copy of a byte vector, made by verified code.
pub fn clone_bytes(v: &Vec<u8>) -> (r: Vec<u8>)
    ensures
        r@ == v@,
{
    crate::bytes::copy_range(v, 0, v.len())
}

impl Download {
    /// Allocate the ledger for `meta`: one `Missing` piece per piece index,
    /// block bitmap clear, buffer zeroed and sized per piece (the last piece
    /// sized from the remainder).
    pub fn initialize(meta: &TorrentMetadata) -> (r: Download)
        requires
            meta.wf(),
        ensures
            r.wf(),
            r.count() == meta.piece_hashes@.len(),
            r.piece_length == meta.piece_length,
            r.total_length == meta.total_length,
            forall|i: int|
                0 <= i < r.count() ==> (#[trigger] r.piece_hashes@[i])@ == meta.piece_hashes@[i]@,
            forall|i: int| 0 <= i < r.count() ==> (#[trigger] r.pieces@[i]).status is Missing,
            forall|i: int| 0 <= i < r.count() ==> all_zero((#[trigger] r.pieces@[i]).buffer@),
            forall|i: int| 0 <= i < r.count() ==> !r.local@[i],
    {
        let n = meta.piece_hashes.len();
        let mut hashes: Vec<Vec<u8>> = Vec::new();
        let mut i: usize = 0;
        while i < n
            invariant
                n == meta.piece_hashes@.len(),
                i <= n,
                hashes@.len() == i,
                forall|k: int| 0 <= k < i ==> (#[trigger] hashes@[k])@ == meta.piece_hashes@[k]@,
            decreases n - i,
        {
            hashes.push(clone_bytes(&meta.piece_hashes[i]));
            i = i + 1;
        }
        let mut d = Download {
            pieces: Vec::new(),
            local: Bitfield::new(n),
            piece_length: meta.piece_length,
            total_length: meta.total_length,
            piece_hashes: hashes,
        };
        let mut p: usize = 0;
        while p < n
            invariant
                n == meta.piece_hashes@.len(),
                meta.wf(),
                p <= n,
                d.pieces@.len() == p,
                d.piece_length == meta.piece_length,
                d.total_length == meta.total_length,
                d.piece_hashes@.len() == n,
                forall|k: int|
                    0 <= k < n ==> (#[trigger] d.piece_hashes@[k])@ == meta.piece_hashes@[k]@,
                d.local@.len() == n,
                forall|k: int| 0 <= k < n ==> !d.local@[k],
                forall|k: int| 0 <= k < p ==> (#[trigger] d.pieces@[k]).status is Missing,
                forall|k: int|
                    0 <= k < p ==> (#[trigger] d.pieces@[k]).buffer@.len() == (if k < n - 1 {
                        meta.piece_length as int
                    } else {
                        meta.total_length - (n - 1) * meta.piece_length
                    }),
                forall|k: int|
                    0 <= k < p ==> (#[trigger] d.pieces@[k]).blocks@.len() == blocks_in(
                        if k < n - 1 {
                            meta.piece_length as int
                        } else {
                            meta.total_length - (n - 1) * meta.piece_length
                        },
                    ),
                forall|k: int| 0 <= k < p ==> all_false((#[trigger] d.pieces@[k]).blocks@),
                forall|k: int| 0 <= k < p ==> all_zero((#[trigger] d.pieces@[k]).buffer@),
            decreases n - p,
        {
            let len_p: u64 = if p < n - 1 {
                meta.piece_length as u64
            } else {
                proof {
                    assert((n - 1) * meta.piece_length <= 0xffff_ffffu64 * 0xffff_ffffu64)
                        by (nonlinear_arith)
                        requires
                            1 <= n <= 0xffff_ffffu64 + 1,
                            1 <= meta.piece_length <= 0xffff_ffffu64,
                    ;
                    assert(meta.total_length - (n - 1) * meta.piece_length
                        <= meta.piece_length) by (nonlinear_arith)
                        requires
                            meta.total_length <= n * meta.piece_length,
                            n >= 1,
                    ;
                }
                let used: u128 = (n as u64 - 1) as u128 * meta.piece_length as u128;
                (meta.total_length as u128 - used) as u64
            };
            let nb: u64 = (len_p + BLOCK_BYTES as u64 - 1) / BLOCK_BYTES as u64;
            let piece = PieceState {
                status: PieceStatus::Missing,
                blocks: Bitfield::new(nb as usize),
                buffer: zero_bytes(len_p as usize),
            };
            d.pieces.push(piece);
            p = p + 1;
        }
        proof {
            assert forall|i2: int| 0 <= i2 < d.count() implies (#[trigger] d.pieces@[i2]).buffer@.len()
                == d.plen(i2) by {}
        }
        d
    }
}

/// The exact transition `receive_block` makes: how `post` and the result
/// relate to `pre` for a write of `data` at (`piece_index`, `offset`).
/// Every error and outcome case is fixed, if and only if.
pub open spec fn receive_step(
    pre: Download,
    post: Download,
    r: Result<ReceiveOutcome, LedgerError>,
    piece_index: u32,
    offset: u32,
    data: Seq<u8>,
) -> bool {
    &&& post.count() == pre.count()
    &&& post.piece_length == pre.piece_length
    &&& post.total_length == pre.total_length
    &&& post.piece_hashes@ == pre.piece_hashes@
    &&& (piece_index >= pre.count() ==> r == Err::<ReceiveOutcome, LedgerError>(
        LedgerError::UnknownPiece,
    ) && post == pre)
    &&& (piece_index < pre.count() && pre.piece_done(piece_index as int) ==> r == Ok::<
        ReceiveOutcome,
        LedgerError,
    >(ReceiveOutcome::AlreadyComplete) && post == pre)
    &&& (piece_index < pre.count() && !pre.piece_done(piece_index as int) && (offset >= pre.plen(
        piece_index as int,
    ) || offset + data.len() > pre.plen(piece_index as int)) ==> r == Err::<
        ReceiveOutcome,
        LedgerError,
    >(LedgerError::OffsetOutOfRange) && post == pre)
    &&& ((piece_index < pre.count() && !pre.piece_done(piece_index as int) && offset < pre.plen(
        piece_index as int,
    ) && offset + data.len() <= pre.plen(piece_index as int)) ==> ({
        let i = piece_index as int;
        let newbuf = splice(pre.pieces@[i].buffer@, offset as int, data);
        let newblocks = pre.pieces@[i].blocks@.update(offset as int / (BLOCK_BYTES as int), true);
        &&& forall|k: int| 0 <= k < pre.count() && k != i ==> post.pieces@[k] == pre.pieces@[k]
        &&& if !all_true(newblocks) {
            &&& r == Ok::<ReceiveOutcome, LedgerError>(ReceiveOutcome::Stored)
            &&& post.pieces@[i].status is InProgress
            &&& post.pieces@[i].buffer@ == newbuf
            &&& post.pieces@[i].blocks@ == newblocks
            &&& post.local@ == pre.local@
        } else if sha1_of(newbuf) == pre.piece_hashes@[i]@ {
            &&& r == Ok::<ReceiveOutcome, LedgerError>(ReceiveOutcome::PieceComplete)
            &&& post.pieces@[i].status is Complete
            &&& post.pieces@[i].buffer@ == newbuf
            &&& post.pieces@[i].blocks@ == newblocks
            &&& post.local@ == pre.local@.update(i, true)
        } else {
            &&& r == Ok::<ReceiveOutcome, LedgerError>(ReceiveOutcome::PieceRejected)
            &&& post.pieces@[i].status is Missing
            &&& all_zero(post.pieces@[i].buffer@)
            &&& all_false(post.pieces@[i].blocks@)
            &&& post.local@ == pre.local@
        }
    }))
}

/// Some outcome makes `receive_step` hold with an `Ok` result: `post` is
/// exactly the state a successful block write of `data` leaves.
pub open spec fn receive_step_ok(
    pre: Download,
    post: Download,
    piece_index: u32,
    offset: u32,
    data: Seq<u8>,
) -> bool {
    exists|oc: ReceiveOutcome|
        receive_step(pre, post, Ok::<ReceiveOutcome, LedgerError>(oc), piece_index, offset, data)
}

impl Download {
    /// Write `data` into piece `piece_index` at byte `offset`, mark that
    /// block's bit, and when the piece assembles, verify it: a matching
    /// digest completes the piece, a mismatch resets it to `Missing` with
    /// cleared block state and a zeroed buffer (a recoverable fault). A
    /// write for an already-`Complete` piece is a no-op.
    pub fn receive_block(&mut self, piece_index: u32, offset: u32, data: &Vec<u8>) -> (r: Result<
        ReceiveOutcome,
        LedgerError,
    >)
        requires
            old(self).wf(),
        ensures
            final(self).wf(),
            receive_step(*old(self), *final(self), r, piece_index, offset, data@),
    {
        let n = self.pieces.len();
        if piece_index as usize >= n {
            return Err(LedgerError::UnknownPiece);
        }
        let i = piece_index as usize;
        let plen_i: u64 = self.piece_len(piece_index);
        if matches!(self.pieces[i].status, PieceStatus::Complete) {
            return Ok(ReceiveOutcome::AlreadyComplete);
        }
        if offset as u128 >= plen_i as u128 || offset as u128 + data.len() as u128
            > plen_i as u128 {
            return Err(LedgerError::OffsetOutOfRange);
        }
        let ghost pieces0 = self.pieces@;
        let ghost buf0 = self.pieces@[i as int].buffer@;
        let mut piece = self.pieces.remove(i);
        let len = data.len();
        let off = offset as usize;
        let blen = piece.buffer.len();
        let mut k: usize = 0;
        while k < len
            invariant
                len == data@.len(),
                off == offset,
                blen == piece.buffer@.len(),
                off + len <= piece.buffer@.len(),
                piece.buffer@.len() == buf0.len(),
                k <= len,
                piece.status == pieces0[i as int].status,
                piece.blocks == pieces0[i as int].blocks,
                forall|j: int| 0 <= j < off ==> piece.buffer@[j] == buf0[j],
                forall|j: int| off <= j < off + k ==> piece.buffer@[j] == data@[j - off],
                forall|j: int| off + k <= j < buf0.len() ==> piece.buffer@[j] == buf0[j],
            decreases len - k,
        {
            piece.buffer.set(off + k, data[k]);
            k = k + 1;
        }
        proof {
            assert(piece.buffer@ =~= splice(buf0, off as int, data@));
        }
        let b = (offset / BLOCK_BYTES) as usize;
        proof {
            assert(offset as int / (BLOCK_BYTES as int) < blocks_in(buf0.len() as int))
                by (nonlinear_arith)
                requires
                    0 <= offset < buf0.len(),
                    BLOCK_BYTES == 16384,
                    blocks_in(buf0.len() as int) == (buf0.len() + BLOCK_BYTES - 1) / (
                    BLOCK_BYTES as int),
            ;
        }
        piece.blocks.set(b, true);
        let done = piece.blocks.all_set();
        if !done {
            piece.status = PieceStatus::InProgress;
            self.pieces.insert(i, piece);
            proof {
                assert(self.pieces@ =~= pieces0.update(i as int, self.pieces@[i as int]));
            }
            return Ok(ReceiveOutcome::Stored);
        }
        let digest = compute_sha1(&piece.buffer);
        if bytes_eq(&digest, &self.piece_hashes[i]) {
            piece.status = PieceStatus::Complete;
            self.pieces.insert(i, piece);
            self.local.set(i, true);
            proof {
                assert(self.pieces@ =~= pieces0.update(i as int, self.pieces@[i as int]));
            }
            Ok(ReceiveOutcome::PieceComplete)
        } else {
            let nb = piece.blocks.len();
            let blen = piece.buffer.len();
            piece.status = PieceStatus::Missing;
            piece.blocks = Bitfield::new(nb);
            piece.buffer = zero_bytes(blen);
            self.pieces.insert(i, piece);
            proof {
                assert(self.pieces@ =~= pieces0.update(i as int, self.pieces@[i as int]));
            }
            Ok(ReceiveOutcome::PieceRejected)
        }
    }

    /// True iff every piece is `Complete`: the terminal condition of the
    /// whole download.
    pub fn is_complete(&self) -> (r: bool)
        requires
            self.wf(),
        ensures
            r == (forall|i: int| 0 <= i < self.count() ==> self.piece_done(i)),
    {
        let r = self.local.all_set();
        proof {
            if forall|i: int| 0 <= i < self.count() ==> self.local@[i] {
                assert forall|i: int| 0 <= i < self.count() implies self.piece_done(i) by {
                    assert(self.local@[i]);
                }
            }
            if forall|i: int| 0 <= i < self.count() ==> self.piece_done(i) {
                assert forall|i: int| 0 <= i < self.count() implies self.local@[i] by {
                    assert(self.piece_done(i));
                }
            }
        }
        r
    }

    /// Read-only snapshot of the aggregate local bitfield, for advertising
    /// to newly connected peers.
    pub fn local_bitfield(&self) -> (r: Bitfield)
        ensures
            r@ == self.local@,
    {
        self.local.clone()
    }

    /// Status of piece `piece_index`.
    pub fn piece_status(&self, piece_index: u32) -> (r: PieceStatus)
        requires
            self.wf(),
            piece_index < self.count(),
        ensures
            r == self.pieces@[piece_index as int].status,
    {
        self.pieces[piece_index as usize].status
    }

    /// The bytes of a block of an already-`Complete` piece, for serving an
    /// upload `request`; `None` iff the piece is unknown, not `Complete`,
    /// or the range does not lie inside it.
    pub fn read_block(&self, piece_index: u32, offset: u32, length: u32) -> (r: Option<Vec<u8>>)
        requires
            self.wf(),
        ensures
            match r {
                Some(bytes) => piece_index < self.count() && self.piece_done(piece_index as int)
                    && offset + length <= self.plen(piece_index as int) && bytes@ == self.pieces@[
                    piece_index as int
                ].buffer@.subrange(offset as int, offset + length),
                None => piece_index >= self.count() || !self.piece_done(piece_index as int)
                    || offset + length > self.plen(piece_index as int),
            },
    {
        let n = self.pieces.len();
        if piece_index as usize >= n {
            return None;
        }
        let i = piece_index as usize;
        if !matches!(self.pieces[i].status, PieceStatus::Complete) {
            return None;
        }
        let plen_i = self.piece_len(piece_index);
        if offset as u128 + length as u128 > plen_i as u128 {
            return None;
        }
        Some(crate::bytes::copy_range(&self.pieces[i].buffer, offset as usize, offset as usize + length as usize))
    }
}

/// A piece is `Complete` only behind the verification gate: its assembled
/// buffer's digest is the expected one, and every block of it was written.
pub proof fn lemma_complete_is_verified(d: Download, i: int)
    requires
        d.wf(),
        0 <= i < d.count(),
        d.piece_done(i),
    ensures
        sha1_of(d.pieces@[i].buffer@) == d.piece_hashes@[i]@,
        all_true(d.pieces@[i].blocks@),
        d.local@[i],
{
}

/// Writes into disjoint ranges of a buffer commute.
pub proof fn lemma_splice_commutes(buf: Seq<u8>, off1: int, d1: Seq<u8>, off2: int, d2: Seq<u8>)
    requires
        0 <= off1,
        off1 + d1.len() <= off2,
        off2 + d2.len() <= buf.len(),
    ensures
        splice(splice(buf, off1, d1), off2, d2) == splice(splice(buf, off2, d2), off1, d1),
{
    assert(splice(splice(buf, off1, d1), off2, d2) =~= splice(splice(buf, off2, d2), off1, d1));
}

/// Two block writes into the same piece that each leave it still
/// incomplete commute: the ledger ends in the same observable state
/// whichever of the two arrives first. With `receive_step` fixing every
/// single write exactly, this is the order-independence of block delivery
/// up to the final, verifying write.
pub proof fn lemma_stored_writes_commute(
    pre: Download,
    a: Download,
    ab: Download,
    b: Download,
    ba: Download,
    i: u32,
    off1: u32,
    d1: Seq<u8>,
    off2: u32,
    d2: Seq<u8>,
)
    requires
        pre.wf(),
        i < pre.count(),
        !pre.piece_done(i as int),
        off1 < pre.plen(i as int),
        off2 < pre.plen(i as int),
        off1 + d1.len() <= off2,
        off2 + d2.len() <= pre.plen(i as int),
        off1 as int / (BLOCK_BYTES as int) != off2 as int / (BLOCK_BYTES as int),
        receive_step(
            pre,
            a,
            Ok::<ReceiveOutcome, LedgerError>(ReceiveOutcome::Stored),
            i,
            off1,
            d1,
        ),
        receive_step(
            a,
            ab,
            Ok::<ReceiveOutcome, LedgerError>(ReceiveOutcome::Stored),
            i,
            off2,
            d2,
        ),
        receive_step(
            pre,
            b,
            Ok::<ReceiveOutcome, LedgerError>(ReceiveOutcome::Stored),
            i,
            off2,
            d2,
        ),
        receive_step(
            b,
            ba,
            Ok::<ReceiveOutcome, LedgerError>(ReceiveOutcome::Stored),
            i,
            off1,
            d1,
        ),
    ensures
        ab.local@ == ba.local@,
        forall|k: int| 0 <= k < pre.count() && k != i ==> ab.pieces@[k] == ba.pieces@[k],
        ab.pieces@[i as int].status == ba.pieces@[i as int].status,
        ab.pieces@[i as int].buffer@ == ba.pieces@[i as int].buffer@,
        ab.pieces@[i as int].blocks@ == ba.pieces@[i as int].blocks@,
{
    let ii = i as int;
    let buf0 = pre.pieces@[ii].buffer@;
    let bl0 = pre.pieces@[ii].blocks@;
    let b1 = off1 as int / (BLOCK_BYTES as int);
    let b2 = off2 as int / (BLOCK_BYTES as int);
    assert(a.pieces@[ii].buffer@ == splice(buf0, off1 as int, d1));
    assert(a.pieces@[ii].buffer@.len() == buf0.len());
    assert(ab.pieces@[ii].buffer@ == splice(splice(buf0, off1 as int, d1), off2 as int, d2));
    assert(b.pieces@[ii].buffer@ == splice(buf0, off2 as int, d2));
    assert(b.pieces@[ii].buffer@.len() == buf0.len());
    assert(ba.pieces@[ii].buffer@ == splice(splice(buf0, off2 as int, d2), off1 as int, d1));
    lemma_splice_commutes(buf0, off1 as int, d1, off2 as int, d2);
    assert(ab.pieces@[ii].blocks@ =~= ba.pieces@[ii].blocks@) by {
        assert(ab.pieces@[ii].blocks@ == bl0.update(b1, true).update(b2, true));
        assert(ba.pieces@[ii].blocks@ == bl0.update(b2, true).update(b1, true));
    }
}

/// Some entry of `excl` names piece `p` at byte offset `off`.
pub open spec fn excluded(excl: Seq<BlockRequest>, p: int, off: int) -> bool {
    exists|k: int| 0 <= k < excl.len() && (#[trigger] excl[k]).piece == p && excl[k].offset == off
}

/// Whether some entry of `exclude` names (`piece`, `off`).
fn is_excluded(exclude: &Vec<BlockRequest>, piece: u32, off: u32) -> (r: bool)
    ensures
        r == excluded(exclude@, piece as int, off as int),
{
    let n = exclude.len();
    let mut k: usize = 0;
    while k < n
        invariant
            n == exclude@.len(),
            k <= n,
            forall|j: int|
                0 <= j < k ==> !((#[trigger] exclude@[j]).piece == piece && exclude@[j].offset
                    == off),
        decreases n - k,
    {
        if exclude[k].piece == piece && exclude[k].offset == off {
            proof {
                assert((exclude@[k as int]).piece == piece && exclude@[k as int].offset == off);
            }
            return true;
        }
        k = k + 1;
    }
    false
}

impl Download {
    /// Byte length of block `b` of piece `p`: the block size, except the
    /// piece's last block, which holds the remainder.
    pub open spec fn block_len_at(&self, p: int, b: int) -> int {
        if (b + 1) * (BLOCK_BYTES as int) <= self.plen(p) {
            BLOCK_BYTES as int
        } else {
            self.plen(p) - b * (BLOCK_BYTES as int)
        }
    }

    /// Block `b` of piece `p` could be requested: the remote peer has the
    /// piece, the piece is not `Complete`, the block is not yet written, and
    /// no in-flight request in `excl` already names it.
    pub open spec fn assignable(
        &self,
        remote: Seq<bool>,
        excl: Seq<BlockRequest>,
        p: int,
        b: int,
    ) -> bool {
        &&& 0 <= p < self.count()
        &&& 0 <= b < blocks_in(self.plen(p))
        &&& remote[p]
        &&& !self.piece_done(p)
        &&& !self.pieces@[p].blocks@[b]
        &&& !excluded(excl, p, b * (BLOCK_BYTES as int))
    }

    /// Lowest unwritten, unexcluded block of piece `piece_index`, with its
    /// wire offset and length.
    fn first_needed_block(&self, piece_index: u32, exclude: &Vec<BlockRequest>) -> (r: Option<
        BlockRequest,
    >)
        requires
            self.wf(),
            piece_index < self.count(),
        ensures
            match r {
                Some(req) => {
                    let p = piece_index as int;
                    let b = req.offset as int / (BLOCK_BYTES as int);
                    &&& req.piece == piece_index
                    &&& 0 <= b < blocks_in(self.plen(p))
                    &&& req.offset == b * (BLOCK_BYTES as int)
                    &&& req.length == self.block_len_at(p, b)
                    &&& !self.pieces@[p].blocks@[b]
                    &&& !excluded(exclude@, p, b * (BLOCK_BYTES as int))
                    &&& forall|b2: int|
                        0 <= b2 < b ==> (self.pieces@[p].blocks@[b2] || excluded(
                            exclude@,
                            p,
                            b2 * (BLOCK_BYTES as int),
                        ))
                },
                None => forall|b: int|
                    0 <= b < blocks_in(self.plen(piece_index as int))
                        ==> (self.pieces@[piece_index as int].blocks@[b] || excluded(
                        exclude@,
                        piece_index as int,
                        b * (BLOCK_BYTES as int),
                    )),
            },
    {
        let p = piece_index as usize;
        let plen_p: u64 = self.piece_len(piece_index);
        let nb = self.pieces[p].blocks.len();
        proof {
            assert(nb == blocks_in(self.plen(p as int)));
            assert((nb - 1) * (BLOCK_BYTES as int) < self.plen(p as int)) by (nonlinear_arith)
                requires
                    nb == (self.plen(p as int) + BLOCK_BYTES - 1) / (BLOCK_BYTES as int),
                    BLOCK_BYTES == 16384,
                    self.plen(p as int) >= 1,
            ;
        }
        let mut b: usize = 0;
        while b < nb
            invariant
                self.wf(),
                p == piece_index,
                piece_index < self.count(),
                plen_p == self.plen(p as int),
                1 <= plen_p <= self.piece_length,
                nb == self.pieces@[p as int].blocks@.len(),
                nb == blocks_in(self.plen(p as int)),
                (nb - 1) * (BLOCK_BYTES as int) < self.plen(p as int),
                b <= nb,
                forall|b2: int|
                    0 <= b2 < b ==> (self.pieces@[p as int].blocks@[b2] || excluded(
                        exclude@,
                        p as int,
                        b2 * (BLOCK_BYTES as int),
                    )),
            decreases nb - b,
        {
            proof {
                assert(b * (BLOCK_BYTES as int) <= (nb - 1) * (BLOCK_BYTES as int))
                    by (nonlinear_arith)
                    requires
                        b <= nb - 1,
                        BLOCK_BYTES == 16384,
                ;
            }
            let start: u64 = b as u64 * BLOCK_BYTES as u64;
            if !self.pieces[p].blocks.get(b) && !is_excluded(exclude, piece_index, start as u32) {
                let length: u64 = if start + BLOCK_BYTES as u64 <= plen_p {
                    BLOCK_BYTES as u64
                } else {
                    plen_p - start
                };
                proof {
                    assert(start as int / (BLOCK_BYTES as int) == b as int) by (nonlinear_arith)
                        requires
                            start == b * (BLOCK_BYTES as int),
                            BLOCK_BYTES == 16384,
                    ;
                }
                return Some(
                    BlockRequest {
                        piece: piece_index,
                        offset: start as u32,
                        length: length as u32,
                    },
                );
            }
            b = b + 1;
        }
        None
    }

    /// Piece `p` has some block that could be requested.
    pub open spec fn has_assignable(
        &self,
        remote: Seq<bool>,
        excl: Seq<BlockRequest>,
        p: int,
    ) -> bool {
        exists|b: int| self.assignable(remote, excl, p, b)
    }

    /// Blocks of piece `p` not yet written.
    pub open spec fn remaining_blocks(&self, p: int) -> int {
        blocks_in(self.plen(p)) - count_set(self.pieces@[p].blocks@)
    }

    /// Selection query: the next block to request, or `None` if nothing is
    /// assignable. Among the remote peer's pieces that are not yet
    /// `Complete` it prefers a piece with the fewest remaining blocks, and
    /// within a piece the lowest uncompleted offset; blocks already named
    /// by `exclude` are skipped.
    pub fn next_needed_block(&self, remote: &Bitfield, exclude: &Vec<BlockRequest>) -> (r: Option<
        BlockRequest,
    >)
        requires
            self.wf(),
            remote@.len() == self.count(),
        ensures
            match r {
                Some(req) => {
                    let p = req.piece as int;
                    let b = req.offset as int / (BLOCK_BYTES as int);
                    &&& self.assignable(remote@, exclude@, p, b)
                    &&& req.offset == b * (BLOCK_BYTES as int)
                    &&& req.length == self.block_len_at(p, b)
                    &&& forall|b2: int| 0 <= b2 < b ==> !self.assignable(remote@, exclude@, p, b2)
                    &&& forall|p2: int|
                        #[trigger] self.has_assignable(remote@, exclude@, p2)
                            ==> self.remaining_blocks(p2) >= self.remaining_blocks(p)
                },
                None => forall|p: int, b: int| !self.assignable(remote@, exclude@, p, b),
            },
            r is Some ==> !self.piece_done(r->Some_0.piece as int),
            r is Some ==> !excluded(exclude@, r->Some_0.piece as int, r->Some_0.offset as int),
            (forall|p: int| 0 <= p < self.count() && remote@[p] ==> self.piece_done(p)) ==> r
                is None,
    {
        let n = self.pieces.len();
        let mut best: Option<BlockRequest> = None;
        let mut best_rem: u64 = 0;
        let mut p: usize = 0;
        while p < n
            invariant
                self.wf(),
                remote@.len() == n as int,
                n == self.pieces@.len(),
                p <= n,
                match best {
                    Some(req) => {
                        let bp = req.piece as int;
                        let bb = req.offset as int / (BLOCK_BYTES as int);
                        &&& self.assignable(remote@, exclude@, bp, bb)
                        &&& req.offset == bb * (BLOCK_BYTES as int)
                        &&& req.length == self.block_len_at(bp, bb)
                        &&& forall|b2: int|
                            0 <= b2 < bb ==> !self.assignable(remote@, exclude@, bp, b2)
                        &&& best_rem == self.remaining_blocks(bp)
                        &&& forall|p2: int|
                            p2 < p && #[trigger] self.has_assignable(remote@, exclude@, p2)
                                ==> self.remaining_blocks(p2) >= best_rem
                    },
                    None => forall|p2: int, b2: int|
                        p2 < p ==> !self.assignable(remote@, exclude@, p2, b2),
                },
            decreases n - p,
        {
            let eligible = remote.get(p) && !matches!(
                self.pieces[p].status,
                PieceStatus::Complete,
            );
            if eligible {
                match self.first_needed_block(p as u32, exclude) {
                    Some(req) => {
                        let nbu = self.pieces[p].blocks.len();
                        let setc = self.pieces[p].blocks.count();
                        proof {
                            crate::bitfield::lemma_count_set_bound(
                                self.pieces@[p as int].blocks@,
                            );
                            let b = req.offset as int / (BLOCK_BYTES as int);
                            assert(self.assignable(remote@, exclude@, p as int, b));
                            assert(self.has_assignable(remote@, exclude@, p as int));
                        }
                        let rem = (nbu - setc) as u64;
                        let replace = match best {
                            Some(_) => rem < best_rem,
                            None => true,
                        };
                        if replace {
                            best = Some(req);
                            best_rem = rem;
                        }
                    },
                    None => {
                        proof {
                            assert forall|b: int| !self.assignable(
                                remote@,
                                exclude@,
                                p as int,
                                b,
                            ) by {
                                if 0 <= b < blocks_in(self.plen(p as int)) {
                                    assert(self.pieces@[p as int].blocks@[b] || excluded(
                                        exclude@,
                                        p as int,
                                        b * (BLOCK_BYTES as int),
                                    ));
                                }
                            }
                            assert(!self.has_assignable(remote@, exclude@, p as int));
                        }
                    },
                }
            } else {
                proof {
                    assert forall|b: int| !self.assignable(remote@, exclude@, p as int, b) by {}
                    assert(!self.has_assignable(remote@, exclude@, p as int));
                }
            }
            p = p + 1;
        }
        best
    }
}

} // verus!
