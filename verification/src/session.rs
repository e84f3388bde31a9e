//! Peer session: the per-connection protocol state machine. It owns the
//! choke/interest flags, the remote peer's advertised bitfield, and the
//! pipelined in-flight request set, and drives block requests against the
//! piece ledger.

use vstd::prelude::*;

use crate::bitfield::{packed_len, Bitfield};
use crate::download::{excluded, BlockRequest, Download, LedgerError, ReceiveOutcome};
use crate::messages::{Frame, FrameView, WireError};

verus! {

/// Most block requests a session keeps outstanding at once.
pub const PIPELINE_DEPTH: usize = 5;

/// Why a session closes.
#[derive(Clone, Copy, PartialEq, Eq, Structural, Debug)]
pub enum SessionError {
    /// A `piece` arrived that matches no in-flight request.
    UnsolicitedPiece,
    /// A `have` or `bitfield` message does not fit the piece count.
    BadPieceIndex,
    /// A codec-level protocol violation.
    Protocol(WireError),
    /// The ledger refused the forwarded block.
    Ledger(LedgerError),
    /// No bytes arrived within the configured idle window.
    Timeout,
}

/// Connection phase of a session.
#[derive(Clone, Copy, PartialEq, Eq, Structural, Debug)]
pub enum SessionPhase {
    Connecting,
    Handshaking,
    Established,
    Closed,
}

/// No two in-flight entries name the same (piece, offset).
pub open spec fn no_dup(infl: Seq<BlockRequest>) -> bool {
    forall|a: int, b: int|
        0 <= a < b < infl.len() ==> !((#[trigger] infl[a]).piece == (#[trigger] infl[b]).piece
            && infl[a].offset == infl[b].offset)
}

/// The remote side offers some piece the local side lacks.
pub open spec fn useful(remote: Seq<bool>, local: Seq<bool>) -> bool {
    exists|i: int| 0 <= i < remote.len() && #[trigger] remote[i] && !local[i]
}

/// The reply an interest update owes: `interested` when the remote has a
/// piece we lack and we were not interested; `not_interested` when it
/// offers nothing useful, we were interested, and the pipeline has
/// drained; nothing otherwise.
pub open spec fn interest_reply(
    remote: Seq<bool>,
    local: Seq<bool>,
    am_interested: bool,
    inflight_len: int,
) -> Option<FrameView> {
    if useful(remote, local) && !am_interested {
        Some(FrameView::Interested)
    } else if !useful(remote, local) && am_interested && inflight_len == 0 {
        Some(FrameView::NotInterested)
    } else {
        None
    }
}

/// No block at all is assignable from `d` against `remote` and `infl`.
pub open spec fn nothing_assignable(d: Download, remote: Seq<bool>, infl: Seq<BlockRequest>) -> bool {
    forall|p: int, b: int| !d.assignable(remote, infl, p, b)
}

/// Whether `remote` advertises a piece that `local` lacks.
fn has_useful_piece(remote: &Bitfield, local: &Bitfield) -> (r: bool)
    requires
        remote@.len() == local@.len(),
    ensures
        r == useful(remote@, local@),
{
    let n = remote.len();
    let mut i: usize = 0;
    while i < n
        invariant
            n == remote@.len(),
            n == local@.len(),
            i <= n,
            forall|k: int| 0 <= k < i ==> !(#[trigger] remote@[k] && !local@[k]),
        decreases n - i,
    {
        if remote.get(i) && !local.get(i) {
            proof {
                assert(remote@[i as int] && !local@[i as int]);
            }
            return true;
        }
        i = i + 1;
    }
    false
}

/// Per-connection protocol state. The four flags all begin
/// `am_choking = true, am_interested = false, peer_choking = true,
/// peer_interested = false`.
pub struct PeerSession {
    pub phase: SessionPhase,
    pub am_choking: bool,
    pub am_interested: bool,
    pub peer_choking: bool,
    pub peer_interested: bool,
    pub remote: Bitfield,
    pub inflight: Vec<BlockRequest>,
}

impl PeerSession {
    /// Session invariant against a ledger of `count` pieces: the remote
    /// bitfield is sized to the piece count, the in-flight set never exceeds
    /// the pipeline depth, no (piece, offset) is in flight twice, and every
    /// in-flight request names a known piece.
    pub open spec fn wf(&self, count: int) -> bool {
        &&& self.remote@.len() == count
        &&& self.inflight@.len() <= PIPELINE_DEPTH
        &&& no_dup(self.inflight@)
        &&& forall|k: int| 0 <= k < self.inflight@.len() ==> (#[trigger] self.inflight@[k]).piece < count
    }

    /// A fresh session for a just-connected peer: default flags, an empty
    /// remote bitfield over `piece_count` pieces, nothing in flight.
    pub fn new(piece_count: usize) -> (r: PeerSession)
        ensures
            r.wf(piece_count as int),
            r.phase == SessionPhase::Handshaking,
            r.am_choking,
            !r.am_interested,
            r.peer_choking,
            !r.peer_interested,
            forall|i: int| 0 <= i < piece_count ==> !r.remote@[i],
            r.inflight@.len() == 0,
    {
        PeerSession {
            phase: SessionPhase::Handshaking,
            am_choking: true,
            am_interested: false,
            peer_choking: true,
            peer_interested: false,
            remote: Bitfield::new(piece_count),
            inflight: Vec::new(),
        }
    }

    /// The handshake exchanged and checked: the session is established.
    pub fn complete_handshake(&mut self)
        requires
            old(self).phase == SessionPhase::Handshaking,
        ensures
            *final(self) == (PeerSession { phase: SessionPhase::Established, ..*old(self) }),
    {
        self.phase = SessionPhase::Established;
    }

    /// Close the session on any exit path; its in-flight requests are
    /// released (the ledger never tracked them, so they become assignable
    /// to any other session at once).
    pub fn close(&mut self)
        ensures
            final(self).phase == SessionPhase::Closed,
            final(self).inflight@.len() == 0,
            final(self).remote@ == old(self).remote@,
    {
        self.phase = SessionPhase::Closed;
        self.inflight = Vec::new();
    }

    /// Remote choked us: every in-flight request of this session is dropped
    /// and becomes reassignable immediately.
    pub fn on_choke(&mut self)
        ensures
            *final(self) == (PeerSession {
                peer_choking: true,
                inflight: final(self).inflight,
                ..*old(self)
            }),
            final(self).inflight@.len() == 0,
    {
        self.peer_choking = true;
        self.inflight = Vec::new();
    }

    /// Remote unchoked us: requests may be issued again.
    pub fn on_unchoke(&mut self)
        ensures
            *final(self) == (PeerSession { peer_choking: false, ..*old(self) }),
    {
        self.peer_choking = false;
    }

    pub fn on_interested(&mut self)
        ensures
            *final(self) == (PeerSession { peer_interested: true, ..*old(self) }),
    {
        self.peer_interested = true;
    }

    pub fn on_not_interested(&mut self)
        ensures
            *final(self) == (PeerSession { peer_interested: false, ..*old(self) }),
    {
        self.peer_interested = false;
    }

    /// After the remote bitfield changed, declare or drop interest: send
    /// `interested` when the remote has a piece we lack and we were not
    /// interested; send `not_interested` when it offers nothing useful, we
    /// were interested, and the pipeline has drained.
    pub fn update_interest(&mut self, local: &Bitfield) -> (r: Option<Frame>)
        requires
            local@.len() == old(self).remote@.len(),
        ensures
            final(self).remote@ == old(self).remote@,
            final(self).phase == old(self).phase,
            final(self).am_choking == old(self).am_choking,
            final(self).peer_choking == old(self).peer_choking,
            final(self).peer_interested == old(self).peer_interested,
            final(self).inflight@ == old(self).inflight@,
            ({
                let ir = interest_reply(
                    old(self).remote@,
                    local@,
                    old(self).am_interested,
                    old(self).inflight@.len() as int,
                );
                &&& (ir matches Some(v) ==> (r matches Some(fr) && fr@ == v) && final(self).am_interested == (v == FrameView::Interested))
                &&& (ir is None ==> r is None && final(self).am_interested == old(self).am_interested)
            }),
    {
        let use_now = has_useful_piece(&self.remote, local);
        if use_now && !self.am_interested {
            self.am_interested = true;
            Some(Frame::Interested)
        } else if !use_now && self.am_interested && self.inflight.len() == 0 {
            self.am_interested = false;
            Some(Frame::NotInterested)
        } else {
            None
        }
    }

    /// Remote announced one more piece: set its bit, then update interest.
    pub fn on_have(&mut self, index: u32, local: &Bitfield) -> (r: Result<
        Option<Frame>,
        SessionError,
    >)
        requires
            local@.len() == old(self).remote@.len(),
        ensures
            index >= old(self).remote@.len() ==> r == Err::<Option<Frame>, SessionError>(
                SessionError::BadPieceIndex,
            ) && *final(self) == *old(self),
            index < old(self).remote@.len() ==> {
                &&& final(self).remote@ == old(self).remote@.update(index as int, true)
                &&& final(self).inflight@ == old(self).inflight@
                &&& final(self).phase == old(self).phase
                &&& final(self).peer_choking == old(self).peer_choking
                &&& final(self).peer_interested == old(self).peer_interested
                &&& final(self).am_choking == old(self).am_choking
                &&& ({
                    let ir = interest_reply(
                        old(self).remote@.update(index as int, true),
                        local@,
                        old(self).am_interested,
                        old(self).inflight@.len() as int,
                    );
                    &&& (ir matches Some(v) ==> (r matches Ok(Some(fr)) && fr@ == v) && final(self).am_interested == (v == FrameView::Interested))
                    &&& (ir is None ==> (r matches Ok(None)) && final(self).am_interested == old(self).am_interested)
                })
            },
    {
        let n = self.remote.len();
        if index as usize >= n {
            return Err(SessionError::BadPieceIndex);
        }
        self.remote.set(index as usize, true);
        Ok(self.update_interest(local))
    }

    /// Remote sent its whole bitfield: replace ours with it (it must pack
    /// exactly the ledger's piece count), then update interest.
    pub fn on_bitfield(&mut self, bits: &Vec<u8>, local: &Bitfield) -> (r: Result<
        Option<Frame>,
        SessionError,
    >)
        requires
            local@.len() == old(self).remote@.len(),
        ensures
            bits@.len() != packed_len(old(self).remote@.len() as int) ==> r == Err::<
                Option<Frame>,
                SessionError,
            >(SessionError::Protocol(WireError::PayloadLengthMismatch)) && *final(self) == *old(self),
            bits@.len() == packed_len(old(self).remote@.len() as int) ==> {
                &&& final(self).remote@.len() == old(self).remote@.len()
                &&& forall|i: int|
                    0 <= i < final(self).remote@.len() ==> final(self).remote@[i]
                        == crate::bitfield::bit_of_byte(bits@[i / 8], (i % 8) as u8)
                &&& final(self).inflight@ == old(self).inflight@
                &&& final(self).phase == old(self).phase
                &&& final(self).peer_choking == old(self).peer_choking
                &&& final(self).peer_interested == old(self).peer_interested
                &&& final(self).am_choking == old(self).am_choking
                &&& ({
                    let ir = interest_reply(
                        final(self).remote@,
                        local@,
                        old(self).am_interested,
                        old(self).inflight@.len() as int,
                    );
                    &&& (ir matches Some(v) ==> (r matches Ok(Some(fr)) && fr@ == v) && final(self).am_interested == (v == FrameView::Interested))
                    &&& (ir is None ==> (r matches Ok(None)) && final(self).am_interested == old(self).am_interested)
                })
            },
    {
        let n = self.remote.len();
        let expected: u128 = (n as u128 + 7) / 8;
        if bits.len() as u128 != expected {
            return Err(SessionError::Protocol(WireError::PayloadLengthMismatch));
        }
        self.remote = Bitfield::from_bytes(bits, n);
        Ok(self.update_interest(local))
    }

    /// While unchoked and interested and the pipeline is below its depth,
    /// ask the ledger for blocks (excluding what is already in flight) and
    /// queue `request` messages, until the ledger has nothing more or the
    /// pipeline is full.
    pub fn fill_pipeline(&mut self, d: &Download) -> (reqs: Vec<Frame>)
        requires
            d.wf(),
            old(self).wf(d.count()),
        ensures
            final(self).wf(d.count()),
            final(self).phase == old(self).phase,
            final(self).am_choking == old(self).am_choking,
            final(self).am_interested == old(self).am_interested,
            final(self).peer_choking == old(self).peer_choking,
            final(self).peer_interested == old(self).peer_interested,
            final(self).remote == old(self).remote,
            final(self).inflight@.len() <= PIPELINE_DEPTH,
            old(self).peer_choking || !old(self).am_interested ==> final(self).inflight@ == old(self).inflight@ && reqs@.len() == 0,
            !old(self).peer_choking && old(self).am_interested ==> final(self).inflight@.len()
                == PIPELINE_DEPTH || nothing_assignable(
                *d,
                old(self).remote@,
                final(self).inflight@,
            ),
            final(self).inflight@.subrange(0, old(self).inflight@.len() as int) == old(self).inflight@,
            reqs@.len() == final(self).inflight@.len() - old(self).inflight@.len(),
            forall|k: int|
                0 <= k < reqs@.len() ==> (#[trigger] reqs@[k])@ == (FrameView::Request {
                    index: final(self).inflight@[old(self).inflight@.len() + k].piece,
                    offset: final(self).inflight@[old(self).inflight@.len() + k].offset,
                    length: final(self).inflight@[old(self).inflight@.len() + k].length,
                }),
            forall|k: int|
                old(self).inflight@.len() <= k < final(self).inflight@.len() ==> !d.piece_done(
                    (#[trigger] final(self).inflight@[k]).piece as int,
                ),
    {
        let ghost infl0 = self.inflight@;
        let mut reqs: Vec<Frame> = Vec::new();
        if self.peer_choking || !self.am_interested {
            proof {
                assert(self.inflight@.subrange(0, infl0.len() as int) =~= infl0);
            }
            return reqs;
        }
        while self.inflight.len() < PIPELINE_DEPTH
            invariant
                d.wf(),
                self.wf(d.count()),
                infl0 == old(self).inflight@,
                !old(self).peer_choking,
                old(self).am_interested,
                self.phase == old(self).phase,
                self.am_choking == old(self).am_choking,
                self.am_interested == old(self).am_interested,
                self.peer_choking == old(self).peer_choking,
                self.peer_interested == old(self).peer_interested,
                self.remote == old(self).remote,
                infl0.len() <= self.inflight@.len(),
                self.inflight@.subrange(0, infl0.len() as int) == infl0,
                reqs@.len() == self.inflight@.len() - infl0.len(),
                forall|k: int|
                    0 <= k < reqs@.len() ==> (#[trigger] reqs@[k])@ == (FrameView::Request {
                        index: self.inflight@[infl0.len() + k].piece,
                        offset: self.inflight@[infl0.len() + k].offset,
                        length: self.inflight@[infl0.len() + k].length,
                    }),
                forall|k: int|
                    infl0.len() <= k < self.inflight@.len() ==> !d.piece_done(
                        (#[trigger] self.inflight@[k]).piece as int,
                    ),
            decreases PIPELINE_DEPTH - self.inflight.len(),
        {
            let next = d.next_needed_block(&self.remote, &self.inflight);
            match next {
                Some(req) => {
                    let ghost before = self.inflight@;
                    proof {
                        assert forall|a: int, b: int|
                            0 <= a < b < before.push(req).len() implies !((#[trigger] before.push(
                            req,
                        )[a]).piece == (#[trigger] before.push(req)[b]).piece && before.push(
                            req,
                        )[a].offset == before.push(req)[b].offset) by {
                            if b == before.len() as int {
                                if before[a].piece == req.piece && before[a].offset == req.offset {
                                    assert(excluded(before, req.piece as int, req.offset as int));
                                }
                            }
                        }
                        assert(before.push(req).subrange(0, infl0.len() as int) =~= before.subrange(
                            0,
                            infl0.len() as int,
                        ));
                    }
                    self.inflight.push(req);
                    reqs.push(
                        Frame::Request { index: req.piece, offset: req.offset, length: req.length },
                    );
                },
                None => {
                    return reqs;
                },
            }
        }
        reqs
    }

    /// Match an arriving `piece` against the in-flight set: remove the
    /// matching request, or report the piece as unsolicited (a protocol
    /// violation that closes the connection).
    pub fn match_incoming_piece(&mut self, index: u32, offset: u32) -> (r: Result<
        (),
        SessionError,
    >)
        ensures
            final(self).phase == old(self).phase,
            final(self).am_choking == old(self).am_choking,
            final(self).am_interested == old(self).am_interested,
            final(self).peer_choking == old(self).peer_choking,
            final(self).peer_interested == old(self).peer_interested,
            final(self).remote@ == old(self).remote@,
            !excluded(old(self).inflight@, index as int, offset as int) ==> r == Err::<
                (),
                SessionError,
            >(SessionError::UnsolicitedPiece) && *final(self) == *old(self),
            excluded(old(self).inflight@, index as int, offset as int) ==> r == Ok::<
                (),
                SessionError,
            >(()) && exists|k: int|
                0 <= k < old(self).inflight@.len() && (#[trigger] old(self).inflight@[k]).piece
                    == index && old(self).inflight@[k].offset == offset && final(self).inflight@
                    == old(self).inflight@.remove(k),
    {
        let n = self.inflight.len();
        let mut k: usize = 0;
        while k < n
            invariant
                n == self.inflight@.len(),
                k <= n,
                *self == *old(self),
                forall|j: int|
                    0 <= j < k ==> !((#[trigger] self.inflight@[j]).piece == index
                        && self.inflight@[j].offset == offset),
            decreases n - k,
        {
            if self.inflight[k].piece == index && self.inflight[k].offset == offset {
                proof {
                    assert((self.inflight@[k as int]).piece == index && self.inflight@[
                        k as int
                    ].offset == offset);
                }
                self.inflight.remove(k);
                return Ok(());
            }
            k = k + 1;
        }
        proof {
            assert forall|j: int|
                0 <= j < self.inflight@.len() implies !((#[trigger] self.inflight@[j]).piece
                == index && self.inflight@[j].offset == offset) by {}
        }
        Err(SessionError::UnsolicitedPiece)
    }
}

impl PeerSession {
    /// Dispatch one received frame against the shared ledger: update the
    /// session state, forward `piece` payloads to the ledger, serve upload
    /// `request`s while not choking, and return the frames to send back.
    /// An `Err` is fatal to this session only: the driver closes it.
    #[verifier::rlimit(100)]
    #[verifier::spinoff_prover]
    pub fn handle_frame(&mut self, d: &mut Download, f: &Frame) -> (r: Result<
        Vec<Frame>,
        SessionError,
    >)
        requires
            old(d).wf(),
            old(self).wf(old(d).count()),
            old(self).phase == SessionPhase::Established,
        ensures
            final(d).wf(),
            final(d).count() == old(d).count(),
            final(d).piece_length == old(d).piece_length,
            final(d).total_length == old(d).total_length,
            final(d).piece_hashes@ == old(d).piece_hashes@,
            final(self).wf(final(d).count()),
            final(self).phase == SessionPhase::Established,
            f@ is KeepAlive ==> *final(self) == *old(self) && *final(d) == *old(d) && (r matches
            Ok(replies) && replies@.len() == 0),
            f@ is Choke ==> (*final(self) == (PeerSession {
                peer_choking: true,
                inflight: final(self).inflight,
                ..*old(self)
            })) && final(self).inflight@.len() == 0 && *final(d) == *old(d) && (r matches
            Ok(replies) && replies@.len() == 0),
            f@ is Unchoke ==> ({
                &&& (*final(self) == (PeerSession {
                    peer_choking: false,
                    inflight: final(self).inflight,
                    ..*old(self)
                }))
                &&& *final(d) == *old(d)
                &&& final(self).inflight@.subrange(0, old(self).inflight@.len() as int) == old(self).inflight@
                &&& (!old(self).am_interested ==> final(self).inflight@ == old(self).inflight@)
                &&& (old(self).am_interested ==> final(self).inflight@.len() == PIPELINE_DEPTH
                    || nothing_assignable(*old(d), old(self).remote@, final(self).inflight@))
                &&& (r matches Ok(replies) && replies@.len() == final(self).inflight@.len() - old(self).inflight@.len() && (forall|k: int|
                    0 <= k < replies@.len() ==> (#[trigger] replies@[k])@ == (FrameView::Request {
                        index: final(self).inflight@[old(self).inflight@.len() + k].piece,
                        offset: final(self).inflight@[old(self).inflight@.len() + k].offset,
                        length: final(self).inflight@[old(self).inflight@.len() + k].length,
                    })))
            }),
            f@ is Interested ==> (*final(self) == (PeerSession {
                peer_interested: true,
                ..*old(self)
            })) && *final(d) == *old(d) && (r matches Ok(replies) && replies@.len() == 0),
            f@ is NotInterested ==> (*final(self) == (PeerSession {
                peer_interested: false,
                ..*old(self)
            })) && *final(d) == *old(d) && (r matches Ok(replies) && replies@.len() == 0),
            f@ matches FrameView::Have { index } ==> *final(d) == *old(d) && (if index >= old(self).remote@.len() {
                r == Err::<Vec<Frame>, SessionError>(SessionError::BadPieceIndex) && *final(self)
                    == *old(self)
            } else {
                let newremote = old(self).remote@.update(index as int, true);
                let ir = interest_reply(
                    newremote,
                    old(d).local@,
                    old(self).am_interested,
                    old(self).inflight@.len() as int,
                );
                let off: int = if ir is Some { 1 } else { 0 };
                &&& final(self).remote@ == newremote
                &&& final(self).am_choking == old(self).am_choking
                &&& final(self).peer_choking == old(self).peer_choking
                &&& final(self).peer_interested == old(self).peer_interested
                &&& final(self).am_interested == (if ir == Some(FrameView::Interested) {
                    true
                } else if ir == Some(FrameView::NotInterested) {
                    false
                } else {
                    old(self).am_interested
                })
                &&& final(self).inflight@.subrange(0, old(self).inflight@.len() as int) == old(self).inflight@
                &&& (!old(self).peer_choking && final(self).am_interested ==> final(self).inflight@.len() == PIPELINE_DEPTH || nothing_assignable(
                    *old(d),
                    newremote,
                    final(self).inflight@,
                ))
                &&& (r matches Ok(replies) && replies@.len() == off + final(self).inflight@.len()
                    - old(self).inflight@.len() && (ir matches Some(v) ==> replies@[0]@ == v) && (
                forall|k: int|
                    off <= k < replies@.len() ==> (#[trigger] replies@[k])@ == (FrameView::Request {
                        index: final(self).inflight@[old(self).inflight@.len() + k - off].piece,
                        offset: final(self).inflight@[old(self).inflight@.len() + k - off].offset,
                        length: final(self).inflight@[old(self).inflight@.len() + k - off].length,
                    })))
            }),
            f@ matches FrameView::Bitfield { bits } ==> *final(d) == *old(d) && (if bits.len()
                != crate::bitfield::packed_len(old(self).remote@.len() as int) {
                r == Err::<Vec<Frame>, SessionError>(
                    SessionError::Protocol(WireError::PayloadLengthMismatch),
                ) && *final(self) == *old(self)
            } else {
                let newremote = Seq::new(
                    old(self).remote@.len(),
                    |i: int| crate::bitfield::bit_of_byte(bits[i / 8], (i % 8) as u8),
                );
                let ir = interest_reply(
                    newremote,
                    old(d).local@,
                    old(self).am_interested,
                    old(self).inflight@.len() as int,
                );
                let off: int = if ir is Some { 1 } else { 0 };
                &&& final(self).remote@ == newremote
                &&& final(self).am_choking == old(self).am_choking
                &&& final(self).peer_choking == old(self).peer_choking
                &&& final(self).peer_interested == old(self).peer_interested
                &&& final(self).am_interested == (if ir == Some(FrameView::Interested) {
                    true
                } else if ir == Some(FrameView::NotInterested) {
                    false
                } else {
                    old(self).am_interested
                })
                &&& final(self).inflight@.subrange(0, old(self).inflight@.len() as int) == old(self).inflight@
                &&& (!old(self).peer_choking && final(self).am_interested ==> final(self).inflight@.len() == PIPELINE_DEPTH || nothing_assignable(
                    *old(d),
                    newremote,
                    final(self).inflight@,
                ))
                &&& (r matches Ok(replies) && replies@.len() == off + final(self).inflight@.len()
                    - old(self).inflight@.len() && (ir matches Some(v) ==> replies@[0]@ == v) && (
                forall|k: int|
                    off <= k < replies@.len() ==> (#[trigger] replies@[k])@ == (FrameView::Request {
                        index: final(self).inflight@[old(self).inflight@.len() + k - off].piece,
                        offset: final(self).inflight@[old(self).inflight@.len() + k - off].offset,
                        length: final(self).inflight@[old(self).inflight@.len() + k - off].length,
                    })))
            }),
            (f@ matches FrameView::Piece { index, offset, .. } && !excluded(
                old(self).inflight@,
                index as int,
                offset as int,
            )) ==> r == Err::<Vec<Frame>, SessionError>(SessionError::UnsolicitedPiece) && *final(self) == *old(self) && *final(d) == *old(d),
            f@ matches FrameView::Piece { index, offset, data } ==> (excluded(
                old(self).inflight@,
                index as int,
                offset as int,
            ) ==> {
                &&& final(self).am_choking == old(self).am_choking
                &&& final(self).peer_choking == old(self).peer_choking
                &&& final(self).peer_interested == old(self).peer_interested
                &&& final(self).remote@ == old(self).remote@
            }),
            f@ matches FrameView::Piece { index, offset, data } ==> (excluded(
                old(self).inflight@,
                index as int,
                offset as int,
            ) ==> (r matches Ok(replies) ==> crate::download::receive_step_ok(
                *old(d),
                *final(d),
                index,
                offset,
                data,
            ))),
            f@ matches FrameView::Piece { index, offset, data } ==> (excluded(
                old(self).inflight@,
                index as int,
                offset as int,
            ) ==> (r matches Ok(replies) ==> ((exists|k: int|
                0 <= k < replies@.len() && (#[trigger] replies@[k])@ == (FrameView::Have {
                    index,
                })) <==> (!old(d).piece_done(index as int) && final(d).piece_done(
                index as int,
            ))))),
            f@ matches FrameView::Piece { index, offset, data } ==> (excluded(
                old(self).inflight@,
                index as int,
                offset as int,
            ) && r is Ok && !old(self).peer_choking && old(self).am_interested ==> final(self).inflight@.len() == PIPELINE_DEPTH || nothing_assignable(
                *final(d),
                old(self).remote@,
                final(self).inflight@,
            )),
            f@ matches FrameView::Piece { index, offset, data } ==> (excluded(
                old(self).inflight@,
                index as int,
                offset as int,
            ) ==> (r matches Err(e) ==> (e matches SessionError::Ledger(le)
                && crate::download::receive_step(
                *old(d),
                *final(d),
                Err::<ReceiveOutcome, LedgerError>(le),
                index,
                offset,
                data,
            ) && *final(d) == *old(d)))),
            f@ matches FrameView::Request { index, offset, length } ==> (!old(self).am_choking
                ==> *final(self) == *old(self) && *final(d) == *old(d) && {
                let served = index < old(d).count() && old(d).piece_done(index as int) && offset
                    + length <= old(d).plen(index as int);
                r matches Ok(replies) && (if served {
                    replies@.len() == 1 && replies@[0]@ == (FrameView::Piece {
                        index,
                        offset,
                        data: old(d).pieces@[index as int].buffer@.subrange(
                            offset as int,
                            offset + length,
                        ),
                    })
                } else {
                    replies@.len() == 0
                })
            }),
            (f@ is Request && old(self).am_choking) ==> *final(self) == *old(self) && *final(d)
                == *old(d) && (r matches Ok(replies) && replies@.len() == 0),
            (f@ is Cancel || f@ is Port) ==> *final(self) == *old(self) && *final(d) == *old(d)
                && (r matches Ok(replies) && replies@.len() == 0),
    {
        match f {
            Frame::KeepAlive => Ok(Vec::new()),
            Frame::Choke => {
                self.on_choke();
                Ok(Vec::new())
            },
            Frame::Unchoke => {
                self.on_unchoke();
                Ok(self.fill_pipeline(d))
            },
            Frame::Interested => {
                self.on_interested();
                Ok(Vec::new())
            },
            Frame::NotInterested => {
                self.on_not_interested();
                Ok(Vec::new())
            },
            Frame::Have { index } => {
                let local = d.local_bitfield();
                match self.on_have(*index, &local) {
                    Ok(opt) => {
                        let mut out: Vec<Frame> = Vec::new();
                        if let Some(fr) = opt {
                            out.push(fr);
                        }
                        let mut reqs = self.fill_pipeline(d);
                        append_frames(&mut out, &mut reqs);
                        Ok(out)
                    },
                    Err(e) => Err(e),
                }
            },
            Frame::Bitfield { bits } => {
                let local = d.local_bitfield();
                match self.on_bitfield(bits, &local) {
                    Ok(opt) => {
                        proof {
                            assert(self.remote@ =~= Seq::new(
                                old(self).remote@.len(),
                                |i: int| crate::bitfield::bit_of_byte(bits@[i / 8], (i % 8) as u8),
                            ));
                        }
                        let mut out: Vec<Frame> = Vec::new();
                        if let Some(fr) = opt {
                            out.push(fr);
                        }
                        let mut reqs = self.fill_pipeline(d);
                        append_frames(&mut out, &mut reqs);
                        Ok(out)
                    },
                    Err(e) => Err(e),
                }
            },
            Frame::Request { index, offset, length } => {
                if self.am_choking {
                    return Ok(Vec::new());
                }
                match d.read_block(*index, *offset, *length) {
                    Some(bytes) => {
                        let mut out: Vec<Frame> = Vec::new();
                        out.push(Frame::Piece { index: *index, offset: *offset, data: bytes });
                        Ok(out)
                    },
                    None => Ok(Vec::new()),
                }
            },
            Frame::Piece { index, offset, data } => {
                match self.match_incoming_piece(*index, *offset) {
                    Ok(()) => {},
                    Err(e) => {
                        return Err(e);
                    },
                }
                let outcome = match d.receive_block(*index, *offset, data) {
                    Ok(oc) => oc,
                    Err(e) => {
                        proof {
                            assert(crate::download::receive_step(
                                *old(d),
                                *d,
                                Err::<ReceiveOutcome, LedgerError>(e),
                                *index,
                                *offset,
                                data@,
                            ));
                            assert(*d == *old(d));
                        }
                        return Err(SessionError::Ledger(e));
                    },
                };
                let mut out: Vec<Frame> = Vec::new();
                if matches!(outcome, ReceiveOutcome::PieceComplete) {
                    out.push(Frame::Have { index: *index });
                }
                let ghost head = out@;
                let mut reqs = self.fill_pipeline(d);
                append_frames(&mut out, &mut reqs);
                // With the pipeline drained and nothing useful left
                // on offer, interest is withdrawn.
                let local = d.local_bitfield();
                let ghost before_interest = out@;
                let tail = self.update_interest(&local);
                let mut out2 = out;
                if let Some(fr) = tail {
                    out2.push(fr);
                }
                proof {
                    assert(crate::download::receive_step(
                        *old(d),
                        *d,
                        Ok::<ReceiveOutcome, LedgerError>(outcome),
                        *index,
                        *offset,
                        data@,
                    ));
                    assert(crate::download::receive_step_ok(*old(d), *d, *index, *offset, data@));
                    if outcome == ReceiveOutcome::PieceComplete {
                        assert(!old(d).piece_done(*index as int) && d.piece_done(*index as int));
                    } else {
                        assert(!(!old(d).piece_done(*index as int) && d.piece_done(
                            *index as int,
                        )));
                    }
                    if !(matches!(outcome, ReceiveOutcome::PieceComplete)) {
                        assert forall|k: int| 0 <= k < out2@.len() implies out2@[k]@ != (
                        FrameView::Have { index: *index }) by {
                            if k < before_interest.len() {
                                if k >= head.len() {
                                    assert(out2@[k]@ is Request);
                                }
                            } else {
                                assert(out2@[k]@ is Interested || out2@[k]@ is NotInterested);
                            }
                        }
                    } else {
                        assert(out2@[0]@ == (FrameView::Have { index: *index }));
                    }
                }
                Ok(out2)
            },
            Frame::Cancel { .. } => Ok(Vec::new()),
            Frame::Port { .. } => Ok(Vec::new()),
        }
    }
}

/// Move every frame of `src` onto the end of `out`.
pub fn append_frames(out: &mut Vec<Frame>, src: &mut Vec<Frame>)
    requires
        old(out)@.len() + old(src)@.len() <= usize::MAX,
    ensures
        final(out)@ == old(out)@ + old(src)@,
{
    let ghost src0 = src@;
    let n = src.len();
    let mut i: usize = 0;
    while i < n
        invariant
            src0 == old(src)@,
            n == src0.len(),
            src@ == src0.subrange(i as int, n as int),
            old(out)@.len() + n <= usize::MAX,
            i <= n,
            out@ == old(out)@ + src0.subrange(0, i as int),
        decreases n - i,
    {
        let fr = src.remove(0);
        out.push(fr);
        proof {
            assert(src@ =~= src0.subrange(i + 1, n as int));
            assert(out@ =~= old(out)@ + src0.subrange(0, i + 1));
        }
        i = i + 1;
    }
    proof {
        assert(src0.subrange(0, n as int) =~= src0);
    }
}

} // verus!
