//! Connection manager: owns the piece ledger and the peer pool, and
//! decides when the download is complete or has run out of usable peers.

use vstd::prelude::*;

use crate::download::{Download, TorrentMetadata};
use crate::messages::Handshake;
use crate::session::PeerSession;
use crate::tracker::Peer;

verus! {

/// Aggregate outcome the caller observes: still working, everything
/// verified and complete, or no usable peers left before completion.
#[derive(Clone, Copy, PartialEq, Eq, Structural, Debug)]
pub enum ManagerStatus {
    InProgress,
    Complete,
    NoUsablePeers,
}

/// Owns the ledger and the pool bookkeeping; sessions hold a shared
/// reference to the ledger, and the ledger knows nothing of sessions.
pub struct ConnectionManager {
    pub download: Download,
    pub queued: Vec<Peer>,
    pub active_sessions: usize,
    pub info_hash: Vec<u8>,
    pub peer_id: Vec<u8>,
}

impl ConnectionManager {
    pub open spec fn wf(&self) -> bool {
        &&& self.download.wf()
        &&& self.info_hash@.len() == 20
        &&& self.peer_id@.len() == 20
    }

    /// Build the ledger for `meta` and an empty peer pool.
    pub fn new(meta: &TorrentMetadata, peer_id: Vec<u8>) -> (r: ConnectionManager)
        requires
            meta.wf(),
            peer_id@.len() == 20,
        ensures
            r.wf(),
            r.download.count() == meta.piece_hashes@.len(),
            forall|i: int| 0 <= i < r.download.count() ==> !r.download.piece_done(i),
            r.queued@.len() == 0,
            r.active_sessions == 0,
            r.info_hash@ == meta.info_hash@,
            r.peer_id@ == peer_id@,
    {
        ConnectionManager {
            download: Download::initialize(meta),
            queued: Vec::new(),
            active_sessions: 0,
            info_hash: crate::download::clone_bytes(&meta.info_hash),
            peer_id,
        }
    }

    /// Enqueue a peer address for connection; never blocks.
    pub fn add_peer(&mut self, peer: Peer)
        requires
            old(self).queued@.len() < usize::MAX,
        ensures
            final(self).queued@ == old(self).queued@.push(peer),
            final(self).download == old(self).download,
            final(self).active_sessions == old(self).active_sessions,
            final(self).info_hash@ == old(self).info_hash@,
            final(self).peer_id@ == old(self).peer_id@,
    {
        self.queued.push(peer);
    }

    /// Dequeue the next address to connect to, if any.
    pub fn take_next_peer(&mut self) -> (r: Option<Peer>)
        ensures
            final(self).download == old(self).download,
            final(self).active_sessions == old(self).active_sessions,
            final(self).info_hash@ == old(self).info_hash@,
            final(self).peer_id@ == old(self).peer_id@,
            old(self).queued@.len() == 0 ==> r is None && final(self).queued@ == old(
                self,
            ).queued@,
            old(self).queued@.len() > 0 ==> r is Some && final(self).queued@ == old(
                self,
            ).queued@.drop_first(),
    {
        if self.queued.len() == 0 {
            None
        } else {
            let p = self.queued.remove(0);
            proof {
                assert(self.queued@ =~= old(self).queued@.drop_first());
            }
            Some(p)
        }
    }

    /// The handshake every session of this manager sends.
    pub fn handshake(&self) -> (r: Handshake)
        requires
            self.wf(),
        ensures
            r.wf(),
            r.info_hash@ == self.info_hash@,
            r.peer_id@ == self.peer_id@,
    {
        Handshake {
            info_hash: crate::download::clone_bytes(&self.info_hash),
            peer_id: crate::download::clone_bytes(&self.peer_id),
        }
    }

    /// A fresh session bound to this manager's ledger geometry.
    pub fn new_session(&self) -> (r: PeerSession)
        requires
            self.wf(),
        ensures
            r.wf(self.download.count()),
            r.phase == crate::session::SessionPhase::Handshaking,
            r.inflight@.len() == 0,
    {
        PeerSession::new(self.download.pieces.len())
    }

    /// A connection completed its handshake and its session now runs.
    pub fn session_started(&mut self)
        requires
            old(self).active_sessions < usize::MAX,
        ensures
            final(self).active_sessions == old(self).active_sessions + 1,
            final(self).download == old(self).download,
            final(self).queued@ == old(self).queued@,
            final(self).info_hash@ == old(self).info_hash@,
            final(self).peer_id@ == old(self).peer_id@,
    {
        self.active_sessions = self.active_sessions + 1;
    }

    /// A session closed, on any exit path.
    pub fn session_closed(&mut self)
        requires
            old(self).active_sessions >= 1,
        ensures
            final(self).active_sessions == old(self).active_sessions - 1,
            final(self).download == old(self).download,
            final(self).queued@ == old(self).queued@,
            final(self).info_hash@ == old(self).info_hash@,
            final(self).peer_id@ == old(self).peer_id@,
    {
        self.active_sessions = self.active_sessions - 1;
    }

    /// What the whole download looks like now: `Complete` iff every piece
    /// verified; `NoUsablePeers` iff incomplete but no session runs and no
    /// address is left to try; `InProgress` otherwise.
    pub fn status(&self) -> (r: ManagerStatus)
        requires
            self.wf(),
        ensures
            r == ManagerStatus::Complete <==> (forall|i: int|
                0 <= i < self.download.count() ==> self.download.piece_done(i)),
            r == ManagerStatus::NoUsablePeers <==> (!(forall|i: int|
                0 <= i < self.download.count() ==> self.download.piece_done(i))
                && self.active_sessions == 0 && self.queued@.len() == 0),
    {
        if self.download.is_complete() {
            ManagerStatus::Complete
        } else if self.active_sessions == 0 && self.queued.len() == 0 {
            ManagerStatus::NoUsablePeers
        } else {
            ManagerStatus::InProgress
        }
    }
}

} // verus!
