//! The session table and the dispatcher that routes each inbound datagram.
use vstd::prelude::*;
use vstd::utf8::encode_utf8;
use crate::path::{confined, is_confined};
use crate::stream::{block_offset, total_blocks, ChunkStep, FileStream, BLOCK_SIZE, ERR_READ};
use crate::wire::{decode, decode_spec, encode_error, data_frame, error_frame, DecodeError, Message, MessageView};

verus! {

/// Error code for a file that does not exist.
pub const ERR_NOT_FOUND: u16 = 1;
/// Error code for a file that may not be read, or a name outside the root.
pub const ERR_ACCESS: u16 = 2;
/// Error code for an operation this server does not perform.
pub const ERR_ILLEGAL_OPERATION: u16 = 4;

pub const MSG_NOT_FOUND: &'static str = "File not found";
pub const MSG_ACCESS: &'static str = "Access violation";
pub const MSG_UNSUPPORTED: &'static str = "Operation not supported";

/// The address a datagram came from: an IPv6 address (IPv4 as mapped) and a port.
#[derive(Clone, Copy, Debug, PartialEq, Eq, Structural, Hash)]
pub struct Endpoint {
    pub ip: u128,
    pub port: u16,
}

/// Why a requested file could not be opened.
#[derive(Debug)]
pub enum OpenError {
    NotFound,
    PermissionDenied,
    /// Any other failure, with its description.
    Other(String),
}

/// What the caller does with one inbound datagram.
#[derive(Debug)]
pub enum Dispatch {
    /// Nothing is sent: a stray acknowledgment, or one for a finished transfer.
    Ignore,
    /// The datagram could not be decoded; it is dropped.
    Drop(DecodeError),
    /// Send this frame back to the peer.
    Reply(Vec<u8>),
    /// Open this name below the root for the peer, then call `open_session`
    /// with its length or `open_error_frame` with the failure.
    Open(String),
    /// Read block `block` of the peer's file at `offset` (seeking there first
    /// when `seek` is set), then call `finish_read` with the outcome.
    Read { block: u64, offset: u64, seek: bool },
}

/// The frame that reports a failure to open a requested file.
pub open spec fn open_error_spec(e: OpenError) -> Seq<u8> {
    match e {
        OpenError::NotFound => error_frame(ERR_NOT_FOUND, encode_utf8(MSG_NOT_FOUND@)),
        OpenError::PermissionDenied => error_frame(ERR_ACCESS, encode_utf8(MSG_ACCESS@)),
        OpenError::Other(m) => error_frame(ERR_READ, encode_utf8(m@)),
    }
}

/// Frames the reply to a failed open. No session is created.
pub fn open_error_frame(e: &OpenError) -> (r: Vec<u8>)
    ensures
        r@ == open_error_spec(*e),
{
    match e {
        OpenError::NotFound => encode_error(ERR_NOT_FOUND, MSG_NOT_FOUND.as_bytes()),
        OpenError::PermissionDenied => encode_error(ERR_ACCESS, MSG_ACCESS.as_bytes()),
        OpenError::Other(m) => encode_error(ERR_READ, m.as_str().as_bytes()),
    }
}

/// The block an acknowledgment of wire number `ack` asks for, when block
/// `last` was asked for last: the latest block up to `last + 1` whose number
/// is `ack + 1` modulo 2^16, or `ack + 1` itself when there is none.
pub open spec fn next_block(last: int, ack: int) -> int {
    let want = ack + 1;
    if last + 1 < want {
        want
    } else {
        last + 1 - (last + 1 - want) % 65536
    }
}

/// Computes `next_block(last, ack)`.
fn next_block_after(last: u64, ack: u16) -> (r: u64)
    requires
        last < u64::MAX,
    ensures
        r == next_block(last as int, ack as int),
{
    let want = ack as u64 + 1;
    if last + 1 < want {
        want
    } else {
        last + 1 - (last + 1 - want) % 65536
    }
}

/// What an acknowledgment of block `n - 1` from `ep` does to the table
/// (`before` to `after`) and what the caller is told.
pub open spec fn ack_outcome(
    before: Map<Endpoint, FileStream>,
    after: Map<Endpoint, FileStream>,
    ep: Endpoint,
    n: int,
    r: Dispatch,
) -> bool {
    if !before.contains_key(ep) || before[ep].done {
        r is Ignore && after == before
    } else if n > before[ep].chunks {
        after == before.insert(ep, before[ep].requested(n).finished()) && (r matches Dispatch::Reply(f) && f@ == data_frame(n, seq![]))
    } else {
        after == before.insert(ep, before[ep].requested(n)) && r == (Dispatch::Read {
            block: n as u64,
            offset: block_offset(n) as u64,
            seek: block_offset(n) != before[ep].pos,
        })
    }
}

/// What a datagram `d` from `ep` does to the table (`before` to `after`) and
/// what the caller is told.
pub open spec fn dispatch_outcome(
    before: Map<Endpoint, FileStream>,
    after: Map<Endpoint, FileStream>,
    ep: Endpoint,
    d: Seq<u8>,
    r: Dispatch,
) -> bool {
    match decode_spec(d) {
        Err(e) => r == Dispatch::Drop(e) && after == before,
        Ok(MessageView::ReadRequest { filename, mode: _ }) => after == before && if confined(filename) {
            r matches Dispatch::Open(p) && p@ == filename
        } else {
            r matches Dispatch::Reply(f) && f@ == error_frame(ERR_ACCESS, encode_utf8(MSG_ACCESS@))
        },
        Ok(MessageView::Acknowledge { block }) => ack_outcome(
            before,
            after,
            ep,
            next_block(before[ep].last as int, block as int),
            r,
        ),
        Ok(_) => after == before && (r matches Dispatch::Reply(f) && f@ == error_frame(
            ERR_ILLEGAL_OPERATION,
            encode_utf8(MSG_UNSUPPORTED@),
        )),
    }
}

/// Whether datagram `d` from `ep` counts as activity of its session: an
/// acknowledgment for a transfer that is not done.
pub open spec fn touches(before: Map<Endpoint, FileStream>, ep: Endpoint, d: Seq<u8>) -> bool {
    match decode_spec(d) {
        Ok(MessageView::Acknowledge { block: _ }) => before.contains_key(ep) && !before[ep].done,
        _ => false,
    }
}

/// A session that eviction at time `now` removes: finished, or idle for
/// `timeout` or longer since `last`.
pub open spec fn stale(s: FileStream, last: u64, now: u64, timeout: u64) -> bool {
    s.done || (now >= last && now - last >= timeout)
}

/// What starting a transfer of a file of `len` bytes for `ep` does to the
/// table and what the caller is told: the session is stored, replacing any
/// earlier one, and block 1 is asked for.
pub open spec fn start_outcome(
    before: Map<Endpoint, FileStream>,
    after: Map<Endpoint, FileStream>,
    ep: Endpoint,
    len: int,
    r: Dispatch,
) -> bool {
    let s = FileStream { len: len as u64, chunks: total_blocks(len) as u64, pos: 0, last: 0, done: false };
    if s.chunks == 0 {
        after == before.insert(ep, s.requested(1).finished()) && (r matches Dispatch::Reply(f) && f@ == data_frame(1, seq![]))
    } else {
        after == before.insert(ep, s.requested(1)) && r == (Dispatch::Read { block: 1, offset: 0, seek: false })
    }
}

/// The active transfer of each peer, at most one per endpoint.
///
/// The sessions are kept in a `Vec` of (endpoint, session, last activity)
/// with unique endpoints, stated in `wf`, rather than in a hash map: lookups,
/// replacement and eviction are then proved against the map that `view`
/// gives, which a map keyed by a struct with derived `Hash` would not allow.
pub struct SessionTable {
    entries: Vec<(Endpoint, FileStream, u64)>,
    model: Ghost<Map<Endpoint, FileStream>>,
    active: Ghost<Map<Endpoint, u64>>,
}

impl View for SessionTable {
    type V = Map<Endpoint, FileStream>;

    closed spec fn view(&self) -> Map<Endpoint, FileStream> {
        self.model@
    }
}

impl SessionTable {
    /// When each session was last active, on the caller's clock.
    pub closed spec fn activity(&self) -> Map<Endpoint, u64> {
        self.active@
    }

    pub closed spec fn wf(&self) -> bool {
        &&& forall|i: int, j: int|
            0 <= i < j < self.entries@.len() ==> self.entries@[i].0 != self.entries@[j].0
        &&& forall|i: int|
            0 <= i < self.entries@.len() ==> self.model@.contains_key(#[trigger] self.entries@[i].0)
                && self.model@[self.entries@[i].0] == self.entries@[i].1
                && self.active@[self.entries@[i].0] == self.entries@[i].2
        &&& forall|e: Endpoint|
            #[trigger] self.model@.contains_key(e) ==> exists|i: int|
                0 <= i < self.entries@.len() && #[trigger] self.entries@[i].0 == e
        &&& forall|e: Endpoint| #[trigger] self.model@.contains_key(e) ==> self.model@[e].wf()
        &&& self.active@.dom() == self.model@.dom()
    }

    /// An empty table.
    pub fn new() -> (r: SessionTable)
        ensures
            r.wf(),
            r@ == Map::<Endpoint, FileStream>::empty(),
            r.activity() == Map::<Endpoint, u64>::empty(),
    {
        SessionTable { entries: Vec::new(), model: Ghost(Map::empty()), active: Ghost(Map::empty()) }
    }

    /// Number of active sessions.
    pub fn len(&self) -> (r: usize)
        requires
            self.wf(),
        ensures
            r == self@.len(),
    {
        proof {
            self.lemma_len();
        }
        self.entries.len()
    }

    proof fn lemma_len(&self)
        requires
            self.wf(),
        ensures
            self.entries@.len() == self@.len(),
            self@.dom().finite(),
    {
        let keys = self.entries@.map_values(|p: (Endpoint, FileStream, u64)| p.0);
        assert(keys.no_duplicates());
        assert(keys.to_set() =~= self@.dom()) by {
            assert forall|e: Endpoint| self@.dom().contains(e) implies keys.to_set().contains(e) by {
                let i = choose|i: int| 0 <= i < self.entries@.len() && #[trigger] self.entries@[i].0 == e;
                assert(keys[i] == e);
            }
        }
        keys.unique_seq_to_set();
    }

    fn find(&self, ep: Endpoint) -> (r: Option<usize>)
        requires
            self.wf(),
        ensures
            match r {
                Some(i) => i < self.entries@.len() && self.entries@[i as int].0 == ep,
                None => !self@.contains_key(ep),
            },
    {
        let mut i: usize = 0;
        while i < self.entries.len()
            invariant
                self.wf(),
                i <= self.entries@.len(),
                forall|j: int| 0 <= j < i ==> self.entries@[j].0 != ep,
            decreases self.entries@.len() - i,
        {
            if self.entries[i].0 == ep {
                return Some(i);
            }
            i = i + 1;
        }
        None
    }

    /// The session of `ep`, if it has one.
    pub fn get(&self, ep: Endpoint) -> (r: Option<FileStream>)
        requires
            self.wf(),
        ensures
            r == (if self@.contains_key(ep) { Some(self@[ep]) } else { None::<FileStream> }),
            r matches Some(s) ==> s.wf(),
    {
        match self.find(ep) {
            Some(i) => Some(self.entries[i].1),
            None => None,
        }
    }

    /// Stores `s` as the session of `ep`, active at `now`, replacing any earlier one.
    pub fn insert(&mut self, ep: Endpoint, s: FileStream, now: u64)
        requires
            old(self).wf(),
            s.wf(),
        ensures
            final(self).wf(),
            final(self)@ == old(self)@.insert(ep, s),
            final(self).activity() == old(self).activity().insert(ep, now),
    {
        match self.find(ep) {
            Some(i) => {
                self.entries.set(i, (ep, s, now));
            },
            None => {
                self.entries.push((ep, s, now));
            },
        }
        self.model = Ghost(self.model@.insert(ep, s));
        self.active = Ghost(self.active@.insert(ep, now));
        assert forall|e: Endpoint| #[trigger] self.model@.contains_key(e) implies exists|i: int|
            0 <= i < self.entries@.len() && #[trigger] self.entries@[i].0 == e by {
            if e != ep {
                let i = choose|i: int| 0 <= i < old(self).entries@.len() && #[trigger] old(self).entries@[i].0 == e;
                assert(self.entries@[i].0 == e);
            } else {
                let k: int = if old(self)@.contains_key(ep) {
                    choose|i: int| 0 <= i < old(self).entries@.len() && #[trigger] old(self).entries@[i].0 == ep
                } else {
                    old(self).entries@.len() as int
                };
                assert(self.entries@[k].0 == e);
            }
        }
    }
    /// Asks session `s` of `ep` for block `n` and stores the session as it then is.
    fn request_block(&mut self, ep: Endpoint, s: FileStream, n: u64, now: u64) -> (r: Dispatch)
        requires
            old(self).wf(),
            s.wf(),
            n >= 1,
        ensures
            final(self).wf(),
            final(self).activity() == old(self).activity().insert(ep, now),
            n > s.chunks ==> final(self)@ == old(self)@.insert(ep, s.requested(n as int).finished()) && (r matches Dispatch::Reply(f) && f@ == data_frame(n as int, seq![])),
            n <= s.chunks ==> final(self)@ == old(self)@.insert(ep, s.requested(n as int)) && r == (Dispatch::Read {
                block: n,
                offset: block_offset(n as int) as u64,
                seek: block_offset(n as int) != s.pos,
            }),
    {
        let mut t = s;
        let step = t.send_chunk(n);
        self.insert(ep, t, now);
        match step {
            ChunkStep::Send(f) => Dispatch::Reply(f),
            ChunkStep::Read { offset, seek } => Dispatch::Read { block: n, offset, seek },
        }
    }

    /// Routes one datagram from `ep`. A read request is checked against the
    /// root and handed back to be opened; an acknowledgment asks the peer's
    /// session for the next block, unless there is none or it is done; other
    /// operations are refused with an error frame; undecodable datagrams are
    /// dropped.
    pub fn dispatch(&mut self, ep: Endpoint, datagram: &[u8], now: u64) -> (r: Dispatch)
        requires
            old(self).wf(),
        ensures
            final(self).wf(),
            final(self).activity() == if touches(old(self)@, ep, datagram@) {
                old(self).activity().insert(ep, now)
            } else {
                old(self).activity()
            },
            dispatch_outcome(old(self)@, final(self)@, ep, datagram@, r),
    {
        match decode(datagram) {
            Err(e) => Dispatch::Drop(e),
            Ok(Message::ReadRequest { filename, mode: _ }) => {
                if is_confined(filename.as_str()) {
                    Dispatch::Open(filename)
                } else {
                    Dispatch::Reply(encode_error(ERR_ACCESS, MSG_ACCESS.as_bytes()))
                }
            },
            Ok(Message::Acknowledge { block }) => {
                match self.get(ep) {
                    None => Dispatch::Ignore,
                    Some(s) => {
                        if s.done {
                            Dispatch::Ignore
                        } else {
                            assert(s.last < u64::MAX) by (nonlinear_arith)
                                requires
                                    s.last <= s.chunks,
                                    s.chunks == total_blocks(s.len as int),
                            ;
                            let n = next_block_after(s.last, block);
                            self.request_block(ep, s, n, now)
                        }
                    },
                }
            },
            Ok(_) => Dispatch::Reply(encode_error(ERR_ILLEGAL_OPERATION, MSG_UNSUPPORTED.as_bytes())),
        }
    }

    /// Starts a transfer of a file of `len` bytes for `ep`, replacing any
    /// earlier session of that peer, and asks for block 1.
    pub fn open_session(&mut self, ep: Endpoint, len: u64, now: u64) -> (r: Dispatch)
        requires
            old(self).wf(),
        ensures
            final(self).wf(),
            final(self).activity() == old(self).activity().insert(ep, now),
            start_outcome(old(self)@, final(self)@, ep, len as int, r),
    {
        let s = FileStream::new(len);
        self.request_block(ep, s, 1, now)
    }

    /// Frames the reply for block `block` of `ep`'s file from the outcome of
    /// reading it, and advances the session. Nothing is done when `ep` has no
    /// session, the block is not one of its file's blocks, or more than a
    /// block's worth of bytes was read.
    pub fn finish_read(&mut self, ep: Endpoint, block: u64, read: Result<Vec<u8>, String>, now: u64) -> (r: Option<Vec<u8>>)
        requires
            old(self).wf(),
        ensures
            final(self).wf(),
            final(self).activity() == if r is Some {
                old(self).activity().insert(ep, now)
            } else {
                old(self).activity()
            },
            !(old(self)@.contains_key(ep) && 1 <= block <= old(self)@[ep].chunks && (read matches Ok(d) ==> d@.len() <= BLOCK_SIZE))
                ==> r is None && final(self)@ == old(self)@,
            old(self)@.contains_key(ep) && 1 <= block <= old(self)@[ep].chunks && (read matches Ok(d) ==> d@.len() <= BLOCK_SIZE)
                ==> match read {
                Ok(d) => (r matches Some(f) && f@ == data_frame(block as int, d@)) && final(self)@ == old(self)@.insert(
                    ep,
                    old(self)@[ep].after_read(block as int, d@.len() as int),
                ),
                Err(m) => (r matches Some(f) && f@ == error_frame(ERR_READ, encode_utf8(m@))) && final(self)@ == old(self)@.insert(
                    ep,
                    old(self)@[ep].after_failed_read(),
                ),
            },
    {
        let s = match self.get(ep) {
            None => return None,
            Some(s) => s,
        };
        if block < 1 || block > s.chunks {
            return None;
        }
        let fits = match &read {
            Ok(d) => d.len() <= BLOCK_SIZE as usize,
            Err(_) => true,
        };
        if !fits {
            return None;
        }
        let mut t = s;
        let f = t.finish_chunk(block, read);
        self.insert(ep, t, now);
        Some(f)
    }
    /// Removes every session that is finished or has been idle for `timeout`
    /// or longer at time `now`, and returns the endpoints removed, so that
    /// their files can be closed.
    pub fn evict(&mut self, now: u64, timeout: u64) -> (r: Vec<Endpoint>)
        requires
            old(self).wf(),
        ensures
            final(self).wf(),
            forall|e: Endpoint|
                #[trigger] final(self)@.contains_key(e) <==> old(self)@.contains_key(e) && !stale(
                    old(self)@[e],
                    old(self).activity()[e],
                    now,
                    timeout,
                ),
            forall|e: Endpoint|
                #[trigger] final(self)@.contains_key(e) ==> final(self)@[e] == old(self)@[e]
                    && final(self).activity()[e] == old(self).activity()[e],
            forall|e: Endpoint|
                #[trigger] r@.contains(e) <==> old(self)@.contains_key(e) && stale(
                    old(self)@[e],
                    old(self).activity()[e],
                    now,
                    timeout,
                ),
    {
        let mut kept: Vec<(Endpoint, FileStream, u64)> = Vec::new();
        let mut removed: Vec<Endpoint> = Vec::new();
        let ghost mut nm: Map<Endpoint, FileStream> = Map::empty();
        let ghost mut na: Map<Endpoint, u64> = Map::empty();
        let mut i: usize = 0;
        while i < self.entries.len()
            invariant
                self.wf(),
                *self == *old(self),
                i <= self.entries@.len(),
                forall|a: int, b: int| 0 <= a < b < kept@.len() ==> kept@[a].0 != kept@[b].0,
                forall|k: int|
                    0 <= k < kept@.len() ==> nm.contains_key(#[trigger] kept@[k].0) && nm[kept@[k].0] == kept@[k].1
                        && na[kept@[k].0] == kept@[k].2,
                forall|e: Endpoint|
                    #[trigger] nm.contains_key(e) ==> exists|k: int| 0 <= k < kept@.len() && #[trigger] kept@[k].0 == e,
                forall|e: Endpoint|
                    #[trigger] nm.contains_key(e) ==> exists|j: int| 0 <= j < i && #[trigger] self.entries@[j].0 == e,
                forall|e: Endpoint|
                    #[trigger] nm.contains_key(e) ==> self@.contains_key(e) && nm[e] == self@[e] && na[e] == self.activity()[e]
                        && !stale(self@[e], self.activity()[e], now, timeout),
                na.dom() == nm.dom(),
                forall|j: int|
                    0 <= j < i && !stale(self.entries@[j].1, self.entries@[j].2, now, timeout)
                        ==> nm.contains_key(#[trigger] self.entries@[j].0),
                forall|j: int|
                    0 <= j < i && stale(self.entries@[j].1, self.entries@[j].2, now, timeout)
                        ==> removed@.contains(#[trigger] self.entries@[j].0),
                forall|k: int|
                    0 <= k < removed@.len() ==> self@.contains_key(#[trigger] removed@[k]) && stale(
                        self@[removed@[k]],
                        self.activity()[removed@[k]],
                        now,
                        timeout,
                    ),
            decreases self.entries@.len() - i,
        {
            let (e, s, last) = self.entries[i];
            let is_stale = s.done || (now >= last && now - last >= timeout);
            let ghost old_kept = kept@;
            let ghost old_removed = removed@;
            if is_stale {
                removed.push(e);
                proof {
                    assert forall|j: int|
                        0 <= j < i + 1 && stale(self.entries@[j].1, self.entries@[j].2, now, timeout)
                            implies removed@.contains(#[trigger] self.entries@[j].0) by {
                        if j < i {
                            let k = choose|k: int| 0 <= k < old_removed.len() && old_removed[k] == self.entries@[j].0;
                            assert(removed@[k] == self.entries@[j].0);
                        } else {
                            assert(removed@[removed@.len() - 1] == e);
                        }
                    }
                }
            } else {
                proof {
                    assert forall|a: int| 0 <= a < kept@.len() implies kept@[a].0 != e by {
                        assert(nm.contains_key(kept@[a].0));
                    }
                }
                kept.push((e, s, last));
                proof {
                    nm = nm.insert(e, s);
                    na = na.insert(e, last);
                    assert(kept@[kept@.len() - 1].0 == e);
                    assert forall|x: Endpoint| #[trigger] nm.contains_key(x) implies exists|k: int|
                        0 <= k < kept@.len() && #[trigger] kept@[k].0 == x by {
                        if x != e {
                            let k = choose|k: int| 0 <= k < old_kept.len() && #[trigger] old_kept[k].0 == x;
                            assert(kept@[k].0 == x);
                        }
                    }
                    assert forall|j: int|
                        0 <= j < i + 1 && stale(self.entries@[j].1, self.entries@[j].2, now, timeout)
                            implies removed@.contains(#[trigger] self.entries@[j].0) by {
                        if j == i {
                            assert(stale(s, last, now, timeout));
                        }
                    }
                }
            }
            i = i + 1;
        }
        proof {
            assert forall|e: Endpoint|
                #[trigger] self@.contains_key(e) && !stale(self@[e], self.activity()[e], now, timeout)
                    implies nm.contains_key(e) by {
                let j = choose|j: int| 0 <= j < self.entries@.len() && #[trigger] self.entries@[j].0 == e;
            }
            assert forall|e: Endpoint|
                #[trigger] self@.contains_key(e) && stale(self@[e], self.activity()[e], now, timeout)
                    implies removed@.contains(e) by {
                let j = choose|j: int| 0 <= j < self.entries@.len() && #[trigger] self.entries@[j].0 == e;
            }
            assert forall|e: Endpoint| removed@.contains(e) implies self@.contains_key(e) && stale(
                self@[e],
                self.activity()[e],
                now,
                timeout,
            ) by {
                let k = choose|k: int| 0 <= k < removed@.len() && removed@[k] == e;
            }
        }
        let ghost kept_view = kept@;
        self.entries = kept;
        self.model = Ghost(nm);
        self.active = Ghost(na);
        assert forall|e: Endpoint| #[trigger] self.model@.contains_key(e) implies exists|i: int|
            0 <= i < self.entries@.len() && #[trigger] self.entries@[i].0 == e by {
            let k = choose|k: int| 0 <= k < kept_view.len() && #[trigger] kept_view[k].0 == e;
            assert(self.entries@[k].0 == e);
        }
        removed
    }
}

} // verus!
