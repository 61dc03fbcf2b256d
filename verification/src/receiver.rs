//! Receive-side reassembly: per-key sessions, toggle and transfer-id
//! validation, checksum verification, duplicate rejection, and
//! timeout-based session eviction.

use vstd::prelude::*;
use crate::crc::crc16_compute;
use crate::frame::{
    id_wf, spec_header_of_id, tail_end, tail_start, tail_toggle, tail_transfer_id, Frame,
    ServiceHeader, TransferHeader, TransferKindHeader,
};
use crate::transfer::Transfer;
use crate::types::{valid_transfer_id, OutOfMemoryError, MTU};

verus! {

/// What a reassembly session is keyed by: one live session per key.
#[derive(Clone, Copy, Debug, PartialEq, Eq, Structural)]
pub struct SessionKey {
    /// The node the frames come from.
    pub source: u8,
    /// Whether the transfer is a service call rather than a message.
    pub service: bool,
    /// For service calls, whether it is a request; `false` for messages.
    pub request: bool,
    /// The subject id, or the service id.
    pub port: u16,
}

/// The session key a header maps to.
pub open spec fn spec_key_of_header(h: TransferHeader) -> SessionKey {
    match h.kind {
        TransferKindHeader::Message { subject } => SessionKey {
            source: h.source,
            service: false,
            request: false,
            port: subject,
        },
        TransferKindHeader::Request(s) => SessionKey {
            source: h.source,
            service: true,
            request: true,
            port: s.service,
        },
        TransferKindHeader::Response(s) => SessionKey {
            source: h.source,
            service: true,
            request: false,
            port: s.service,
        },
    }
}

/// Computes the session key of a header.
pub fn key_of_header(h: &TransferHeader) -> (k: SessionKey)
    ensures
        k == spec_key_of_header(*h),
{
    match h.kind {
        TransferKindHeader::Message { subject } => SessionKey {
            source: h.source,
            service: false,
            request: false,
            port: subject,
        },
        TransferKindHeader::Request(s) => SessionKey {
            source: h.source,
            service: true,
            request: true,
            port: s.service,
        },
        TransferKindHeader::Response(s) => SessionKey {
            source: h.source,
            service: true,
            request: false,
            port: s.service,
        },
    }
}

/// One reassembly session: the transfer being accumulated for one key, or
/// the marker of the transfer most recently completed for it.
pub struct Session {
    /// The key this session belongs to.
    pub key: SessionKey,
    /// The transfer id being assembled, or last completed.
    pub transfer_id: u8,
    /// The toggle value the next frame must carry.
    pub toggle: bool,
    /// Set once the transfer completed; such a session only filters
    /// duplicate starts until the sweep reclaims it.
    pub done: bool,
    /// The payload accumulated so far, checksum bytes included.
    pub buffer: Vec<u8>,
    /// When this session last saw a frame, for timeout eviction.
    pub last_activity: u64,
}

/// The mathematical value of a session.
#[verifier::ext_equal]
pub ghost struct SessionModel {
    pub key: SessionKey,
    pub transfer_id: u8,
    pub toggle: bool,
    pub done: bool,
    pub buffer: Seq<u8>,
    pub last_activity: u64,
}

/// The mathematical value of a delivered transfer.
#[verifier::ext_equal]
pub ghost struct TransferModel {
    pub timestamp: u64,
    pub header: TransferHeader,
    pub transfer_id: u8,
    pub payload: Seq<u8>,
}

/// The model of a session.
pub open spec fn session_model(s: Session) -> SessionModel {
    SessionModel {
        key: s.key,
        transfer_id: s.transfer_id,
        toggle: s.toggle,
        done: s.done,
        buffer: s.buffer@,
        last_activity: s.last_activity,
    }
}

/// The model of a transfer.
pub open spec fn transfer_model(t: Transfer) -> TransferModel {
    TransferModel {
        timestamp: t.timestamp,
        header: t.header,
        transfer_id: t.transfer_id,
        payload: t.payload@,
    }
}

/// The model of an optional session.
pub open spec fn opt_session_model(s: Option<Session>) -> Option<SessionModel> {
    match s {
        Some(s) => Some(session_model(s)),
        None => None,
    }
}

/// The model of an optional transfer.
pub open spec fn opt_transfer_model(t: Option<Transfer>) -> Option<TransferModel> {
    match t {
        Some(t) => Some(transfer_model(t)),
        None => None,
    }
}

/// Modulo-32 recency: `new` is newer than `cur` when it lies in the
/// forward half of the transfer-id circle, so retransmitted and old ids
/// are rejected while moderate losses still resynchronize.
pub open spec fn spec_transfer_id_newer(new: u8, cur: u8) -> bool {
    let d = (new + 32 - cur) % 32;
    1 <= d <= 15
}

/// Decides modulo-32 recency.
pub fn transfer_id_newer(new: u8, cur: u8) -> (r: bool)
    requires
        valid_transfer_id(new),
        valid_transfer_id(cur),
    ensures
        r == spec_transfer_id_newer(new, cur),
{
    let d = (new + 32 - cur) % 32;
    1 <= d && d <= 15
}

/// The checksum at the end of `buf` matches the bytes before it: the last
/// two bytes are the big-endian checksum of the rest.
pub open spec fn spec_crc_ok(buf: Seq<u8>) -> bool {
    let body = buf.take(buf.len() - 2);
    &&& buf.len() >= 2
    &&& buf[buf.len() - 1] == (crate::crc::crc16(body) & 0xFF) as u8
    &&& buf[buf.len() - 2] == (crate::crc::crc16(body) >> 8) as u8
}

/// What one frame does to the session of its key.
pub ghost struct StepOutcome {
    /// The session for the key after the frame, if any.
    pub session: Option<SessionModel>,
    /// The transfer completed by the frame, if any.
    pub transfer: Option<TransferModel>,
}

/// The reassembly state machine, one frame at a time, for a single key.
///
/// `st` is the session the key currently has; `h` the frame's decoded
/// header; `fp` its full payload, tail byte last; `ts` its timestamp.
pub open spec fn rx_step(
    st: Option<SessionModel>,
    key: SessionKey,
    h: TransferHeader,
    fp: Seq<u8>,
    ts: u64,
) -> StepOutcome {
    let tail = fp.last();
    let data = fp.drop_last();
    let tid = tail_transfer_id(tail);
    if tail_start(tail) {
        if st is Some && !spec_transfer_id_newer(tid, st.unwrap().transfer_id) {
            // A duplicate or old start: ignored, nothing changes.
            StepOutcome { session: st, transfer: None }
        } else if tail_end(tail) {
            // A whole transfer in one frame: deliver it, remember its id.
            StepOutcome {
                session: Some(
                    SessionModel {
                        key,
                        transfer_id: tid,
                        toggle: false,
                        done: true,
                        buffer: Seq::empty(),
                        last_activity: ts,
                    },
                ),
                transfer: Some(
                    TransferModel { timestamp: ts, header: h, transfer_id: tid, payload: data },
                ),
            }
        } else {
            // A fresh multi-frame transfer begins accumulating.
            StepOutcome {
                session: Some(
                    SessionModel {
                        key,
                        transfer_id: tid,
                        toggle: true,
                        done: false,
                        buffer: data,
                        last_activity: ts,
                    },
                ),
                transfer: None,
            }
        }
    } else {
        if st is Some && !st.unwrap().done && st.unwrap().transfer_id == tid && st.unwrap().toggle
            == tail_toggle(tail) {
            let s = st.unwrap();
            let buf = s.buffer + data;
            if !tail_end(tail) {
                // A valid continuation: append and flip the toggle.
                StepOutcome {
                    session: Some(
                        SessionModel {
                            key,
                            transfer_id: tid,
                            toggle: !s.toggle,
                            done: false,
                            buffer: buf,
                            last_activity: ts,
                        },
                    ),
                    transfer: None,
                }
            } else if spec_crc_ok(buf) {
                // The last frame: checksum verified, deliver the payload.
                StepOutcome {
                    session: Some(
                        SessionModel {
                            key,
                            transfer_id: tid,
                            toggle: false,
                            done: true,
                            buffer: Seq::empty(),
                            last_activity: ts,
                        },
                    ),
                    transfer: Some(
                        TransferModel {
                            timestamp: ts,
                            header: h,
                            transfer_id: tid,
                            payload: buf.take(buf.len() - 2),
                        },
                    ),
                }
            } else {
                // Checksum failure: the transfer is silently dropped.
                StepOutcome { session: None, transfer: None }
            }
        } else {
            // A continuation that matches no live transfer: discard it
            // and evict whatever session the key had as corrupted.
            StepOutcome { session: None, transfer: None }
        }
    }
}

/// Runs one frame of a key through the state machine.
///
/// Returns the session the key has afterwards and the transfer the frame
/// completed, exactly as [`rx_step`] describes.
fn step_session(st: Option<Session>, key: SessionKey, h: &TransferHeader, fp: &Vec<u8>, ts: u64)
    -> (r: (Option<Session>, Option<Transfer>))
    requires
        1 <= fp@.len(),
        st is Some ==> valid_transfer_id(st.unwrap().transfer_id) && st.unwrap().key == key,
    ensures
        ({
            let out = rx_step(opt_session_model(st), key, *h, fp@, ts);
            opt_session_model(r.0) == out.session && opt_transfer_model(r.1) == out.transfer
                && (r.0 is Some ==> r.0.unwrap().key == key && valid_transfer_id(
                r.0.unwrap().transfer_id,
            ))
        }),
{
    let tail = fp[fp.len() - 1];
    let tid = tail & 0x1F;
    let start = tail & 0x80 != 0;
    let end = tail & 0x40 != 0;
    let toggle = tail & 0x20 != 0;
    proof {
        assert(tail & 0x1F < 32) by (bit_vector);
        assert(fp@.last() == fp@[fp@.len() - 1]);
    }
    // The frame's data bytes: everything but the tail byte.
    let mut data: Vec<u8> = Vec::new();
    let mut i: usize = 0;
    while i < fp.len() - 1
        invariant
            1 <= fp@.len(),
            i <= fp@.len() - 1,
            data@ =~= fp@.take(i as int),
        decreases fp@.len() - 1 - i,
    {
        let b = fp[i];
        data.push(b);
        i = i + 1;
    }
    proof {
        assert(data@ =~= fp@.drop_last());
    }
    if start {
        match st {
            Some(s) if !transfer_id_newer(tid, s.transfer_id) => {
                return (Some(s), None);
            },
            _ => {},
        }
        if end {
            let marker = Session {
                key,
                transfer_id: tid,
                toggle: false,
                done: true,
                buffer: Vec::new(),
                last_activity: ts,
            };
            let t = Transfer { timestamp: ts, header: *h, transfer_id: tid, payload: data };
            return (Some(marker), Some(t));
        }
        let s = Session {
            key,
            transfer_id: tid,
            toggle: true,
            done: false,
            buffer: data,
            last_activity: ts,
        };
        return (Some(s), None);
    }
    match st {
        Some(mut s) => {
            if !s.done && s.transfer_id == tid && s.toggle == toggle {
                let mut moved = data;
                s.buffer.append(&mut moved);
                if !end {
                    s.toggle = !s.toggle;
                    s.last_activity = ts;
                    return (Some(s), None);
                }
                let blen = s.buffer.len();
                if blen >= 2 {
                    let c = crc16_compute(s.buffer.as_slice(), blen - 2);
                    let hi = s.buffer[blen - 2];
                    let lo = s.buffer[blen - 1];
                    if hi == (c >> 8u16) as u8 && lo == (c & 0xFF) as u8 {
                        let mut payload = s.buffer;
                        payload.truncate(blen - 2);
                        let marker = Session {
                            key,
                            transfer_id: tid,
                            toggle: false,
                            done: true,
                            buffer: Vec::new(),
                            last_activity: ts,
                        };
                        let t = Transfer {
                            timestamp: ts,
                            header: *h,
                            transfer_id: tid,
                            payload,
                        };
                        return (Some(marker), Some(t));
                    }
                }
                (None, None)
            } else {
                (None, None)
            }
        },
        None => (None, None),
    }
}

/// What to do when a frame needs a new session but the table is full:
/// refuse it with an explicit error, or sacrifice the least recently
/// active session. A deliberate capacity-versus-availability choice.
#[derive(Clone, Copy, Debug, PartialEq, Eq, Structural)]
pub enum EvictionPolicy {
    /// Fail new-session creation with `OutOfMemoryError`; live sessions
    /// are never sacrificed.
    RejectNew,
    /// Evict the session that has been inactive longest to make room.
    EvictStalest,
}

/// No two sessions share a key.
pub open spec fn keys_unique(s: Seq<Session>) -> bool {
    forall|i: int, j: int| 0 <= i < j < s.len() ==> s[i].key != s[j].key
}

/// Every session carries a 5-bit transfer id.
pub open spec fn sessions_valid(s: Seq<Session>) -> bool {
    forall|i: int| 0 <= i < s.len() ==> valid_transfer_id(#[trigger] s[i].transfer_id)
}

/// Some session has this key.
pub open spec fn spec_has_key(s: Seq<Session>, k: SessionKey) -> bool {
    exists|i: int| 0 <= i < s.len() && (#[trigger] s[i]).key == k
}

/// The index of the session with key `k`; meaningful when one exists and
/// keys are unique.
pub open spec fn spec_index_of(s: Seq<Session>, k: SessionKey) -> int {
    choose|i: int| 0 <= i < s.len() && (#[trigger] s[i]).key == k
}

/// The session stored for key `k`, if any.
pub open spec fn spec_lookup(s: Seq<Session>, k: SessionKey) -> Option<SessionModel> {
    if spec_has_key(s, k) {
        Some(session_model(s[spec_index_of(s, k)]))
    } else {
        None
    }
}

/// `j` is the slot the stalest-eviction policy sacrifices: no session is
/// less recently active, and earlier slots are strictly more recent.
pub open spec fn is_stalest_at(s: Seq<Session>, j: int) -> bool {
    &&& 0 <= j < s.len()
    &&& forall|l: int| 0 <= l < s.len() ==> (#[trigger] s[l]).last_activity >= s[j].last_activity
    &&& forall|l: int| 0 <= l < j ==> (#[trigger] s[l]).last_activity > s[j].last_activity
}

/// A frame the receiver will process: a well-formed identifier and a
/// payload that holds at least a tail byte and fits the MTU.
pub open spec fn spec_frame_ok(f: Frame) -> bool {
    id_wf(f.id) && 1 <= f.payload@.len() <= MTU
}

/// A session is expired once it has seen no frame for longer than the
/// configured timeout.
pub open spec fn spec_expired(s: Session, now: u64, timeout: u64) -> bool {
    now > s.last_activity + timeout
}

/// The sessions that survive a sweep at time `now`, in their stored order.
pub open spec fn spec_live(s: Seq<Session>, now: u64, timeout: u64) -> Seq<Session>
    decreases s.len(),
{
    if s.len() == 0 {
        s
    } else if spec_expired(s[0], now, timeout) {
        spec_live(s.drop_first(), now, timeout)
    } else {
        seq![s[0]] + spec_live(s.drop_first(), now, timeout)
    }
}

/// Law (sweep idempotence): sweeping an already swept table at the same
/// time changes nothing, and what survives is a table of its own sessions:
/// unique keys, no more of them than before.
pub proof fn lemma_sweep_idempotent(s: Seq<Session>, now: u64, timeout: u64)
    ensures
        spec_live(spec_live(s, now, timeout), now, timeout) == spec_live(s, now, timeout),
        spec_live(s, now, timeout).len() <= s.len(),
        keys_unique(s) ==> keys_unique(spec_live(s, now, timeout)),
        sessions_valid(s) ==> sessions_valid(spec_live(s, now, timeout)),
        forall|k: SessionKey| spec_has_key(spec_live(s, now, timeout), k) ==> spec_has_key(s, k),
    decreases s.len(),
{
    let live = spec_live(s, now, timeout);
    if s.len() == 0 {
    } else {
        let rest = s.drop_first();
        lemma_sweep_idempotent(rest, now, timeout);
        let lrest = spec_live(rest, now, timeout);
        assert(keys_unique(s) ==> keys_unique(rest));
        assert(sessions_valid(s) ==> sessions_valid(rest));
        assert forall|k: SessionKey| spec_has_key(live, k) implies spec_has_key(s, k) by {
            if spec_expired(s[0], now, timeout) {
                assert(spec_has_key(rest, k));
                let i = choose|i: int| 0 <= i < rest.len() && rest[i].key == k;
                assert(s[i + 1].key == k);
            } else {
                let i = choose|i: int| 0 <= i < live.len() && live[i].key == k;
                if i == 0 {
                    assert(s[0].key == k);
                } else {
                    assert(lrest[i - 1].key == k);
                    assert(spec_has_key(rest, k));
                    let j = choose|j: int| 0 <= j < rest.len() && rest[j].key == k;
                    assert(s[j + 1].key == k);
                }
            }
        }
        if keys_unique(s) {
            assert forall|a: int, b: int| 0 <= a < b < live.len() implies live[a].key
                != live[b].key by {
                if !spec_expired(s[0], now, timeout) {
                    if a == 0 {
                        assert(live[b] == lrest[b - 1]);
                        assert(spec_has_key(lrest, lrest[b - 1].key));
                        assert(spec_has_key(rest, lrest[b - 1].key));
                        let j = choose|j: int| 0 <= j < rest.len() && rest[j].key == lrest[b
                            - 1].key;
                        assert(s[j + 1].key == lrest[b - 1].key);
                        assert(s[0].key != s[j + 1].key);
                    } else {
                        assert(live[a] == lrest[a - 1] && live[b] == lrest[b - 1]);
                    }
                }
            }
        }
        if sessions_valid(s) {
            assert forall|i: int| 0 <= i < live.len() implies valid_transfer_id(
                #[trigger] live[i].transfer_id,
            ) by {
                if !spec_expired(s[0], now, timeout) {
                    if i > 0 {
                        assert(live[i] == lrest[i - 1]);
                    }
                }
            }
        }
        // Idempotence: the survivors are all alive, so a second filter
        // keeps each of them.
        if spec_expired(s[0], now, timeout) {
        } else {
            assert(spec_live(live, now, timeout) == seq![live[0]] + spec_live(
                live.drop_first(),
                now,
                timeout,
            ));
            assert(live.drop_first() =~= lrest);
        }
    }
}

/// Consumes raw frames, reassembles transfers per session, and hands each
/// completed transfer out exactly once.
pub struct Receiver {
    sessions: Vec<Session>,
    session_capacity: usize,
    timeout: u64,
    policy: EvictionPolicy,
}

impl Receiver {
    /// The session table, in storage order.
    pub closed spec fn view(&self) -> Seq<Session> {
        self.sessions@
    }

    /// The bound on concurrent sessions.
    pub closed spec fn spec_capacity(&self) -> usize {
        self.session_capacity
    }

    /// The inactivity bound beyond which the sweep evicts a session.
    pub closed spec fn spec_timeout(&self) -> u64 {
        self.timeout
    }

    /// The configured policy for a full session table.
    pub closed spec fn spec_policy(&self) -> EvictionPolicy {
        self.policy
    }

    /// The receiver invariant: a bounded table of distinct keys.
    pub open spec fn wf(&self) -> bool {
        self@.len() <= self.spec_capacity() && keys_unique(self@) && sessions_valid(self@)
    }

    /// Creates a receiver for at most `session_capacity` concurrent
    /// sessions, evicting per `policy` when that bound is hit, and per
    /// `timeout` on inactivity.
    pub fn new(session_capacity: usize, timeout: u64, policy: EvictionPolicy) -> (r: Receiver)
        ensures
            r.wf(),
            r@ =~= Seq::<Session>::empty(),
            r.spec_capacity() == session_capacity,
            r.spec_timeout() == timeout,
            r.spec_policy() == policy,
    {
        Receiver { sessions: Vec::new(), session_capacity, timeout, policy }
    }

    /// How many sessions are currently held.
    pub fn session_count(&self) -> (n: usize)
        ensures
            n == self@.len(),
    {
        self.sessions.len()
    }

    /// Processes one received frame.
    ///
    /// A frame with a malformed identifier or payload is discarded. An
    /// accepted frame drives the state machine [`rx_step`] of its key:
    /// the key's session is created, advanced, completed or evicted as
    /// the machine says, every other key's session is untouched, and a
    /// completed transfer is returned — each transfer at most once.
    /// `Err(OutOfMemoryError)` is returned exactly when a new session is
    /// needed, the table is full, and the policy is `RejectNew`; the
    /// table is then unchanged.
    pub fn accept(&mut self, frame: Frame) -> (r: Result<Option<Transfer>, OutOfMemoryError>)
        requires
            old(self).wf(),
        ensures
            final(self).wf(),
            final(self).spec_capacity() == old(self).spec_capacity(),
            final(self).spec_timeout() == old(self).spec_timeout(),
            final(self).spec_policy() == old(self).spec_policy(),
            !spec_frame_ok(frame) ==> r == Ok::<Option<Transfer>, OutOfMemoryError>(None) && final(self)@ == old(self)@,
            spec_frame_ok(frame) ==> ({
                let h = spec_header_of_id(frame.id);
                let key = spec_key_of_header(h);
                let st0 = spec_lookup(old(self)@, key);
                let out = rx_step(st0, key, h, frame.payload@, frame.timestamp);
                &&& (r is Err <==> st0 is None && out.session is Some && old(self)@.len() >= old(
                    self,
                ).spec_capacity() && (old(self).spec_policy() == EvictionPolicy::RejectNew || old(
                    self,
                )@.len() == 0))
                &&& (r is Err ==> final(self)@ == old(self)@)
                &&& (forall|t: Option<Transfer>|
                    r == Ok::<Option<Transfer>, OutOfMemoryError>(t) ==> opt_transfer_model(t)
                        == out.transfer)
                &&& (r is Ok && st0 is Some ==> ({
                    let i = spec_index_of(old(self)@, key);
                    &&& (out.session is Some ==> final(self)@.len() == old(self)@.len() && (forall|
                        l: int,
                    |
                        0 <= l < old(self)@.len() && l != i ==> final(self)@[l] == old(self)@[l])
                        && session_model(final(self)@[i]) == out.session.unwrap())
                    &&& (out.session is None ==> final(self)@ == old(self)@.remove(i))
                }))
                &&& (r is Ok && st0 is None ==> ({
                    let n = old(self)@.len() as int;
                    &&& (out.session is None ==> final(self)@ == old(self)@)
                    &&& (out.session is Some && n < old(self).spec_capacity() ==> final(self)@.len()
                        == n + 1 && (forall|l: int| 0 <= l < n ==> final(self)@[l] == old(self)@[l])
                        && session_model(final(self)@[n]) == out.session.unwrap())
                    &&& (out.session is Some && n >= old(self).spec_capacity() ==> exists|j: int|
                        is_stalest_at(old(self)@, j) && final(self)@ =~= old(self)@.remove(j).push(
                            final(self)@[final(self)@.len() - 1],
                        ) && session_model(final(self)@[final(self)@.len() - 1])
                            == out.session.unwrap())
                }))
            }),
    {
        let h = match crate::frame::header_of_id(frame.id) {
            Some(h) => h,
            None => {
                return Ok(None);
            },
        };
        if frame.payload.len() < 1 || frame.payload.len() > MTU {
            return Ok(None);
        }
        let key = key_of_header(&h);
        let n = self.sessions.len();
        let mut i: usize = 0;
        while i < n && self.sessions[i].key != key
            invariant
                i <= n,
                n == self.sessions@.len(),
                forall|j: int| 0 <= j < i ==> (#[trigger] self.sessions@[j]).key != key,
            decreases n - i,
        {
            i = i + 1;
        }
        let ghost s0 = self.sessions@;
        if i < n {
            proof {
                assert(s0[i as int].key == key);
                assert(spec_has_key(s0, key));
                let ii = spec_index_of(s0, key);
                assert(s0[ii].key == key);
                if ii != i {
                    assert(s0[ii].key != s0[i as int].key);
                }
                assert(ii == i);
            }
            let s = self.sessions.remove(i);
            let (st, out) = step_session(
                Some(s),
                key,
                &h,
                &frame.payload,
                frame.timestamp,
            );
            match st {
                Some(s2) => {
                    self.sessions.insert(i, s2);
                    proof {
                        assert(self.sessions@ =~= s0.update(i as int, s2));
                        assert forall|a: int, b: int|
                            0 <= a < b < self.sessions@.len() implies self.sessions@[a].key
                            != self.sessions@[b].key by {
                            assert(s0[a].key != s0[b].key);
                        }
                    }
                },
                None => {
                    proof {
                        assert forall|a: int, b: int|
                            0 <= a < b < self.sessions@.len() implies self.sessions@[a].key
                            != self.sessions@[b].key by {
                            let sa = if a < i { a } else { a + 1 };
                            let sb = if b < i { b } else { b + 1 };
                            assert(self.sessions@[a] == s0[sa] && self.sessions@[b] == s0[sb]);
                            assert(s0[sa].key != s0[sb].key);
                        }
                    }
                },
            }
            Ok(out)
        } else {
            proof {
                assert(!spec_has_key(s0, key));
            }
            let (st, out) = step_session(None, key, &h, &frame.payload, frame.timestamp);
            match st {
                None => Ok(out),
                Some(s2) => {
                    if self.sessions.len() < self.session_capacity {
                        self.sessions.push(s2);
                        proof {
                            assert forall|a: int, b: int|
                                0 <= a < b < self.sessions@.len() implies self.sessions@[a].key
                                != self.sessions@[b].key by {
                                if b < s0.len() {
                                    assert(s0[a].key != s0[b].key);
                                } else {
                                    assert(self.sessions@[b].key == key);
                                    assert(self.sessions@[a] == s0[a]);
                                }
                            }
                        }
                        Ok(out)
                    } else {
                        match self.policy {
                            EvictionPolicy::RejectNew => Err(OutOfMemoryError),
                            EvictionPolicy::EvictStalest => {
                                if n == 0 {
                                    // A zero-capacity table has nothing
                                    // to sacrifice.
                                    return Err(OutOfMemoryError);
                                }
                                // The table is full: sacrifice the least
                                // recently active session.
                                let mut j: usize = 0;
                                let mut l: usize = 1;
                                while l < n
                                    invariant
                                        j < l <= n,
                                        n == self.sessions@.len(),
                                        n >= 1,
                                        forall|m: int| 0 <= m < l ==> (#[trigger] self.sessions@[m])
                                            .last_activity >= self.sessions@[j as int]
                                            .last_activity,
                                        forall|m: int| 0 <= m < j ==> (#[trigger] self.sessions@[m])
                                            .last_activity > self.sessions@[j as int]
                                            .last_activity,
                                    decreases n - l,
                                {
                                    if self.sessions[l].last_activity
                                        < self.sessions[j].last_activity {
                                        j = l;
                                    }
                                    l = l + 1;
                                }
                                proof {
                                    assert(is_stalest_at(s0, j as int));
                                }
                                self.sessions.remove(j);
                                self.sessions.push(s2);
                                proof {
                                    let ghost now_s = self.sessions@;
                                    assert(now_s =~= s0.remove(j as int).push(s2));
                                    assert forall|a: int, b: int|
                                        0 <= a < b < now_s.len() implies now_s[a].key
                                        != now_s[b].key by {
                                        if b < now_s.len() - 1 {
                                            let sa = if a < j { a } else { a + 1 };
                                            let sb = if b < j { b } else { b + 1 };
                                            assert(now_s[a] == s0[sa] && now_s[b] == s0[sb]);
                                            assert(s0[sa].key != s0[sb].key);
                                        } else {
                                            assert(now_s[b].key == key);
                                            let sa = if a < j { a } else { a + 1 };
                                            assert(now_s[a] == s0[sa]);
                                        }
                                    }
                                }
                                Ok(out)
                            },
                        }
                    }
                },
            }
        }
    }

    /// Evicts every session inactive for longer than the timeout.
    ///
    /// The driver invokes this periodically with the current time; it
    /// bounds memory against senders that start transfers and never
    /// finish them. Sweeping twice at the same time is idempotent.
    pub fn sweep(&mut self, now: u64)
        requires
            old(self).wf(),
        ensures
            final(self).wf(),
            final(self).spec_capacity() == old(self).spec_capacity(),
            final(self).spec_timeout() == old(self).spec_timeout(),
            final(self).spec_policy() == old(self).spec_policy(),
            final(self)@ == spec_live(old(self)@, now, old(self).spec_timeout()),
    {
        let ghost orig = self.sessions@;
        let ghost t = self.timeout;
        let mut i: usize = 0;
        proof {
            assert(orig.take(0) =~= Seq::<Session>::empty());
            assert(orig.skip(0) =~= orig);
        }
        while i < self.sessions.len()
            invariant
                i <= self.sessions@.len(),
                self.timeout == t,
                t == old(self).spec_timeout(),
                self.session_capacity == old(self).spec_capacity(),
                self.policy == old(self).spec_policy(),
                orig == old(self)@,
                orig.len() <= old(self).spec_capacity(),
                keys_unique(orig),
                sessions_valid(orig),
                spec_live(orig, now, t) == self.sessions@.take(i as int) + spec_live(
                    self.sessions@.skip(i as int),
                    now,
                    t,
                ),
                self.sessions@.take(i as int) == spec_live(orig, now, t).take(i as int),
                forall|j: int| 0 <= j < i ==> !spec_expired(#[trigger] self.sessions@[j], now, t),
            decreases self.sessions@.len() - i,
        {
            let ghost cur = self.sessions@;
            let la = self.sessions[i].last_activity;
            let expired = now > la && now - la > self.timeout;
            proof {
                assert(cur.skip(i as int)[0] == cur[i as int]);
                assert(expired == spec_expired(cur[i as int], now, t));
            }
            if expired {
                self.sessions.remove(i);
                proof {
                    assert(self.sessions@ =~= cur.remove(i as int));
                    assert(self.sessions@.take(i as int) =~= cur.take(i as int));
                    assert(self.sessions@.skip(i as int) =~= cur.skip(i as int).drop_first());
                    assert(spec_live(cur.skip(i as int), now, t) == spec_live(
                        cur.skip(i as int).drop_first(),
                        now,
                        t,
                    ));
                }
            } else {
                proof {
                    assert(spec_live(cur.skip(i as int), now, t) == seq![cur[i as int]]
                        + spec_live(cur.skip(i as int).drop_first(), now, t));
                    assert(cur.take(i as int + 1) =~= cur.take(i as int) + seq![cur[i as int]]);
                    assert(cur.take(i as int) + (seq![cur[i as int]] + spec_live(
                        cur.skip(i as int).drop_first(),
                        now,
                        t,
                    )) =~= cur.take(i as int + 1) + spec_live(
                        cur.skip(i as int).drop_first(),
                        now,
                        t,
                    ));
                    assert(cur.skip(i as int + 1) =~= cur.skip(i as int).drop_first());
                    assert(spec_live(orig, now, t).take(i as int + 1) =~= cur.take(i as int + 1));
                }
                i = i + 1;
            }
        }
        proof {
            let live = spec_live(orig, now, t);
            assert(self.sessions@.skip(i as int) =~= Seq::<Session>::empty());
            assert(self.sessions@.take(i as int) =~= self.sessions@);
            assert(live =~= self.sessions@);
            lemma_sweep_idempotent(orig, now, t);
        }
    }
}

} // verus!
