//! Segmentation: turning one transfer into tail-byte-framed CAN frames and
//! enqueueing them atomically into the priority queue.

use vstd::prelude::*;
use vstd::arithmetic::div_mod::{lemma_fundamental_div_mod, lemma_mod_bound};
use crate::crc::{crc16, crc16_bytes, crc16_compute};
use crate::frame::{
    frame_wf, id_of_header, spec_id_of_header, spec_tail_byte, tail_byte, Frame,
};
use crate::queue::{sorted_by_id, stable_insert, FrameQueue};
use crate::transfer::{transfer_wf, Transfer};
use crate::types::{OutOfMemoryError, FRAME_DATA_LEN, MTU};

verus! {

/// The byte stream that is split into frames: the payload itself for a
/// single-frame transfer, the payload followed by its two big-endian
/// checksum bytes otherwise.
pub open spec fn spec_transfer_data(p: Seq<u8>) -> Seq<u8> {
    if p.len() <= FRAME_DATA_LEN {
        p
    } else {
        p + crc16_bytes(p)
    }
}

/// How many frames carry a payload of this length.
pub open spec fn spec_frame_count(p: Seq<u8>) -> int {
    if p.len() <= FRAME_DATA_LEN {
        1
    } else {
        ((p.len() + 8) / 7) as int
    }
}

/// The data bytes of the `i`-th frame: the `i`-th seven-byte chunk of the
/// transfer data, short only in the last frame.
pub open spec fn spec_chunk(p: Seq<u8>, i: int) -> Seq<u8> {
    let data = spec_transfer_data(p);
    let lo = 7 * i;
    let hi = if 7 * i + 7 <= data.len() {
        7 * i + 7
    } else {
        data.len() as int
    };
    data.subrange(lo, hi)
}

/// The full payload of the `i`-th frame: its chunk followed by the tail
/// byte. Start is set only on frame 0, end only on the last frame, and the
/// toggle begins at 0 and alternates.
pub open spec fn spec_frame_payload(p: Seq<u8>, tid: u8, i: int) -> Seq<u8> {
    spec_chunk(p, i).push(
        spec_tail_byte(i == 0, i == spec_frame_count(p) - 1, i % 2 == 1, tid),
    )
}

/// A multi-frame payload needs at least two frames, and its frame count is
/// the smallest number of seven-byte chunks that covers payload + checksum.
pub proof fn lemma_frame_count_bounds(p: Seq<u8>)
    requires
        p.len() > FRAME_DATA_LEN,
    ensures
        2 <= spec_frame_count(p),
        7 * (spec_frame_count(p) - 1) < p.len() + 2 <= 7 * spec_frame_count(p),
{
    let l = p.len() + 8;
    lemma_fundamental_div_mod(l as int, 7);
    lemma_mod_bound(l as int, 7);
}

/// All per-frame fields of `fs` are those of segmenting payload `p` with
/// transfer id `tid`, identifier `id` and timestamp `ts`.
pub open spec fn frames_match(fs: Seq<Frame>, p: Seq<u8>, tid: u8, id: u32, ts: u64) -> bool {
    &&& fs.len() == spec_frame_count(p)
    &&& forall|i: int|
        0 <= i < fs.len() ==> (#[trigger] fs[i]).timestamp == ts && fs[i].id == id
            && fs[i].payload@ == spec_frame_payload(p, tid, i)
}

/// Splits one transfer into its frames, in transmission order.
pub fn segment(t: &Transfer) -> (frames: Vec<Frame>)
    requires
        transfer_wf(*t),
        t.payload@.len() + 9 <= usize::MAX,
    ensures
        frames_match(
            frames@,
            t.payload@,
            t.transfer_id,
            spec_id_of_header(t.header),
            t.timestamp,
        ),
        forall|i: int| 0 <= i < frames@.len() ==> frame_wf(#[trigger] frames@[i]),
{
    let id = id_of_header(&t.header);
    let ghost p = t.payload@;
    let mut frames: Vec<Frame> = Vec::new();
    if t.payload.len() <= FRAME_DATA_LEN {
        let mut fp: Vec<u8> = Vec::new();
        let mut i: usize = 0;
        while i < t.payload.len()
            invariant
                i <= t.payload@.len() <= FRAME_DATA_LEN,
                fp@ =~= t.payload@.take(i as int),
            decreases t.payload@.len() - i,
        {
            let b = t.payload[i];
            fp.push(b);
            i = i + 1;
        }
        fp.push(tail_byte(true, true, false, t.transfer_id));
        proof {
            assert(p.take(p.len() as int) =~= p);
            assert(spec_chunk(p, 0) =~= p);
            assert(fp@ =~= spec_frame_payload(p, t.transfer_id, 0));
        }
        frames.push(Frame { timestamp: t.timestamp, id, payload: fp });
        return frames;
    }
    // Multi-frame: append the checksum, then chunk.
    let mut data: Vec<u8> = Vec::new();
    let mut i: usize = 0;
    while i < t.payload.len()
        invariant
            i <= t.payload@.len(),
            data@ =~= t.payload@.take(i as int),
        decreases t.payload@.len() - i,
    {
        let b = t.payload[i];
        data.push(b);
        i = i + 1;
    }
    proof {
        assert(data@ =~= p);
    }
    let c = crc16_compute(data.as_slice(), data.len());
    proof {
        assert(data@.take(data@.len() as int) =~= p);
        assert(c == crc16(p));
    }
    data.push((c >> 8u16) as u8);
    data.push((c & 0xFF) as u8);
    proof {
        assert(data@ =~= spec_transfer_data(p));
        lemma_frame_count_bounds(p);
    }
    let n: usize = (t.payload.len() + 8) / 7;
    let ghost dlen = data@.len() as int;
    let mut k: usize = 0;
    while k < n
        invariant
            transfer_wf(*t),
            k <= n,
            n == spec_frame_count(p),
            2 <= n,
            p.len() > FRAME_DATA_LEN,
            data@ == spec_transfer_data(p),
            dlen == data@.len(),
            7 * (n - 1) < dlen <= 7 * n,
            dlen + 7 <= usize::MAX,
            id == spec_id_of_header(t.header),
            id < 0x2000_0000,
            frames@.len() == k,
            forall|i2: int|
                0 <= i2 < k ==> (#[trigger] frames@[i2]).timestamp == t.timestamp
                    && frames@[i2].id == id
                    && frames@[i2].payload@ == spec_frame_payload(p, t.transfer_id, i2)
                    && frame_wf(frames@[i2]),
        decreases n - k,
    {
        proof {
            assert(k as int <= n - 1);
            assert(7 * (k as int) <= 7 * (n - 1) && 7 * (k as int) + 7 <= 7 * (n as int))
                by (nonlinear_arith)
                requires
                    k as int <= n - 1,
            ;
            assert(7 * (k as int) < dlen);
            assert(7 * (k as int) + 7 < dlen + 7);
        }
        let lo: usize = 7 * k;
        let hi: usize = if 7 * k + 7 <= data.len() {
            7 * k + 7
        } else {
            data.len()
        };
        let mut fp: Vec<u8> = Vec::new();
        let mut j: usize = lo;
        while j < hi
            invariant
                lo <= j <= hi,
                hi <= data@.len(),
                fp@ =~= data@.subrange(lo as int, j as int),
            decreases hi - j,
        {
            let b = data[j];
            fp.push(b);
            j = j + 1;
        }
        fp.push(tail_byte(k == 0, k == n - 1, k % 2 == 1, t.transfer_id));
        proof {
            assert(fp@ =~= spec_frame_payload(p, t.transfer_id, k as int));
            assert(hi - lo <= 7);
            assert(1 <= fp@.len() <= MTU);
        }
        frames.push(Frame { timestamp: t.timestamp, id, payload: fp });
        k = k + 1;
    }
    frames
}

/// Enqueueing a batch of frames, first to last, each at its stable
/// priority position.
pub open spec fn enqueue_all(q: Seq<Frame>, fs: Seq<Frame>) -> Seq<Frame>
    decreases fs.len(),
{
    if fs.len() == 0 {
        q
    } else {
        enqueue_all(stable_insert(q, fs[0]), fs.drop_first())
    }
}

/// Enqueueing one more frame after a batch enqueues it into the result.
pub proof fn lemma_enqueue_all_push(q: Seq<Frame>, fs: Seq<Frame>, f: Frame)
    ensures
        enqueue_all(q, fs.push(f)) == stable_insert(enqueue_all(q, fs), f),
    decreases fs.len(),
{
    if fs.len() == 0 {
        assert(fs.push(f)[0] == f);
        assert(fs.push(f).drop_first() =~= Seq::<Frame>::empty());
        assert(enqueue_all(stable_insert(q, f), Seq::<Frame>::empty()) == stable_insert(q, f));
    } else {
        assert(fs.push(f)[0] == fs[0]);
        assert(fs.push(f).drop_first() =~= fs.drop_first().push(f));
        lemma_enqueue_all_push(stable_insert(q, fs[0]), fs.drop_first(), f);
    }
}

/// Segments outgoing transfers and feeds the priority frame queue.
pub struct Transmitter {
    queue: FrameQueue,
}

impl Transmitter {
    /// The frames waiting to be transmitted, front first.
    pub closed spec fn view(&self) -> Seq<Frame> {
        self.queue@
    }

    /// The fixed capacity of the transmit queue, in frames.
    pub closed spec fn spec_capacity(&self) -> usize {
        self.queue.spec_capacity()
    }

    /// The transmit queue invariant: within capacity and sorted by
    /// identifier, so the front frame wins bus arbitration.
    pub open spec fn wf(&self) -> bool {
        self@.len() <= self.spec_capacity() && sorted_by_id(self@)
    }

    /// Creates a transmitter whose queue holds at most `capacity` frames.
    pub fn new(capacity: usize) -> (t: Transmitter)
        ensures
            t.wf(),
            t@ =~= Seq::<Frame>::empty(),
            t.spec_capacity() == capacity,
    {
        Transmitter { queue: FrameQueue::new(capacity) }
    }

    /// How many frames are waiting.
    pub fn len(&self) -> (n: usize)
        ensures
            n == self@.len(),
    {
        self.queue.len()
    }

    /// Removes and returns the queued frame that wins bus arbitration.
    pub fn pop_frame(&mut self) -> (r: Option<Frame>)
        requires
            old(self).wf(),
        ensures
            final(self).wf(),
            final(self).spec_capacity() == old(self).spec_capacity(),
            old(self)@.len() == 0 ==> r is None && final(self)@ == old(self)@,
            old(self)@.len() > 0 ==> r == Some(old(self)@[0]) && final(self)@ == old(self)@
                .drop_first(),
    {
        self.queue.pop_frame()
    }

    /// Re-inserts a popped frame whose transmission failed, keeping its
    /// place ahead of frames of equal identifier.
    pub fn return_frame(&mut self, frame: Frame) -> (r: Result<(), OutOfMemoryError>)
        requires
            old(self).wf(),
        ensures
            final(self).wf(),
            final(self).spec_capacity() == old(self).spec_capacity(),
            r is Ok <==> old(self)@.len() < old(self).spec_capacity(),
            r is Ok ==> final(self)@ == crate::queue::return_insert(old(self)@, frame),
            r is Err ==> final(self)@ == old(self)@,
    {
        self.queue.return_frame(frame)
    }

    /// Segments `t` and enqueues every frame of it, or enqueues nothing.
    ///
    /// Fails with `OutOfMemoryError` exactly when the queue cannot take
    /// the whole transfer; the queue is then unchanged, so no partial
    /// transfer is ever left behind.
    pub fn push(&mut self, t: &Transfer) -> (r: Result<(), OutOfMemoryError>)
        requires
            old(self).wf(),
            transfer_wf(*t),
            t.payload@.len() + 9 <= usize::MAX,
        ensures
            final(self).wf(),
            final(self).spec_capacity() == old(self).spec_capacity(),
            r is Ok <==> old(self)@.len() + spec_frame_count(t.payload@) <= old(
                self,
            ).spec_capacity(),
            r is Err ==> final(self)@ == old(self)@,
            r is Ok ==> exists|fs: Seq<Frame>|
                #[trigger] frames_match(
                    fs,
                    t.payload@,
                    t.transfer_id,
                    spec_id_of_header(t.header),
                    t.timestamp,
                ) && final(self)@ == enqueue_all(old(self)@, fs),
    {
        let mut frames = segment(t);
        let ghost all = frames@;
        proof {
            if t.payload@.len() > FRAME_DATA_LEN {
                lemma_frame_count_bounds(t.payload@);
            }
        }
        if self.queue.try_reserve(frames.len()).is_err() {
            return Err(OutOfMemoryError);
        }
        let ghost q0 = self.queue@;
        let mut k: usize = 0;
        let n = frames.len();
        proof {
            assert(all.take(0) =~= Seq::<Frame>::empty());
        }
        while k < n
            invariant
                self.queue.wf(),
                self.queue.spec_capacity() == old(self).spec_capacity(),
                k <= n,
                n == all.len(),
                frames@ =~= all.skip(k as int),
                q0.len() + n <= self.queue.spec_capacity(),
                self.queue@ == enqueue_all(q0, all.take(k as int)),
                self.queue@.len() == q0.len() + k,
            decreases n - k,
        {
            let f = frames.remove(0);
            let ghost qk = self.queue@;
            proof {
                assert(f == all[k as int]);
                assert(frames@ =~= all.skip(k as int + 1));
                assert(all.take(k as int).push(all[k as int]) =~= all.take(k as int + 1));
                lemma_enqueue_all_push(q0, all.take(k as int), all[k as int]);
                crate::queue::lemma_push_stable(qk, all[k as int]);
            }
            let res = self.queue.push_frame(f);
            proof {
                assert(res is Ok);
                assert(self.queue@ == stable_insert(qk, all[k as int]));
                assert(self.queue@.len() == qk.len() + 1);
            }
            k = k + 1;
        }
        proof {
            assert(all.take(n as int) =~= all);
        }
        Ok(())
    }
}

} // verus!
