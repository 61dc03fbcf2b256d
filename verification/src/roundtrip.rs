//! End-to-end laws of segmentation and reassembly: a segmented transfer
//! reassembles to exactly the original payload; swapping two interior
//! frames is caught by the toggle bit, and corrupting any single payload
//! byte is caught by the checksum, so nothing is delivered.

use vstd::prelude::*;
use crate::frame::{
    header_wf, lemma_id_round_trip, lemma_tail_byte_round_trip, spec_header_of_id,
    spec_id_of_header, tail_start, TransferHeader,
};
use crate::receiver::{
    rx_step, spec_key_of_header, SessionKey, SessionModel, TransferModel,
};
use crate::transmitter::{
    lemma_frame_count_bounds, spec_chunk, spec_frame_count, spec_frame_payload,
    spec_transfer_data,
};
use crate::types::{valid_transfer_id, FRAME_DATA_LEN};

verus! {

/// The outcome of running a sequence of frames through one key's state
/// machine.
pub ghost struct RunOutcome {
    /// The session the key has after the last frame.
    pub session: Option<SessionModel>,
    /// Every transfer delivered, in order.
    pub delivered: Seq<TransferModel>,
}

/// Folds [`rx_step`] over a sequence of frame payloads, collecting what
/// gets delivered.
pub open spec fn rx_run(
    st: Option<SessionModel>,
    key: SessionKey,
    h: TransferHeader,
    fps: Seq<Seq<u8>>,
    ts: u64,
) -> RunOutcome
    decreases fps.len(),
{
    if fps.len() == 0 {
        RunOutcome { session: st, delivered: Seq::empty() }
    } else {
        let out = rx_step(st, key, h, fps[0], ts);
        let rest = rx_run(out.session, key, h, fps.drop_first(), ts);
        RunOutcome {
            session: rest.session,
            delivered: (match out.transfer {
                Some(t) => seq![t],
                None => Seq::empty(),
            }) + rest.delivered,
        }
    }
}

/// The frame payloads a transfer segments into, in transmission order.
pub open spec fn spec_frame_payloads(p: Seq<u8>, tid: u8) -> Seq<Seq<u8>> {
    Seq::new(spec_frame_count(p) as nat, |i: int| spec_frame_payload(p, tid, i))
}

/// The session of a key part way through a multi-frame transfer: after
/// the first `k` frames, the buffer holds the first `7 k` data bytes and
/// the next frame must carry toggle `k % 2`.
pub open spec fn spec_session_after(
    key: SessionKey,
    tid: u8,
    p: Seq<u8>,
    ts: u64,
    k: int,
) -> SessionModel {
    SessionModel {
        key,
        transfer_id: tid,
        toggle: k % 2 == 1,
        done: false,
        buffer: spec_transfer_data(p).take(7 * k),
        last_activity: ts,
    }
}

/// Running a concatenation is running the parts in turn.
pub proof fn lemma_run_append(
    st: Option<SessionModel>,
    key: SessionKey,
    h: TransferHeader,
    a: Seq<Seq<u8>>,
    b: Seq<Seq<u8>>,
    ts: u64,
)
    ensures
        rx_run(st, key, h, a + b, ts).session == rx_run(
            rx_run(st, key, h, a, ts).session,
            key,
            h,
            b,
            ts,
        ).session,
        rx_run(st, key, h, a + b, ts).delivered =~= rx_run(st, key, h, a, ts).delivered + rx_run(
            rx_run(st, key, h, a, ts).session,
            key,
            h,
            b,
            ts,
        ).delivered,
    decreases a.len(),
{
    if a.len() == 0 {
        assert(a + b =~= b);
        assert(rx_run(st, key, h, a, ts).delivered =~= Seq::<TransferModel>::empty());
    } else {
        assert((a + b)[0] == a[0]);
        assert((a + b).drop_first() =~= a.drop_first() + b);
        let out = rx_step(st, key, h, a[0], ts);
        lemma_run_append(out.session, key, h, a.drop_first(), b, ts);
    }
}

/// The tail-byte fields of the `i`-th frame of a segmentation.
proof fn lemma_frame_fields(p: Seq<u8>, tid: u8, i: int)
    requires
        valid_transfer_id(tid),
        0 <= i < spec_frame_count(p),
    ensures
        spec_frame_payload(p, tid, i).len() >= 1,
        spec_frame_payload(p, tid, i).last() == crate::frame::spec_tail_byte(
            i == 0,
            i == spec_frame_count(p) - 1,
            i % 2 == 1,
            tid,
        ),
        spec_frame_payload(p, tid, i).drop_last() =~= spec_chunk(p, i),
        tail_start(spec_frame_payload(p, tid, i).last()) == (i == 0),
        crate::frame::tail_end(spec_frame_payload(p, tid, i).last()) == (i == spec_frame_count(p)
            - 1),
        crate::frame::tail_toggle(spec_frame_payload(p, tid, i).last()) == (i % 2 == 1),
        crate::frame::tail_transfer_id(spec_frame_payload(p, tid, i).last()) == tid,
{
    lemma_tail_byte_round_trip(i == 0, i == spec_frame_count(p) - 1, i % 2 == 1, tid);
}

/// The transfer a complete reassembly delivers.
pub open spec fn spec_delivered(h: TransferHeader, tid: u8, p: Seq<u8>, ts: u64)
    -> TransferModel {
    TransferModel { timestamp: ts, header: h, transfer_id: tid, payload: p }
}

/// One interior or final frame advances a mid-transfer session, and from
/// any mid-transfer point the remaining frames of the segmentation
/// deliver exactly the original payload.
proof fn lemma_run_from(
    key: SessionKey,
    h: TransferHeader,
    tid: u8,
    p: Seq<u8>,
    ts: u64,
    k: int,
)
    requires
        valid_transfer_id(tid),
        p.len() > FRAME_DATA_LEN,
        1 <= k < spec_frame_count(p),
    ensures
        ({
            let fps = spec_frame_payloads(p, tid);
            let r = rx_run(Some(spec_session_after(key, tid, p, ts, k)), key, h, fps.skip(k), ts);
            r.delivered =~= seq![spec_delivered(h, tid, p, ts)]
        }),
    decreases spec_frame_count(p) - k,
{
    let n = spec_frame_count(p);
    let data = spec_transfer_data(p);
    lemma_frame_count_bounds(p);
    let fps = spec_frame_payloads(p, tid);
    assert(fps.skip(k)[0] == fps[k]);
    assert(fps[k] == spec_frame_payload(p, tid, k));
    lemma_frame_fields(p, tid, k);
    let st = spec_session_after(key, tid, p, ts, k);
    let out = rx_step(Some(st), key, h, fps[k], ts);
    assert(fps[k].drop_last() =~= spec_chunk(p, k));
    assert(7 * k < data.len()) by {
        assert(7 * k <= 7 * (n - 1)) by (nonlinear_arith)
            requires
                k <= n - 1,
        ;
    }
    let buf = st.buffer + fps[k].drop_last();
    if k < n - 1 {
        assert(7 * k + 7 <= data.len()) by {
            assert(7 * (k + 1) <= 7 * (n - 1)) by (nonlinear_arith)
                requires
                    k + 1 <= n - 1,
            ;
        }
        assert(spec_chunk(p, k) =~= data.subrange(7 * k, 7 * k + 7));
        assert(buf =~= data.take(7 * (k + 1)));
        assert(out.session.unwrap() =~= spec_session_after(key, tid, p, ts, k + 1));
        assert(out.transfer is None);
        lemma_run_from(key, h, tid, p, ts, k + 1);
        assert(fps.skip(k).drop_first() =~= fps.skip(k + 1));
        let rest = rx_run(Some(spec_session_after(key, tid, p, ts, k + 1)), key, h, fps.skip(
            k + 1,
        ), ts);
        assert(Seq::<TransferModel>::empty() + rest.delivered =~= rest.delivered);
    } else {
        // The final frame: the buffer becomes the whole data stream, the
        // checksum at its end verifies, and the payload is delivered.
        assert(k == n - 1);
        assert(spec_chunk(p, k) =~= data.subrange(7 * k, data.len() as int));
        assert(buf =~= data);
        assert(data =~= p + crate::crc::crc16_bytes(p));
        assert(data.len() == p.len() + 2);
        assert(data.take(data.len() - 2) =~= p);
        assert(buf.take(buf.len() - 2) =~= p);
        assert(buf[buf.len() - 1] == crate::crc::crc16_bytes(p)[1]);
        assert(buf[buf.len() - 2] == crate::crc::crc16_bytes(p)[0]);
        assert(crate::receiver::spec_crc_ok(buf));
        assert(out.transfer is Some);
        assert(out.transfer.unwrap() =~= spec_delivered(h, tid, p, ts));
        assert(fps.skip(k).drop_first() =~= Seq::<Seq<u8>>::empty());
        let rest = rx_run(out.session, key, h, Seq::<Seq<u8>>::empty(), ts);
        assert(rest.delivered =~= Seq::<TransferModel>::empty());
        assert(seq![out.transfer.unwrap()] + rest.delivered =~= seq![
            spec_delivered(h, tid, p, ts),
        ]);
    }
}

/// Law (round trip): segmenting any payload and feeding the frames, in
/// order, to an idle reassembly key delivers exactly one transfer, with
/// the original payload, transfer id and header — the header riding the
/// CAN identifier unchanged.
pub proof fn lemma_round_trip(h: TransferHeader, tid: u8, p: Seq<u8>, ts: u64)
    requires
        header_wf(h),
        valid_transfer_id(tid),
    ensures
        spec_header_of_id(spec_id_of_header(h)) == h,
        ({
            let r = rx_run(
                None,
                spec_key_of_header(h),
                h,
                spec_frame_payloads(p, tid),
                ts,
            );
            r.delivered =~= seq![spec_delivered(h, tid, p, ts)]
        }),
{
    lemma_id_round_trip(h);
    let key = spec_key_of_header(h);
    let fps = spec_frame_payloads(p, tid);
    let n = spec_frame_count(p);
    lemma_frame_fields(p, tid, 0);
    assert(fps[0] == spec_frame_payload(p, tid, 0));
    let out = rx_step(None, key, h, fps[0], ts);
    if p.len() <= FRAME_DATA_LEN {
        assert(spec_chunk(p, 0) =~= p);
        assert(fps[0].drop_last() =~= p);
        assert(out.transfer is Some);
        assert(out.transfer.unwrap() =~= spec_delivered(h, tid, p, ts));
        assert(fps.drop_first() =~= Seq::<Seq<u8>>::empty());
        let rest = rx_run(out.session, key, h, Seq::<Seq<u8>>::empty(), ts);
        assert(seq![out.transfer.unwrap()] + rest.delivered =~= seq![
            spec_delivered(h, tid, p, ts),
        ]);
    } else {
        lemma_frame_count_bounds(p);
        let data = spec_transfer_data(p);
        assert(7 * 1 <= data.len());
        assert(spec_chunk(p, 0) =~= data.take(7));
        assert(fps[0].drop_last() =~= data.take(7));
        assert(out.session.unwrap() =~= spec_session_after(key, tid, p, ts, 1));
        assert(out.transfer is None);
        lemma_run_from(key, h, tid, p, ts, 1);
        assert(fps.drop_first() =~= fps.skip(1));
        let rest = rx_run(Some(spec_session_after(key, tid, p, ts, 1)), key, h, fps.skip(1), ts);
        assert(Seq::<TransferModel>::empty() + rest.delivered =~= rest.delivered);
    }
}

/// Frames that never carry a start flag leave an idle key idle and
/// deliver nothing.
proof fn lemma_dead_run(key: SessionKey, h: TransferHeader, fps: Seq<Seq<u8>>, ts: u64)
    requires
        forall|i: int|
            0 <= i < fps.len() ==> (#[trigger] fps[i]).len() >= 1 && !tail_start(fps[i].last()),
    ensures
        rx_run(None, key, h, fps, ts).session is None,
        rx_run(None, key, h, fps, ts).delivered =~= Seq::<TransferModel>::empty(),
    decreases fps.len(),
{
    if fps.len() > 0 {
        let out = rx_step(None, key, h, fps[0], ts);
        assert(out.session is None && out.transfer is None);
        assert(forall|i: int|
            0 <= i < fps.drop_first().len() ==> (#[trigger] fps.drop_first()[i]).len() >= 1
                && !tail_start(fps.drop_first()[i].last()));
        lemma_dead_run(key, h, fps.drop_first(), ts);
        assert(Seq::<TransferModel>::empty() + rx_run(None, key, h, fps.drop_first(), ts).delivered
            =~= Seq::<TransferModel>::empty());
    }
}

/// After the first `k` frames of a segmentation, and nothing else, an
/// idle key is mid-transfer with the first `7 k` data bytes buffered.
proof fn lemma_prefix_state(
    key: SessionKey,
    h: TransferHeader,
    tid: u8,
    p: Seq<u8>,
    ts: u64,
    k: int,
)
    requires
        valid_transfer_id(tid),
        p.len() > FRAME_DATA_LEN,
        1 <= k <= spec_frame_count(p) - 1,
    ensures
        ({
            let r = rx_run(None, key, h, spec_frame_payloads(p, tid).take(k), ts);
            r.session == Some(spec_session_after(key, tid, p, ts, k)) && r.delivered
                =~= Seq::<TransferModel>::empty()
        }),
    decreases k,
{
    let fps = spec_frame_payloads(p, tid);
    let n = spec_frame_count(p);
    let data = spec_transfer_data(p);
    lemma_frame_count_bounds(p);
    if k == 1 {
        lemma_frame_fields(p, tid, 0);
        assert(fps.take(1)[0] == fps[0]);
        assert(fps[0] == spec_frame_payload(p, tid, 0));
        let out = rx_step(None, key, h, fps[0], ts);
        assert(spec_chunk(p, 0) =~= data.take(7));
        assert(fps[0].drop_last() =~= data.take(7));
        assert(out.session is Some);
        assert(out.session.unwrap() =~= spec_session_after(key, tid, p, ts, 1));
        assert(out.transfer is None);
        assert(fps.take(1).drop_first() =~= Seq::<Seq<u8>>::empty());
        let rest = rx_run(out.session, key, h, fps.take(1).drop_first(), ts);
        assert(rest.session == out.session && rest.delivered =~= Seq::<TransferModel>::empty());
        assert(rx_run(None, key, h, fps.take(1), ts).session == out.session);
        assert(rx_run(None, key, h, fps.take(1), ts).delivered =~= Seq::<
            TransferModel,
        >::empty());
    } else {
        lemma_prefix_state(key, h, tid, p, ts, k - 1);
        assert(fps.take(k) =~= fps.take(k - 1) + seq![fps[k - 1]]);
        lemma_run_append(None, key, h, fps.take(k - 1), seq![fps[k - 1]], ts);
        let st = spec_session_after(key, tid, p, ts, k - 1);
        lemma_frame_fields(p, tid, k - 1);
        assert(fps[k - 1] == spec_frame_payload(p, tid, k - 1));
        assert(seq![fps[k - 1]][0] == fps[k - 1]);
        let out = rx_step(Some(st), key, h, fps[k - 1], ts);
        assert(7 * (k - 1) + 7 <= data.len()) by {
            assert(7 * k <= 7 * (n - 1)) by (nonlinear_arith)
                requires
                    k <= n - 1,
            ;
        }
        assert(fps[k - 1].drop_last() =~= spec_chunk(p, k - 1));
        assert(spec_chunk(p, k - 1) =~= data.subrange(7 * (k - 1), 7 * (k - 1) + 7));
        assert(st.buffer + fps[k - 1].drop_last() =~= data.take(7 * k));
        assert(out.session is Some);
        assert(out.session.unwrap() =~= spec_session_after(key, tid, p, ts, k));
        assert(out.transfer is None);
        let single = seq![fps[k - 1]];
        let r1 = rx_run(Some(st), key, h, single, ts);
        assert(single.drop_first() =~= Seq::<Seq<u8>>::empty());
        assert(rx_run(out.session, key, h, single.drop_first(), ts).session == out.session);
        assert(r1.session == out.session);
        assert(r1.delivered =~= Seq::<TransferModel>::empty());
        assert(rx_run(None, key, h, fps.take(k), ts).session == out.session);
        assert(rx_run(None, key, h, fps.take(k), ts).delivered =~= Seq::<
            TransferModel,
        >::empty());
    }
}

/// A transfer data stream with one payload byte changed fails its own
/// trailing checksum: the stored checksum bytes still belong to the
/// uncorrupted payload.
proof fn lemma_corrupt_data_fails_crc(p: Seq<u8>, d: int, b: u8)
    requires
        p.len() > FRAME_DATA_LEN,
        0 <= d < p.len(),
        b != p[d],
    ensures
        !crate::receiver::spec_crc_ok(spec_transfer_data(p).update(d, b)),
{
    let data = spec_transfer_data(p);
    let buf = data.update(d, b);
    let l = buf.len() as int;
    assert(l == p.len() + 2);
    let body = buf.take(l - 2);
    assert(body =~= p.update(d, b));
    crate::crc::lemma_corrupt_byte_changes_crc(p, d, b);
    assert(buf[l - 1] == (crate::crc::crc16(p) & 0xFF) as u8);
    assert(buf[l - 2] == (crate::crc::crc16(p) >> 8) as u8);
    if crate::receiver::spec_crc_ok(buf) {
        let c1 = crate::crc::crc16(body);
        let c2 = crate::crc::crc16(p);
        assert(((c1 >> 8) as u8 == (c2 >> 8) as u8 && (c1 & 0xFF) as u8 == (c2 & 0xFF) as u8)
            ==> c1 == c2) by (bit_vector);
    }
}

/// Once a corrupted byte sits in a mid-transfer buffer, the remaining
/// frames of the segmentation deliver nothing: the final checksum
/// verification fails and the session is evicted.
proof fn lemma_run_from_corrupted(
    key: SessionKey,
    h: TransferHeader,
    tid: u8,
    p: Seq<u8>,
    ts: u64,
    k: int,
    d: int,
    b: u8,
)
    requires
        valid_transfer_id(tid),
        p.len() > FRAME_DATA_LEN,
        1 <= k < spec_frame_count(p),
        0 <= d < 7 * k,
        d < p.len(),
        b != spec_transfer_data(p)[d],
    ensures
        ({
            let fps = spec_frame_payloads(p, tid);
            let st = SessionModel {
                key,
                transfer_id: tid,
                toggle: k % 2 == 1,
                done: false,
                buffer: spec_transfer_data(p).take(7 * k).update(d, b),
                last_activity: ts,
            };
            rx_run(Some(st), key, h, fps.skip(k), ts).delivered =~= Seq::<TransferModel>::empty()
        }),
    decreases spec_frame_count(p) - k,
{
    let n = spec_frame_count(p);
    let data = spec_transfer_data(p);
    lemma_frame_count_bounds(p);
    let fps = spec_frame_payloads(p, tid);
    assert(fps.skip(k)[0] == fps[k]);
    assert(fps[k] == spec_frame_payload(p, tid, k));
    lemma_frame_fields(p, tid, k);
    let st = SessionModel {
        key,
        transfer_id: tid,
        toggle: k % 2 == 1,
        done: false,
        buffer: data.take(7 * k).update(d, b),
        last_activity: ts,
    };
    let out = rx_step(Some(st), key, h, fps[k], ts);
    assert(fps[k].drop_last() =~= spec_chunk(p, k));
    assert(7 * k < data.len()) by {
        assert(7 * k <= 7 * (n - 1)) by (nonlinear_arith)
            requires
                k <= n - 1,
        ;
    }
    let buf = st.buffer + fps[k].drop_last();
    if k < n - 1 {
        assert(7 * k + 7 <= data.len()) by {
            assert(7 * (k + 1) <= 7 * (n - 1)) by (nonlinear_arith)
                requires
                    k + 1 <= n - 1,
            ;
        }
        assert(spec_chunk(p, k) =~= data.subrange(7 * k, 7 * k + 7));
        assert(buf =~= data.take(7 * (k + 1)).update(d, b));
        assert(out.transfer is None);
        lemma_run_from_corrupted(key, h, tid, p, ts, k + 1, d, b);
        let st2 = SessionModel {
            key,
            transfer_id: tid,
            toggle: (k + 1) % 2 == 1,
            done: false,
            buffer: data.take(7 * (k + 1)).update(d, b),
            last_activity: ts,
        };
        assert(out.session.unwrap() =~= st2);
        assert(fps.skip(k).drop_first() =~= fps.skip(k + 1));
        let rest = rx_run(Some(st2), key, h, fps.skip(k + 1), ts);
        assert(Seq::<TransferModel>::empty() + rest.delivered =~= rest.delivered);
    } else {
        assert(k == n - 1);
        assert(spec_chunk(p, k) =~= data.subrange(7 * k, data.len() as int));
        assert(buf =~= data.update(d, b));
        lemma_corrupt_data_fails_crc(p, d, b);
        assert(out.session is None && out.transfer is None);
        assert(fps.skip(k).drop_first() =~= Seq::<Seq<u8>>::empty());
        let rest = rx_run(out.session, key, h, Seq::<Seq<u8>>::empty(), ts);
        assert(Seq::<TransferModel>::empty() + rest.delivered =~= Seq::<TransferModel>::empty());
    }
}

/// Law (corruption detected): change any single payload byte of any one
/// frame of a multi-frame transfer and reassembly from an idle key
/// delivers nothing — the checksum catches it.
pub proof fn lemma_corruption_detected(
    key: SessionKey,
    h: TransferHeader,
    tid: u8,
    p: Seq<u8>,
    ts: u64,
    d: int,
    b: u8,
)
    requires
        valid_transfer_id(tid),
        p.len() > FRAME_DATA_LEN,
        0 <= d < p.len(),
        b != p[d],
    ensures
        ({
            let fps = spec_frame_payloads(p, tid);
            let altered = fps.update(d / 7, fps[d / 7].update(d % 7, b));
            rx_run(None, key, h, altered, ts).delivered =~= Seq::<TransferModel>::empty()
        }),
{
    let n = spec_frame_count(p);
    let data = spec_transfer_data(p);
    lemma_frame_count_bounds(p);
    let fps = spec_frame_payloads(p, tid);
    let fi = d / 7;
    let off = d % 7;
    vstd::arithmetic::div_mod::lemma_fundamental_div_mod(d, 7);
    vstd::arithmetic::div_mod::lemma_mod_bound(d, 7);
    assert(d == 7 * fi + off && 0 <= off < 7);
    assert(0 <= fi);
    assert(fi < n) by {
        if fi >= n {
            assert(7 * fi >= 7 * n) by (nonlinear_arith)
                requires
                    fi >= n,
            ;
        }
    }
    assert(data[d] == p[d]);
    lemma_frame_fields(p, tid, fi);
    let fp0 = fps[fi];
    let fpx = fp0.update(off, b);
    let altered = fps.update(fi, fpx);
    // The altered byte is a data byte: the tail byte is untouched, so
    // the frame still parses the same way.
    assert(fp0 == spec_frame_payload(p, tid, fi));
    assert(fp0.drop_last() =~= spec_chunk(p, fi));
    assert(7 * fi < data.len() && d < data.len());
    assert(spec_chunk(p, fi).len() > off);
    assert(fpx.last() == fp0.last());
    assert(fpx.drop_last() =~= spec_chunk(p, fi).update(off, b));
    if fi == 0 {
        // The corrupted frame opens the transfer.
        assert(altered[0] == fpx);
        let out = rx_step(None, key, h, fpx, ts);
        assert(out.transfer is None);
        assert(spec_chunk(p, 0) =~= data.take(7));
        assert(fpx.drop_last() =~= data.take(7).update(d, b));
        let st1 = SessionModel {
            key,
            transfer_id: tid,
            toggle: true,
            done: false,
            buffer: data.take(7 as int).update(d, b),
            last_activity: ts,
        };
        assert(out.session.unwrap() =~= st1);
        lemma_run_from_corrupted(key, h, tid, p, ts, 1, d, b);
        assert(altered.drop_first() =~= fps.skip(1));
        let rest = rx_run(Some(st1), key, h, fps.skip(1), ts);
        assert(Seq::<TransferModel>::empty() + rest.delivered =~= Seq::<TransferModel>::empty());
    } else {
        // Clean prefix, corrupted frame, clean remainder.
        let tail_part = seq![fpx] + fps.skip(fi + 1);
        assert(altered =~= fps.take(fi) + tail_part);
        lemma_run_append(None, key, h, fps.take(fi), tail_part, ts);
        lemma_prefix_state(key, h, tid, p, ts, fi);
        let st = spec_session_after(key, tid, p, ts, fi);
        assert(tail_part[0] == fpx);
        let out = rx_step(Some(st), key, h, fpx, ts);
        let buf = st.buffer + fpx.drop_last();
        if fi < n - 1 {
            assert(7 * fi + 7 <= data.len()) by {
                assert(7 * (fi + 1) <= 7 * (n - 1)) by (nonlinear_arith)
                    requires
                        fi + 1 <= n - 1,
                ;
            }
            assert(spec_chunk(p, fi) =~= data.subrange(7 * fi, 7 * fi + 7));
            assert(buf =~= data.take(7 * (fi + 1)).update(d, b));
            assert(out.transfer is None);
            let st2 = SessionModel {
                key,
                transfer_id: tid,
                toggle: (fi + 1) % 2 == 1,
                done: false,
                buffer: data.take(7 * (fi + 1)).update(d, b),
                last_activity: ts,
            };
            assert(out.session.unwrap() =~= st2);
            lemma_run_from_corrupted(key, h, tid, p, ts, fi + 1, d, b);
            assert(tail_part.drop_first() =~= fps.skip(fi + 1));
            let rest = rx_run(Some(st2), key, h, fps.skip(fi + 1), ts);
            assert(Seq::<TransferModel>::empty() + rest.delivered =~= Seq::<
                TransferModel,
            >::empty());
        } else {
            // The corruption sits in the final frame itself.
            assert(spec_chunk(p, fi) =~= data.subrange(7 * fi, data.len() as int));
            assert(buf =~= data.update(d, b));
            lemma_corrupt_data_fails_crc(p, d, b);
            assert(out.session is None && out.transfer is None);
            assert(tail_part.drop_first() =~= fps.skip(fi + 1));
            assert(fps.skip(fi + 1) =~= Seq::<Seq<u8>>::empty());
            lemma_dead_run(key, h, Seq::<Seq<u8>>::empty(), ts);
        }
    }
}

/// Law (checksum failure drops the transfer): when a final frame
/// completes a buffer whose trailing checksum does not verify, nothing
/// is delivered and the session is evicted.
pub proof fn lemma_checksum_failure_drops(
    st: SessionModel,
    key: SessionKey,
    h: TransferHeader,
    fp: Seq<u8>,
    ts: u64,
)
    requires
        fp.len() >= 1,
        !tail_start(fp.last()),
        crate::frame::tail_end(fp.last()),
        !st.done,
        st.transfer_id == crate::frame::tail_transfer_id(fp.last()),
        st.toggle == crate::frame::tail_toggle(fp.last()),
        !crate::receiver::spec_crc_ok(st.buffer + fp.drop_last()),
    ensures
        rx_step(Some(st), key, h, fp, ts).session is None,
        rx_step(Some(st), key, h, fp, ts).transfer is None,
{
}

/// Law (reordering detected): swap two adjacent interior frames of a
/// multi-frame transfer — neither the first nor the last frame — and the
/// toggle bit catches it: reassembly from an idle key delivers nothing.
pub proof fn lemma_reorder_detected(
    key: SessionKey,
    h: TransferHeader,
    tid: u8,
    p: Seq<u8>,
    ts: u64,
    j: int,
)
    requires
        valid_transfer_id(tid),
        p.len() > FRAME_DATA_LEN,
        1 <= j,
        j + 1 <= spec_frame_count(p) - 2,
    ensures
        ({
            let fps = spec_frame_payloads(p, tid);
            let swapped = fps.update(j, fps[j + 1]).update(j + 1, fps[j]);
            rx_run(None, key, h, swapped, ts).delivered =~= Seq::<TransferModel>::empty()
        }),
{
    let fps = spec_frame_payloads(p, tid);
    let n = spec_frame_count(p);
    lemma_frame_count_bounds(p);
    let swapped = fps.update(j, fps[j + 1]).update(j + 1, fps[j]);
    let tail2 = seq![fps[j]] + fps.skip(j + 2);
    let b = seq![fps[j + 1]] + tail2;
    assert(swapped =~= fps.take(j) + b);
    lemma_run_append(None, key, h, fps.take(j), b, ts);
    lemma_prefix_state(key, h, tid, p, ts, j);
    let st = spec_session_after(key, tid, p, ts, j);
    lemma_frame_fields(p, tid, j);
    lemma_frame_fields(p, tid, j + 1);
    assert(b[0] == fps[j + 1]);
    let out = rx_step(Some(st), key, h, fps[j + 1], ts);
    // The swapped-forward frame carries the wrong toggle, so the session
    // is evicted and nothing is delivered.
    assert(crate::frame::tail_toggle(fps[j + 1].last()) == ((j + 1) % 2 == 1));
    assert(st.toggle == (j % 2 == 1));
    assert((j + 1) % 2 != j % 2);
    assert(!tail_start(fps[j + 1].last()));
    assert(out.session is None && out.transfer is None);
    assert(b.drop_first() =~= tail2);
    assert forall|i: int|
        0 <= i < tail2.len() implies (#[trigger] tail2[i]).len() >= 1 && !tail_start(
        tail2[i].last(),
    ) by {
        if i == 0 {
            assert(tail2[0] == fps[j]);
        } else {
            assert(tail2[i] == fps[j + 1 + i]);
            lemma_frame_fields(p, tid, j + 1 + i);
        }
    }
    lemma_dead_run(key, h, tail2, ts);
    assert(rx_run(None, key, h, swapped, ts).delivered =~= Seq::<TransferModel>::empty());
}

} // verus!
