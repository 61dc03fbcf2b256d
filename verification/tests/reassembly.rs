//! Reassembly, transfer-id bookkeeping, request/response flow, and the
//! queue-only driver.

use can_transport::driver::{
    QueueOnlyDriver, Subscription, SubscriptionKind, RX_QUEUE_CAPACITY,
};
use can_transport::frame::{
    header_of_id, Frame, ServiceHeader, TransferHeader, TransferKindHeader,
};
use can_transport::receiver::{EvictionPolicy, Receiver};
use can_transport::requester::{response_token, NextTransferIds, Requester, Responder};
use can_transport::transfer::Transfer;
use can_transport::types::OutOfMemoryError;
use can_transport::transmitter::{segment, Transmitter};

fn message_header(source: u8, priority: u8, subject: u16) -> TransferHeader {
    TransferHeader {
        source,
        priority,
        kind: TransferKindHeader::Message { subject },
    }
}

fn frames_of(source: u8, subject: u16, tid: u8, payload: &[u8]) -> Vec<Frame> {
    segment(&Transfer {
        timestamp: 0,
        header: message_header(source, 0, subject),
        transfer_id: tid,
        payload: payload.to_vec(),
    })
}

fn feed(rx: &mut Receiver, frames: Vec<Frame>) -> Vec<Transfer> {
    let mut delivered = Vec::new();
    for f in frames {
        if let Some(t) = rx.accept(f).unwrap() {
            delivered.push(t);
        }
    }
    delivered
}

#[test]
fn round_trip_various_lengths() {
    // Segmentation then in-order reassembly returns the exact payload
    // and header, for lengths from empty to several times the MTU.
    for len in [0usize, 1, 6, 7, 8, 13, 14, 20, 21, 40, 100] {
        let payload: Vec<u8> = (0..len).map(|i| (i * 7 + len) as u8).collect();
        let mut rx = Receiver::new(8, 1000, EvictionPolicy::RejectNew);
        let frames = frames_of(9, 77, 3, &payload);
        let delivered = feed(&mut rx, frames);
        assert_eq!(delivered.len(), 1, "payload length {}", len);
        assert_eq!(delivered[0].payload, payload);
        assert_eq!(delivered[0].header, message_header(9, 0, 77));
        assert_eq!(delivered[0].transfer_id, 3);
    }
}

#[test]
fn reordered_interior_frames_drop_transfer() {
    // Swapping two adjacent non-boundary frames trips the toggle check.
    let payload: Vec<u8> = (0u8..25).collect();
    let mut frames = frames_of(9, 77, 0, &payload);
    assert!(frames.len() >= 4);
    frames.swap(1, 2);
    let mut rx = Receiver::new(8, 1000, EvictionPolicy::RejectNew);
    let delivered = feed(&mut rx, frames);
    assert_eq!(delivered.len(), 0);
}

#[test]
fn corrupted_byte_fails_checksum() {
    // One flipped payload byte in a middle frame reaches the end of the
    // transfer and fails checksum verification: nothing is delivered.
    let payload: Vec<u8> = (0u8..20).collect();
    let mut frames = frames_of(9, 77, 0, &payload);
    frames[1].payload[0] ^= 0x01;
    let mut rx = Receiver::new(8, 1000, EvictionPolicy::RejectNew);
    let delivered = feed(&mut rx, frames);
    assert_eq!(delivered.len(), 0);
    // The corrupted session was evicted; a clean retry succeeds with a
    // newer transfer id.
    let delivered = feed(&mut rx, frames_of(9, 77, 1, &payload));
    assert_eq!(delivered.len(), 1);
    assert_eq!(delivered[0].payload, payload);
}

#[test]
fn duplicate_transfer_delivered_once() {
    let payload = b"hi".to_vec();
    let mut rx = Receiver::new(8, 1000, EvictionPolicy::RejectNew);
    let delivered = feed(&mut rx, frames_of(9, 77, 5, &payload));
    assert_eq!(delivered.len(), 1);
    // The same transfer again: a duplicate, silently dropped.
    let delivered = feed(&mut rx, frames_of(9, 77, 5, &payload));
    assert_eq!(delivered.len(), 0);
    // A newer transfer id is accepted.
    let delivered = feed(&mut rx, frames_of(9, 77, 6, &payload));
    assert_eq!(delivered.len(), 1);
}

#[test]
fn sessions_are_independent_per_source() {
    let mut rx = Receiver::new(8, 1000, EvictionPolicy::RejectNew);
    let a: Vec<u8> = (0u8..20).collect();
    let b: Vec<u8> = (100u8..120).collect();
    let fa = frames_of(1, 77, 0, &a);
    let fb = frames_of(2, 77, 0, &b);
    // Interleave the two sources frame by frame.
    let mut delivered = Vec::new();
    for (x, y) in fa.into_iter().zip(fb.into_iter()) {
        if let Some(t) = rx.accept(x).unwrap() {
            delivered.push(t);
        }
        if let Some(t) = rx.accept(y).unwrap() {
            delivered.push(t);
        }
    }
    assert_eq!(delivered.len(), 2);
    assert_eq!(delivered[0].payload, a);
    assert_eq!(delivered[1].payload, b);
}

#[test]
fn session_timeout_sweep_evicts_and_is_idempotent() {
    let mut rx = Receiver::new(8, 100, EvictionPolicy::RejectNew);
    let payload: Vec<u8> = (0u8..20).collect();
    let mut frames = frames_of(9, 77, 0, &payload);
    let rest = frames.split_off(1);
    // Start a transfer and never finish it.
    let delivered = feed(&mut rx, frames);
    assert_eq!(delivered.len(), 0);
    assert_eq!(rx.session_count(), 1);
    // Not yet expired.
    rx.sweep(100);
    assert_eq!(rx.session_count(), 1);
    // Expired: the session is reclaimed; sweeping again changes nothing.
    rx.sweep(101);
    assert_eq!(rx.session_count(), 0);
    rx.sweep(101);
    assert_eq!(rx.session_count(), 0);
    // The stale continuation frames now match nothing.
    let delivered = feed(&mut rx, rest);
    assert_eq!(delivered.len(), 0);
    // A fresh transfer on the same key works.
    let delivered = feed(&mut rx, frames_of(9, 77, 1, &payload));
    assert_eq!(delivered.len(), 1);
}

#[test]
fn full_table_rejects_new_session() {
    let mut rx = Receiver::new(1, 1000, EvictionPolicy::RejectNew);
    let a: Vec<u8> = (0u8..20).collect();
    let fa = frames_of(1, 77, 0, &a);
    assert!(rx.accept(fa[0].clone()).unwrap().is_none());
    // A second source needs a second session: refused, table unchanged.
    let fb = frames_of(2, 77, 0, &a);
    assert!(rx.accept(fb[0].clone()).is_err());
    assert_eq!(rx.session_count(), 1);
    // The first transfer still completes.
    let delivered = feed(&mut rx, fa.into_iter().skip(1).collect());
    assert_eq!(delivered.len(), 1);
}

#[test]
fn full_table_evicts_stalest_when_configured() {
    let mut rx = Receiver::new(1, 1000, EvictionPolicy::EvictStalest);
    let a: Vec<u8> = (0u8..20).collect();
    let b: Vec<u8> = (50u8..70).collect();
    let fa = frames_of(1, 77, 0, &a);
    let mut fb = frames_of(2, 77, 0, &b);
    for f in fb.iter_mut() {
        f.timestamp = 10;
    }
    assert!(rx.accept(fa[0].clone()).unwrap().is_none());
    // The newer session displaces the stalest (only) one.
    assert!(rx.accept(fb[0].clone()).unwrap().is_none());
    assert_eq!(rx.session_count(), 1);
    // The displaced transfer can no longer complete...
    let delivered = feed(&mut rx, fa.into_iter().skip(1).collect());
    assert_eq!(delivered.len(), 0);
    // ...while the survivor still accepts a newer transfer.
    let delivered = feed(&mut rx, {
        let mut f = frames_of(2, 77, 1, &b);
        for x in f.iter_mut() {
            x.timestamp = 20;
        }
        f
    });
    assert_eq!(delivered.len(), 1);
    assert_eq!(delivered[0].payload, b);
}

#[test]
fn malformed_frames_are_discarded() {
    let mut rx = Receiver::new(8, 1000, EvictionPolicy::RejectNew);
    // Identifier out of range.
    let f = Frame { timestamp: 0, id: 0x2000_0001, payload: vec![0xC0] };
    assert!(rx.accept(f).unwrap().is_none());
    // Empty payload.
    let f = Frame { timestamp: 0, id: 0x100, payload: vec![] };
    assert!(rx.accept(f).unwrap().is_none());
    assert_eq!(rx.session_count(), 0);
}

#[test]
fn transfer_id_counter_wraps_per_destination() {
    let mut ids = NextTransferIds::new();
    let mut seen = [false; 32];
    for k in 0..32 {
        let tid = ids.get_and_increment(7);
        assert_eq!(tid as usize, k);
        assert!(!seen[tid as usize]);
        seen[tid as usize] = true;
    }
    assert!(seen.iter().all(|&s| s));
    // The 33rd call wraps to the start.
    assert_eq!(ids.get_and_increment(7), 0);
    // Another destination has its own counter.
    assert_eq!(ids.get_and_increment(3), 0);
}

#[test]
fn requester_builds_addressed_request_frames() {
    let mut rq = Requester::new(9, 50, 4);
    assert_eq!(rq.timeout(), 50);
    let mut tx = Transmitter::new(8);
    rq.send_payload(b"ab", 33, 5, 123, &mut tx).unwrap();
    let f = tx.pop_frame().unwrap();
    assert_eq!(f.timestamp, 123);
    let h = header_of_id(f.id).unwrap();
    assert_eq!(
        h,
        TransferHeader {
            source: 9,
            priority: 4,
            kind: TransferKindHeader::Request(ServiceHeader { service: 33, destination: 5 }),
        }
    );
    assert_eq!(f.payload, vec![b'a', b'b', 0xC0]);
    // The next request to the same destination takes the next id.
    rq.send_payload(b"cd", 33, 5, 124, &mut tx).unwrap();
    let f = tx.pop_frame().unwrap();
    assert_eq!(f.payload[2], 0xC1);
}

#[test]
fn requester_keeps_id_on_queue_overflow() {
    // Ids advance on successful sends only: a refused send spends none.
    let mut rq = Requester::new(9, 50, 4);
    let mut tx = Transmitter::new(0);
    assert!(rq.send_payload(b"ab", 33, 5, 1, &mut tx).is_err());
    let mut tx = Transmitter::new(8);
    rq.send_payload(b"ab", 33, 5, 2, &mut tx).unwrap();
    let f = tx.pop_frame().unwrap();
    assert_eq!(f.payload[2], 0xC0);
    rq.send_payload(b"cd", 33, 5, 3, &mut tx).unwrap();
    let f = tx.pop_frame().unwrap();
    assert_eq!(f.payload[2], 0xC1);
}

#[test]
fn responder_answers_with_request_id() {
    // A request travels to the server, which answers through a token.
    let mut rq = Requester::new(9, 50, 4);
    let mut tx = Transmitter::new(8);
    rq.send_payload(b"ping", 33, 5, 1, &mut tx).unwrap();
    let wire = tx.pop_frame().unwrap();
    let mut server_rx = Receiver::new(4, 1000, EvictionPolicy::RejectNew);
    let request = server_rx.accept(wire).unwrap().unwrap();
    assert_eq!(request.payload, b"ping".to_vec());
    let token = response_token(&request).unwrap();
    assert_eq!((token.service, token.client, token.transfer_id), (33, 9, 0));
    let responder = Responder::new(5, 4);
    let mut server_tx = Transmitter::new(8);
    responder.send_response(token, b"pong", 2, &mut server_tx).unwrap();
    let f = server_tx.pop_frame().unwrap();
    let h = header_of_id(f.id).unwrap();
    assert_eq!(
        h,
        TransferHeader {
            source: 5,
            priority: 4,
            kind: TransferKindHeader::Response(ServiceHeader { service: 33, destination: 9 }),
        }
    );
    // The response reuses the request's transfer id.
    assert_eq!(f.payload, vec![b'p', b'o', b'n', b'g', 0xC0]);
    // And a response is not a request: no token from it.
    let mut client_rx = Receiver::new(4, 1000, EvictionPolicy::RejectNew);
    let response = client_rx.accept(f).unwrap().unwrap();
    assert!(response_token(&response).is_none());
}

#[test]
fn driver_receive_queue_is_fifo_and_bounded() {
    let mut d = QueueOnlyDriver::new(4);
    assert!(matches!(d.receive(0), Err(_)));
    for i in 0..RX_QUEUE_CAPACITY {
        let f = Frame { timestamp: i as u64, id: 0x100, payload: vec![i as u8, 0xC0] };
        d.push_rx_frame(f).unwrap();
    }
    // The queue is full now.
    let extra = Frame { timestamp: 99, id: 0x100, payload: vec![99, 0xC0] };
    assert!(d.push_rx_frame(extra).is_err());
    for i in 0..RX_QUEUE_CAPACITY {
        let f = d.receive(0).unwrap();
        assert_eq!(f.payload[0], i as u8);
    }
    assert!(matches!(d.receive(0), Err(_)));
}

#[test]
fn driver_transmit_queue_orders_and_blocks() {
    let mut d = QueueOnlyDriver::new(2);
    let lo = Frame { timestamp: 0, id: 0x500, payload: vec![1, 0xC0] };
    let hi = Frame { timestamp: 0, id: 0x100, payload: vec![2, 0xC0] };
    assert!(d.transmit(lo, 0).unwrap().is_none());
    assert!(d.transmit(hi, 0).unwrap().is_none());
    assert!(d.try_reserve(1).is_err());
    // A queue at capacity is an explicit out-of-memory, never silent.
    let f3 = Frame { timestamp: 0, id: 0x300, payload: vec![3, 0xC0] };
    assert!(matches!(d.transmit(f3, 0), Err(OutOfMemoryError)));
    assert!(d.flush(0).is_ok());
    let first = d.pop_tx_frame().unwrap();
    assert_eq!(first.payload[0], 2);
    // Transmission failed: the frame keeps its priority position.
    d.return_tx_frame(first).unwrap();
    assert_eq!(d.pop_tx_frame().unwrap().payload[0], 2);
    assert_eq!(d.pop_tx_frame().unwrap().payload[0], 1);
    assert!(d.pop_tx_frame().is_none());
}

#[test]
fn request_travels_through_driver_queues() {
    // Requester -> transmit queue -> wire -> driver receive queue ->
    // receiver, with one transient transmit failure along the way.
    let mut rq = Requester::new(9, 50, 2);
    let mut tx = Transmitter::new(8);
    let payload: Vec<u8> = (0u8..20).collect();
    rq.send_payload(&payload, 33, 5, 7, &mut tx).unwrap();
    let mut d = QueueOnlyDriver::new(8);
    let mut server_rx = Receiver::new(4, 1000, EvictionPolicy::RejectNew);
    let mut delivered = Vec::new();
    let mut hiccup = true;
    while let Some(f) = tx.pop_frame() {
        if hiccup {
            // The bus was busy once; the frame goes back and out again.
            tx.return_frame(f).unwrap();
            hiccup = false;
            continue;
        }
        d.push_rx_frame(f).unwrap();
        let got = d.receive(3).unwrap();
        if let Some(t) = server_rx.accept(got).unwrap() {
            delivered.push(t);
        }
    }
    assert_eq!(delivered.len(), 1);
    assert_eq!(delivered[0].payload, payload);
    assert_eq!(delivered[0].transfer_id, 0);
    let token = response_token(&delivered[0]).unwrap();
    assert_eq!(token.client, 9);
}

#[test]
fn driver_stores_subscription_list() {
    let mut d = QueueOnlyDriver::new(2);
    assert!(d.subscriptions().is_empty());
    let subs = vec![
        Subscription { kind: SubscriptionKind::Message, port: 77, timeout: 100 },
        Subscription { kind: SubscriptionKind::Request, port: 33, timeout: 500 },
    ];
    d.apply_filters(Some(9), &subs);
    assert_eq!(d.subscriptions(), subs.as_slice());
    d.apply_filters(None, &Vec::new());
    assert!(d.subscriptions().is_empty());
}
