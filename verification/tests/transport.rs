//! Frame codec, checksum, priority queue and segmentation behaviour.

use can_transport::crc::crc16_compute;
use can_transport::frame::{
    header_of_id, id_of_header, tail_byte, Frame, ServiceHeader, TransferHeader,
    TransferKindHeader,
};
use can_transport::queue::FrameQueue;
use can_transport::transfer::Transfer;
use can_transport::transmitter::{segment, Transmitter};

fn message_header(source: u8, priority: u8, subject: u16) -> TransferHeader {
    TransferHeader {
        source,
        priority,
        kind: TransferKindHeader::Message { subject },
    }
}

fn mk_frame(id: u32, mark: u8) -> Frame {
    Frame {
        timestamp: mark as u64,
        id,
        payload: vec![mark, 0xC0],
    }
}

#[test]
fn crc_known_check_value() {
    // CRC-16/CCITT-FALSE of "123456789" is the classic 0x29B1.
    assert_eq!(crc16_compute(b"123456789", 9), 0x29B1);
    assert_eq!(crc16_compute(b"", 0), 0xFFFF);
}

#[test]
fn tail_byte_fields() {
    assert_eq!(tail_byte(true, true, false, 0), 0xC0);
    assert_eq!(tail_byte(true, false, false, 3), 0x83);
    assert_eq!(tail_byte(false, false, true, 31), 0x3F);
    assert_eq!(tail_byte(false, true, false, 1), 0x41);
}

#[test]
fn id_codec_round_trip() {
    let hs = [
        message_header(7, 0, 8191),
        message_header(127, 7, 0),
        TransferHeader {
            source: 9,
            priority: 4,
            kind: TransferKindHeader::Request(ServiceHeader { service: 511, destination: 5 }),
        },
        TransferHeader {
            source: 5,
            priority: 1,
            kind: TransferKindHeader::Response(ServiceHeader { service: 33, destination: 9 }),
        },
    ];
    for h in hs.iter() {
        let id = id_of_header(h);
        assert!(id < 0x2000_0000);
        assert_eq!(header_of_id(id), Some(*h));
    }
}

#[test]
fn id_codec_rejects_malformed() {
    // Too wide for 29 bits.
    assert_eq!(header_of_id(0x2000_0000), None);
    // Source field spilling into bit 7.
    assert_eq!(header_of_id(0x80), None);
    // Message with reserved bits 21..=24 set.
    let good = id_of_header(&message_header(3, 2, 17));
    assert_eq!(header_of_id(good | (1 << 22)), None);
}

#[test]
fn single_frame_hello() {
    // 5 bytes with MTU 8: one frame, payload then tail {start,end,toggle 0,id 0}.
    let t = Transfer {
        timestamp: 0,
        header: message_header(1, 0, 10),
        transfer_id: 0,
        payload: b"hello".to_vec(),
    };
    let frames = segment(&t);
    assert_eq!(frames.len(), 1);
    assert_eq!(frames[0].payload, vec![b'h', b'e', b'l', b'l', b'o', 0xC0]);
    assert_eq!(frames[0].id, id_of_header(&t.header));
}

#[test]
fn empty_payload_single_frame() {
    let t = Transfer {
        timestamp: 0,
        header: message_header(1, 0, 10),
        transfer_id: 4,
        payload: Vec::new(),
    };
    let frames = segment(&t);
    assert_eq!(frames.len(), 1);
    assert_eq!(frames[0].payload, vec![0xC4]);
}

#[test]
fn twenty_byte_payload_segmentation() {
    // 20 payload bytes plus the 2 appended checksum bytes chunk into
    // 7 + 7 + 7 + 1 data bytes: the checksum straddles the last frame
    // boundary. Flags 1/0/../0/1, toggles alternate from 0.
    let payload: Vec<u8> = (0u8..20).collect();
    let crc = crc16_compute(&payload, 20);
    let t = Transfer {
        timestamp: 5,
        header: message_header(1, 0, 10),
        transfer_id: 0,
        payload: payload.clone(),
    };
    let frames = segment(&t);
    assert_eq!(frames.len(), 4);
    let mut f0: Vec<u8> = payload[0..7].to_vec();
    f0.push(0x80);
    let mut f1: Vec<u8> = payload[7..14].to_vec();
    f1.push(0x20);
    let mut f2: Vec<u8> = payload[14..20].to_vec();
    f2.push((crc >> 8) as u8);
    f2.push(0x00);
    let f3: Vec<u8> = vec![(crc & 0xFF) as u8, 0x60];
    assert_eq!(frames[0].payload, f0);
    assert_eq!(frames[1].payload, f1);
    assert_eq!(frames[2].payload, f2);
    assert_eq!(frames[3].payload, f3);
    for f in frames.iter() {
        assert_eq!(f.timestamp, 5);
        assert_eq!(f.id, id_of_header(&t.header));
    }
}

#[test]
fn eight_byte_payload_needs_two_frames() {
    let payload: Vec<u8> = (0u8..8).collect();
    let t = Transfer {
        timestamp: 0,
        header: message_header(1, 0, 10),
        transfer_id: 1,
        payload,
    };
    let frames = segment(&t);
    assert_eq!(frames.len(), 2);
    assert_eq!(frames[0].payload[7], 0x81);
    assert_eq!(frames[1].payload.len(), 4);
    assert_eq!(frames[1].payload[3], 0x61);
}

#[test]
fn queue_orders_by_priority_and_fifo() {
    let mut q = FrameQueue::new(8);
    q.push_frame(mk_frame(500, 1)).unwrap();
    q.push_frame(mk_frame(100, 2)).unwrap();
    q.push_frame(mk_frame(900, 3)).unwrap();
    q.push_frame(mk_frame(100, 4)).unwrap();
    q.push_frame(mk_frame(100, 5)).unwrap();
    let order: Vec<(u32, u8)> = std::iter::from_fn(|| q.pop_frame())
        .map(|f| (f.id, f.payload[0]))
        .collect();
    // Non-decreasing identifiers; FIFO among the three equal ones.
    assert_eq!(order, vec![(100, 2), (100, 4), (100, 5), (500, 1), (900, 3)]);
}

#[test]
fn queue_full_push_fails_and_preserves_contents() {
    let mut q = FrameQueue::new(2);
    q.push_frame(mk_frame(10, 1)).unwrap();
    q.push_frame(mk_frame(20, 2)).unwrap();
    assert!(q.push_frame(mk_frame(1, 3)).is_err());
    assert_eq!(q.len(), 2);
    let a = q.pop_frame().unwrap();
    let b = q.pop_frame().unwrap();
    assert_eq!((a.id, a.payload[0]), (10, 1));
    assert_eq!((b.id, b.payload[0]), (20, 2));
    assert!(q.pop_frame().is_none());
}

#[test]
fn returned_frame_keeps_priority_position() {
    let mut q = FrameQueue::new(8);
    q.push_frame(mk_frame(100, 1)).unwrap();
    q.push_frame(mk_frame(100, 2)).unwrap();
    let popped = q.pop_frame().unwrap();
    assert_eq!(popped.payload[0], 1);
    // A higher-priority frame arrives while transmission fails.
    q.push_frame(mk_frame(50, 3)).unwrap();
    q.return_frame(popped).unwrap();
    // The returned frame yields to the new higher-priority frame but
    // stays ahead of its equal-priority peer.
    let order: Vec<u8> = std::iter::from_fn(|| q.pop_frame()).map(|f| f.payload[0]).collect();
    assert_eq!(order, vec![3, 1, 2]);
}

#[test]
fn try_reserve_checks_remaining_room() {
    let mut q = FrameQueue::new(3);
    assert!(q.try_reserve(3).is_ok());
    assert!(q.try_reserve(4).is_err());
    q.push_frame(mk_frame(1, 1)).unwrap();
    assert!(q.try_reserve(2).is_ok());
    assert!(q.try_reserve(3).is_err());
}

#[test]
fn transmitter_send_is_atomic() {
    // Four frames needed, two slots free: nothing may be enqueued.
    let payload: Vec<u8> = (0u8..20).collect();
    let t = Transfer {
        timestamp: 0,
        header: message_header(1, 0, 10),
        transfer_id: 0,
        payload,
    };
    let mut tx = Transmitter::new(2);
    assert!(tx.push(&t).is_err());
    assert_eq!(tx.len(), 0);
    let mut tx = Transmitter::new(4);
    assert!(tx.push(&t).is_ok());
    assert_eq!(tx.len(), 4);
    let first = tx.pop_frame().unwrap();
    assert_eq!(first.payload[7], 0x80);
}

#[test]
fn transmitter_queues_by_priority() {
    let mut tx = Transmitter::new(8);
    let low = Transfer {
        timestamp: 0,
        header: message_header(1, 7, 10),
        transfer_id: 0,
        payload: vec![1],
    };
    let high = Transfer {
        timestamp: 0,
        header: message_header(1, 0, 10),
        transfer_id: 0,
        payload: vec![2],
    };
    tx.push(&low).unwrap();
    tx.push(&high).unwrap();
    let first = tx.pop_frame().unwrap();
    assert_eq!(first.payload[0], 2);
    let second = tx.pop_frame().unwrap();
    assert_eq!(second.payload[0], 1);
    // A popped frame that failed to transmit goes back in position.
    tx.return_frame(second).unwrap();
    assert_eq!(tx.pop_frame().unwrap().payload[0], 1);
    assert!(tx.pop_frame().is_none());
}
