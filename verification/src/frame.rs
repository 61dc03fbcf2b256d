//! Frames, transfer headers, the CAN identifier bit layout, and the tail byte.
//!
//! The 29-bit CAN identifier encodes, from most to least significant:
//! priority (bits 26..=28), a service flag (bit 25), for services a request
//! flag (bit 24), then the port identifier (subject at bits 8..=20 for
//! messages; service id at bits 15..=23 and destination node at bits 8..=14
//! for services), and the source node id (bits 0..=6).

use vstd::prelude::*;
use crate::types::{
    valid_node_id, valid_priority, valid_service_id, valid_subject_id, valid_transfer_id, MTU,
};

verus! {

/// Addressing of a request or response transfer.
#[derive(Clone, Copy, Debug, PartialEq, Eq, Structural)]
pub struct ServiceHeader {
    /// The service being invoked.
    pub service: u16,
    /// The node the transfer is addressed to.
    pub destination: u8,
}

/// What kind of transfer a header describes, with its port addressing.
#[derive(Clone, Copy, Debug, PartialEq, Eq, Structural)]
pub enum TransferKindHeader {
    /// A broadcast message on a subject.
    Message { subject: u16 },
    /// A service request addressed to one node.
    Request(ServiceHeader),
    /// A service response addressed to one node.
    Response(ServiceHeader),
}

/// The header of a transfer: who sends it, how urgently, and to which port.
#[derive(Clone, Copy, Debug, PartialEq, Eq, Structural)]
pub struct TransferHeader {
    /// The node that sends the transfer.
    pub source: u8,
    /// Arbitration priority; lower values win the bus.
    pub priority: u8,
    /// Message, request or response, with the port addressing.
    pub kind: TransferKindHeader,
}

/// All fields of a header lie within their wire-format widths.
pub open spec fn header_wf(h: TransferHeader) -> bool {
    &&& valid_node_id(h.source)
    &&& valid_priority(h.priority)
    &&& match h.kind {
        TransferKindHeader::Message { subject } => valid_subject_id(subject),
        TransferKindHeader::Request(s) | TransferKindHeader::Response(s) => {
            valid_service_id(s.service) && valid_node_id(s.destination)
        },
    }
}

/// The CAN identifier that carries a header on the wire.
pub open spec fn spec_id_of_header(h: TransferHeader) -> u32 {
    match h.kind {
        TransferKindHeader::Message { subject } => {
            ((h.priority as u32) << 26) | ((subject as u32) << 8) | (h.source as u32)
        },
        TransferKindHeader::Request(s) => {
            ((h.priority as u32) << 26) | (1u32 << 25) | (1u32 << 24)
                | ((s.service as u32) << 15) | ((s.destination as u32) << 8) | (h.source as u32)
        },
        TransferKindHeader::Response(s) => {
            ((h.priority as u32) << 26) | (1u32 << 25)
                | ((s.service as u32) << 15) | ((s.destination as u32) << 8) | (h.source as u32)
        },
    }
}

/// An identifier is well formed when it is 29 bits wide, its reserved bits
/// are clear, and the source field stays within 7 bits.
pub open spec fn id_wf(id: u32) -> bool {
    &&& id < 0x2000_0000
    &&& id & 0x80 == 0
    &&& (if (id >> 25) & 1 == 1 {
        true
    } else {
        (id >> 21) & 0xF == 0
    })
}

/// The header encoded by a well-formed identifier.
pub open spec fn spec_header_of_id(id: u32) -> TransferHeader {
    TransferHeader {
        source: (id & 0x7F) as u8,
        priority: ((id >> 26) & 7) as u8,
        kind: if (id >> 25) & 1 == 1 {
            let s = ServiceHeader {
                service: ((id >> 15) & 0x1FF) as u16,
                destination: ((id >> 8) & 0x7F) as u8,
            };
            if (id >> 24) & 1 == 1 {
                TransferKindHeader::Request(s)
            } else {
                TransferKindHeader::Response(s)
            }
        } else {
            TransferKindHeader::Message { subject: ((id >> 8) & 0x1FFF) as u16 }
        },
    }
}

/// Law: encoding a well-formed header yields a well-formed identifier, and
/// decoding that identifier gives back exactly the same header.
pub proof fn lemma_id_round_trip(h: TransferHeader)
    requires
        header_wf(h),
    ensures
        id_wf(spec_id_of_header(h)),
        spec_header_of_id(spec_id_of_header(h)) == h,
{
    let p = h.priority as u32;
    let src = h.source as u32;
    match h.kind {
        TransferKindHeader::Message { subject } => {
            let sub = subject as u32;
            let id = (p << 26) | (sub << 8) | src;
            assert(p < 8 && src < 128 && sub < 8192);
            assert(id < 0x2000_0000 && id & 0x80 == 0 && (id >> 25) & 1 == 0
                && (id >> 21) & 0xF == 0 && (id >> 26) & 7 == p && (id >> 8) & 0x1FFF == sub
                && id & 0x7F == src) by (bit_vector)
                requires
                    p < 8 && src < 128 && sub < 8192 && id == (p << 26) | (sub << 8) | src,
            ;
            assert(((id >> 26) & 7) as u8 == h.priority);
            assert(((id >> 8) & 0x1FFF) as u16 == subject);
            assert((id & 0x7F) as u8 == h.source);
        },
        TransferKindHeader::Request(s) => {
            let sv = s.service as u32;
            let d = s.destination as u32;
            let id = (p << 26) | (1u32 << 25) | (1u32 << 24) | (sv << 15) | (d << 8) | src;
            assert(p < 8 && src < 128 && sv < 512 && d < 128);
            assert(id < 0x2000_0000 && id & 0x80 == 0 && (id >> 25) & 1 == 1
                && (id >> 24) & 1 == 1 && (id >> 26) & 7 == p && (id >> 15) & 0x1FF == sv
                && (id >> 8) & 0x7F == d && id & 0x7F == src) by (bit_vector)
                requires
                    p < 8 && src < 128 && sv < 512 && d < 128
                        && id == (p << 26) | (1u32 << 25) | (1u32 << 24) | (sv << 15) | (d << 8)
                        | src,
            ;
            assert(((id >> 26) & 7) as u8 == h.priority);
            assert(((id >> 15) & 0x1FF) as u16 == s.service);
            assert(((id >> 8) & 0x7F) as u8 == s.destination);
            assert((id & 0x7F) as u8 == h.source);
        },
        TransferKindHeader::Response(s) => {
            let sv = s.service as u32;
            let d = s.destination as u32;
            let id = (p << 26) | (1u32 << 25) | (sv << 15) | (d << 8) | src;
            assert(p < 8 && src < 128 && sv < 512 && d < 128);
            assert(id < 0x2000_0000 && id & 0x80 == 0 && (id >> 25) & 1 == 1
                && (id >> 24) & 1 == 0 && (id >> 26) & 7 == p && (id >> 15) & 0x1FF == sv
                && (id >> 8) & 0x7F == d && id & 0x7F == src) by (bit_vector)
                requires
                    p < 8 && src < 128 && sv < 512 && d < 128
                        && id == (p << 26) | (1u32 << 25) | (sv << 15) | (d << 8) | src,
            ;
            assert(((id >> 26) & 7) as u8 == h.priority);
            assert(((id >> 15) & 0x1FF) as u16 == s.service);
            assert(((id >> 8) & 0x7F) as u8 == s.destination);
            assert((id & 0x7F) as u8 == h.source);
        },
    }
}

/// Builds the CAN identifier of a well-formed header.
pub fn id_of_header(h: &TransferHeader) -> (id: u32)
    requires
        header_wf(*h),
    ensures
        id == spec_id_of_header(*h),
        id_wf(id),
{
    proof {
        lemma_id_round_trip(*h);
    }
    match h.kind {
        TransferKindHeader::Message { subject } => {
            ((h.priority as u32) << 26u32) | ((subject as u32) << 8u32) | (h.source as u32)
        },
        TransferKindHeader::Request(s) => {
            ((h.priority as u32) << 26u32) | (1u32 << 25u32) | (1u32 << 24u32)
                | ((s.service as u32) << 15u32) | ((s.destination as u32) << 8u32)
                | (h.source as u32)
        },
        TransferKindHeader::Response(s) => {
            ((h.priority as u32) << 26u32) | (1u32 << 25u32) | ((s.service as u32) << 15u32)
                | ((s.destination as u32) << 8u32) | (h.source as u32)
        },
    }
}

/// Decodes a received identifier, rejecting malformed ones.
pub fn header_of_id(id: u32) -> (r: Option<TransferHeader>)
    ensures
        r == if id_wf(id) {
            Some(spec_header_of_id(id))
        } else {
            None::<TransferHeader>
        },
        r is Some ==> header_wf(spec_header_of_id(id)),
{
    if id >= 0x2000_0000 || id & 0x80 != 0 {
        return None;
    }
    let source: u8 = (id & 0x7F) as u8;
    let priority: u8 = ((id >> 26u32) & 7) as u8;
    assert(source < 128 && priority < 8) by (bit_vector)
        requires
            source == (id & 0x7F) as u8 && priority == ((id >> 26u32) & 7) as u8,
    ;
    if (id >> 25u32) & 1 == 1 {
        let service: u16 = ((id >> 15u32) & 0x1FF) as u16;
        let destination: u8 = ((id >> 8u32) & 0x7F) as u8;
        assert(service < 512 && destination < 128) by (bit_vector)
            requires
                service == ((id >> 15u32) & 0x1FF) as u16
                    && destination == ((id >> 8u32) & 0x7F) as u8,
        ;
        let s = ServiceHeader { service, destination };
        if (id >> 24u32) & 1 == 1 {
            Some(TransferHeader { source, priority, kind: TransferKindHeader::Request(s) })
        } else {
            Some(TransferHeader { source, priority, kind: TransferKindHeader::Response(s) })
        }
    } else {
        if (id >> 21u32) & 0xF != 0 {
            return None;
        }
        let subject: u16 = ((id >> 8u32) & 0x1FFF) as u16;
        assert(subject < 8192) by (bit_vector)
            requires
                subject == ((id >> 8u32) & 0x1FFF) as u16,
        ;
        Some(TransferHeader { source, priority, kind: TransferKindHeader::Message { subject } })
    }
}

/// One CAN frame: a timestamp, an arbitration identifier, and at most
/// [`MTU`] payload bytes whose last byte is the tail byte.
#[derive(Debug, Clone)]
pub struct Frame {
    /// Transmit deadline, or reception time, from the external clock.
    pub timestamp: u64,
    /// The 29-bit CAN arbitration identifier.
    pub id: u32,
    /// Payload bytes, tail byte last.
    pub payload: Vec<u8>,
}

/// A frame carries a well-formed identifier and a bounded, non-empty payload.
pub open spec fn frame_wf(f: Frame) -> bool {
    f.id < 0x2000_0000 && 1 <= f.payload@.len() <= MTU
}

/// The tail byte: bit 7 start-of-transfer, bit 6 end-of-transfer, bit 5
/// toggle, bits 0..=4 the transfer id.
pub open spec fn spec_tail_byte(start: bool, end: bool, toggle: bool, tid: u8) -> u8 {
    ((if start { 0x80u8 } else { 0u8 }) | (if end { 0x40u8 } else { 0u8 })
        | (if toggle { 0x20u8 } else { 0u8 }) | (tid & 0x1F)) as u8
}

/// Start-of-transfer flag of a tail byte.
pub open spec fn tail_start(b: u8) -> bool {
    b & 0x80 != 0
}

/// End-of-transfer flag of a tail byte.
pub open spec fn tail_end(b: u8) -> bool {
    b & 0x40 != 0
}

/// Toggle bit of a tail byte.
pub open spec fn tail_toggle(b: u8) -> bool {
    b & 0x20 != 0
}

/// Transfer id carried by a tail byte.
pub open spec fn tail_transfer_id(b: u8) -> u8 {
    b & 0x1F
}

/// Law: the four tail-byte fields decode to exactly what was encoded.
pub proof fn lemma_tail_byte_round_trip(start: bool, end: bool, toggle: bool, tid: u8)
    requires
        valid_transfer_id(tid),
    ensures
        tail_start(spec_tail_byte(start, end, toggle, tid)) == start,
        tail_end(spec_tail_byte(start, end, toggle, tid)) == end,
        tail_toggle(spec_tail_byte(start, end, toggle, tid)) == toggle,
        tail_transfer_id(spec_tail_byte(start, end, toggle, tid)) == tid,
{
    let b = spec_tail_byte(start, end, toggle, tid);
    let s: u8 = if start { 0x80u8 } else { 0u8 };
    let e: u8 = if end { 0x40u8 } else { 0u8 };
    let t: u8 = if toggle { 0x20u8 } else { 0u8 };
    assert((s | e | t | (tid & 0x1F)) & 0x80 == s && (s | e | t | (tid & 0x1F)) & 0x40 == e
        && (s | e | t | (tid & 0x1F)) & 0x20 == t && (s | e | t | (tid & 0x1F)) & 0x1F == tid)
        by (bit_vector)
        requires
            (s == 0x80 || s == 0) && (e == 0x40 || e == 0) && (t == 0x20 || t == 0) && tid < 32,
    ;
}

/// Encodes a tail byte.
pub fn tail_byte(start: bool, end: bool, toggle: bool, tid: u8) -> (b: u8)
    requires
        valid_transfer_id(tid),
    ensures
        b == spec_tail_byte(start, end, toggle, tid),
{
    (if start { 0x80u8 } else { 0u8 }) | (if end { 0x40u8 } else { 0u8 })
        | (if toggle { 0x20u8 } else { 0u8 }) | (tid & 0x1F)
}

} // verus!
