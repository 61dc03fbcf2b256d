//! Plain value types, protocol limits, and the error taxonomy.

use vstd::prelude::*;

verus! {

/// Maximum payload size of one CAN frame, tail byte included (classic CAN).
pub const MTU: usize = 8;

/// Payload bytes one frame can carry besides its tail byte.
pub const FRAME_DATA_LEN: usize = 7;

/// Transfer identifiers live modulo this bound (5 bits in the tail byte).
pub const TRANSFER_ID_MODULO: u8 = 32;

/// Number of distinct node identifiers (node ids are 7 bits wide).
pub const NODE_ID_COUNT: usize = 128;

/// A bounded container was at capacity; nothing was changed.
#[derive(Clone, Copy, Debug, PartialEq, Eq, Structural)]
pub struct OutOfMemoryError;

/// The driver transiently cannot proceed; retry on the next poll.
#[derive(Clone, Copy, Debug, PartialEq, Eq, Structural)]
pub struct WouldBlock;

/// Node ids are 7 bits wide.
pub open spec fn valid_node_id(n: u8) -> bool {
    n < 128
}

/// Priorities occupy 3 bits of the CAN identifier; 0 wins arbitration.
pub open spec fn valid_priority(p: u8) -> bool {
    p < 8
}

/// Subject ids of message transfers are 13 bits wide.
pub open spec fn valid_subject_id(s: u16) -> bool {
    s < 8192
}

/// Service ids of request/response transfers are 9 bits wide.
pub open spec fn valid_service_id(s: u16) -> bool {
    s < 512
}

/// Transfer ids are 5 bits wide.
pub open spec fn valid_transfer_id(t: u8) -> bool {
    t < 32
}

} // verus!
