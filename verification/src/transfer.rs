//! Application-level transfers: the unit the transport segments and
//! reassembles.

use vstd::prelude::*;
use crate::frame::{header_wf, TransferHeader};
use crate::types::valid_transfer_id;

verus! {

/// One application-level transfer: a header, a transfer id, and the
/// payload bytes, of arbitrary length.
#[derive(Debug, Clone)]
pub struct Transfer {
    /// Transmit deadline of an outgoing transfer, or reception time of a
    /// completed incoming one.
    pub timestamp: u64,
    /// Source, priority and port addressing.
    pub header: TransferHeader,
    /// The 5-bit transfer id.
    pub transfer_id: u8,
    /// The payload bytes, checksum not included.
    pub payload: Vec<u8>,
}

/// The header fields and the transfer id lie within their wire widths.
pub open spec fn transfer_wf(t: Transfer) -> bool {
    header_wf(t.header) && valid_transfer_id(t.transfer_id)
}

} // verus!
