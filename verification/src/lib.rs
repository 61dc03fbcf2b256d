//! CAN-bus transport layer for a UAVCAN-style protocol stack.
//!
//! The crate turns application-level transfers (priority, addressing header,
//! payload bytes) into a bounded, priority-ordered stream of fixed-size CAN
//! frames, and reassembles such frames back into transfers: a priority
//! transmit queue with graceful-degradation on allocation failure, the
//! tail-byte segmentation protocol with a 16-bit checksum for multi-frame
//! transfers, a receive-side reassembly state machine with per-source
//! sessions and timeout eviction, and per-destination transfer-ID counters
//! for request/response exchanges.

pub mod types;
pub mod frame;
pub mod crc;
pub mod queue;
pub mod transfer;
pub mod transmitter;
pub mod receiver;
pub mod requester;
pub mod roundtrip;
pub mod driver;
