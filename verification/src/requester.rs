//! Transfer-id bookkeeping and the request/response senders.

use vstd::prelude::*;
use vstd::arithmetic::div_mod::lemma_add_mod_noop;
use crate::frame::{spec_id_of_header, ServiceHeader, TransferHeader, TransferKindHeader};
use crate::transfer::Transfer;
use crate::transmitter::{enqueue_all, frames_match, spec_frame_count, Transmitter};
use crate::types::{
    valid_node_id, valid_priority, valid_service_id, valid_transfer_id, OutOfMemoryError,
    NODE_ID_COUNT,
};

verus! {

/// The transfer id that follows `t`, wrapping modulo 32.
pub open spec fn spec_next_transfer_id(t: u8) -> u8 {
    ((t + 1) % 32) as u8
}

/// The transfer id a counter starting at `start` hands out on its `k`-th
/// call.
pub open spec fn spec_nth_transfer_id(start: u8, k: nat) -> u8
    decreases k,
{
    if k == 0 {
        start
    } else {
        spec_next_transfer_id(spec_nth_transfer_id(start, (k - 1) as nat))
    }
}

/// Successive transfer ids advance by one modulo 32.
pub proof fn lemma_nth_transfer_id(start: u8, k: nat)
    requires
        valid_transfer_id(start),
    ensures
        spec_nth_transfer_id(start, k) == (start + k) % 32,
    decreases k,
{
    if k > 0 {
        lemma_nth_transfer_id(start, (k - 1) as nat);
        lemma_add_mod_noop(start + k - 1, 1, 32);
    }
}

/// Law (transfer-id cycle): for one key, the first 32 ids handed out are
/// pairwise distinct — each value in 0..=31 exactly once — and the 32nd
/// increment wraps back to the start.
pub proof fn lemma_transfer_id_cycle(start: u8, a: nat, b: nat)
    requires
        valid_transfer_id(start),
        a < b < 32,
    ensures
        spec_nth_transfer_id(start, a) != spec_nth_transfer_id(start, b),
        spec_nth_transfer_id(start, 32) == start,
{
    lemma_nth_transfer_id(start, a);
    lemma_nth_transfer_id(start, b);
    lemma_nth_transfer_id(start, 32);
}

/// One 5-bit transfer-id counter per possible destination node.
pub struct NextTransferIds {
    ids: Vec<u8>,
}

impl NextTransferIds {
    /// The counters, indexed by node id.
    pub closed spec fn view(&self) -> Seq<u8> {
        self.ids@
    }

    /// One counter per node id, each a valid transfer id.
    pub open spec fn wf(&self) -> bool {
        self@.len() == NODE_ID_COUNT && forall|i: int|
            0 <= i < self@.len() ==> valid_transfer_id(#[trigger] self@[i])
    }

    /// Creates the map with the default transfer id for every node.
    pub fn new() -> (r: NextTransferIds)
        ensures
            r.wf(),
            forall|i: int| 0 <= i < r@.len() ==> r@[i] == 0,
    {
        let mut ids: Vec<u8> = Vec::new();
        let mut i: usize = 0;
        while i < NODE_ID_COUNT
            invariant
                i <= NODE_ID_COUNT,
                ids@.len() == i,
                forall|j: int| 0 <= j < i ==> ids@[j] == 0,
            decreases NODE_ID_COUNT - i,
        {
            ids.push(0);
            i = i + 1;
        }
        NextTransferIds { ids }
    }

    /// Returns the next transfer id for the destination and advances the
    /// stored counter modulo 32.
    pub fn get_and_increment(&mut self, destination: u8) -> (tid: u8)
        requires
            old(self).wf(),
            valid_node_id(destination),
        ensures
            final(self).wf(),
            tid == old(self)@[destination as int],
            valid_transfer_id(tid),
            final(self)@ == old(self)@.update(
                destination as int,
                spec_next_transfer_id(tid),
            ),
    {
        let d = destination as usize;
        let current = self.ids[d];
        self.ids[d] = (current + 1) % 32;
        current
    }

    /// Puts a counter back to `tid`, undoing an increment whose send was
    /// refused: ids are spent on successful sends only.
    fn restore(&mut self, destination: u8, tid: u8)
        requires
            old(self).wf(),
            valid_node_id(destination),
            valid_transfer_id(tid),
        ensures
            final(self).wf(),
            final(self)@ == old(self)@.update(destination as int, tid),
    {
        self.ids[destination as usize] = tid;
    }
}

/// Assembles transfers and manages transfer ids to send service requests.
pub struct Requester {
    /// The id of this node.
    this_node: u8,
    /// The priority of transfers from this requester.
    priority: u8,
    /// The send timeout added to `now` to form each transfer's deadline.
    timeout: u64,
    /// The id of the next transfer to send, for each destination node.
    next_transfer_ids: NextTransferIds,
}

impl Requester {
    /// This node's id.
    pub closed spec fn spec_this_node(&self) -> u8 {
        self.this_node
    }

    /// The configured priority.
    pub closed spec fn spec_priority(&self) -> u8 {
        self.priority
    }

    /// The configured send timeout.
    pub closed spec fn spec_timeout(&self) -> u64 {
        self.timeout
    }

    /// The per-destination counters.
    pub closed spec fn spec_ids(&self) -> Seq<u8> {
        self.next_transfer_ids@
    }

    /// Valid node and priority, and a well-formed counter map.
    pub open spec fn wf(&self) -> bool {
        valid_node_id(self.spec_this_node()) && valid_priority(self.spec_priority())
            && self.spec_ids().len() == NODE_ID_COUNT && forall|i: int|
            0 <= i < self.spec_ids().len() ==> valid_transfer_id(#[trigger] self.spec_ids()[i])
    }

    /// Creates a service request transmitter for this node, with the
    /// timeout and priority every request will use.
    pub fn new(this_node: u8, timeout: u64, priority: u8) -> (r: Requester)
        requires
            valid_node_id(this_node),
            valid_priority(priority),
        ensures
            r.wf(),
            r.spec_this_node() == this_node,
            r.spec_priority() == priority,
            r.spec_timeout() == timeout,
            forall|i: int| 0 <= i < r.spec_ids().len() ==> r.spec_ids()[i] == 0,
    {
        Requester { this_node, priority, timeout, next_transfer_ids: NextTransferIds::new() }
    }

    /// The configured send timeout, for callers that compute deadlines.
    pub fn timeout(&self) -> (t: u64)
        ensures
            t == self.spec_timeout(),
    {
        self.timeout
    }

    /// The request header `send_payload` uses for this destination.
    pub open spec fn spec_request_header(&self, service: u16, destination: u8) -> TransferHeader {
        TransferHeader {
            source: self.spec_this_node(),
            priority: self.spec_priority(),
            kind: TransferKindHeader::Request(ServiceHeader { service, destination }),
        }
    }

    /// Takes a fresh transfer id for the destination, assembles the
    /// request transfer, and hands it to the transmitter.
    ///
    /// The destination's counter advances only when the transfer was
    /// accepted: on `Err(OutOfMemoryError)` both the queue and the
    /// counter are unchanged.
    pub fn send_payload(
        &mut self,
        payload: &[u8],
        service: u16,
        destination: u8,
        deadline: u64,
        transmitter: &mut Transmitter,
    ) -> (r: Result<(), OutOfMemoryError>)
        requires
            old(self).wf(),
            old(transmitter).wf(),
            valid_service_id(service),
            valid_node_id(destination),
            payload@.len() + 9 <= usize::MAX,
        ensures
            final(self).wf(),
            final(transmitter).wf(),
            final(self).spec_this_node() == old(self).spec_this_node(),
            final(self).spec_priority() == old(self).spec_priority(),
            final(self).spec_timeout() == old(self).spec_timeout(),
            final(transmitter).spec_capacity() == old(transmitter).spec_capacity(),
            r is Ok ==> final(self).spec_ids() == old(self).spec_ids().update(
                destination as int,
                spec_next_transfer_id(old(self).spec_ids()[destination as int]),
            ),
            r is Err ==> final(self).spec_ids() == old(self).spec_ids(),
            r is Ok <==> old(transmitter)@.len() + spec_frame_count(payload@) <= old(
                transmitter,
            ).spec_capacity(),
            r is Err ==> final(transmitter)@ == old(transmitter)@,
            r is Ok ==> exists|fs: Seq<crate::frame::Frame>|
                #[trigger] frames_match(
                    fs,
                    payload@,
                    old(self).spec_ids()[destination as int],
                    spec_id_of_header(old(self).spec_request_header(service, destination)),
                    deadline,
                ) && final(transmitter)@ == enqueue_all(old(transmitter)@, fs),
    {
        let transfer_id = self.next_transfer_ids.get_and_increment(destination);
        let mut bytes: Vec<u8> = Vec::new();
        let mut i: usize = 0;
        while i < payload.len()
            invariant
                i <= payload@.len(),
                bytes@ =~= payload@.take(i as int),
            decreases payload@.len() - i,
        {
            let b = payload[i];
            bytes.push(b);
            i = i + 1;
        }
        proof {
            assert(bytes@ =~= payload@);
        }
        let transfer = Transfer {
            timestamp: deadline,
            header: TransferHeader {
                source: self.this_node,
                priority: self.priority,
                kind: TransferKindHeader::Request(ServiceHeader { service, destination }),
            },
            transfer_id,
            payload: bytes,
        };
        let r = transmitter.push(&transfer);
        if r.is_err() {
            // The queue refused the transfer: the id was not spent.
            self.next_transfer_ids.restore(destination, transfer_id);
            proof {
                assert(self.next_transfer_ids@ =~= old(self).spec_ids());
            }
        }
        r
    }
}

/// A correlation token for answering one received request: enough of the
/// request's identity to address and number the response.
#[derive(Clone, Copy, Debug, PartialEq, Eq, Structural)]
pub struct ResponseToken {
    /// The service the request invoked.
    pub service: u16,
    /// The node that sent the request.
    pub client: u8,
    /// The request's transfer id, reused by the response.
    pub transfer_id: u8,
}

/// The token for answering a received request transfer, if it is one.
pub open spec fn spec_response_token(t: Transfer) -> Option<ResponseToken> {
    match t.header.kind {
        TransferKindHeader::Request(s) => Some(
            ResponseToken {
                service: s.service,
                client: t.header.source,
                transfer_id: t.transfer_id,
            },
        ),
        _ => None,
    }
}

/// Issues the token that lets a responder answer this received request.
pub fn response_token(t: &Transfer) -> (r: Option<ResponseToken>)
    ensures
        r == spec_response_token(*t),
{
    match t.header.kind {
        TransferKindHeader::Request(s) => Some(
            ResponseToken {
                service: s.service,
                client: t.header.source,
                transfer_id: t.transfer_id,
            },
        ),
        _ => None,
    }
}

/// Sends responses to requests correlated by a [`ResponseToken`].
pub struct Responder {
    /// The id of this node.
    this_node: u8,
    /// The priority of transfers from this responder.
    priority: u8,
}

impl Responder {
    /// This node's id.
    pub closed spec fn spec_this_node(&self) -> u8 {
        self.this_node
    }

    /// The configured priority.
    pub closed spec fn spec_priority(&self) -> u8 {
        self.priority
    }

    /// Valid node id and priority.
    pub open spec fn wf(&self) -> bool {
        valid_node_id(self.spec_this_node()) && valid_priority(self.spec_priority())
    }

    /// Creates a responder for this node with the priority every response
    /// will use.
    pub fn new(this_node: u8, priority: u8) -> (r: Responder)
        requires
            valid_node_id(this_node),
            valid_priority(priority),
        ensures
            r.wf(),
            r.spec_this_node() == this_node,
            r.spec_priority() == priority,
    {
        Responder { this_node, priority }
    }

    /// The response header `send_response` uses for this token.
    pub open spec fn spec_response_header(&self, token: ResponseToken) -> TransferHeader {
        TransferHeader {
            source: self.spec_this_node(),
            priority: self.spec_priority(),
            kind: TransferKindHeader::Response(
                ServiceHeader { service: token.service, destination: token.client },
            ),
        }
    }

    /// Assembles the response transfer a token calls for — addressed back
    /// to the client, numbered with the request's transfer id — and hands
    /// it to the transmitter.
    pub fn send_response(
        &self,
        token: ResponseToken,
        payload: &[u8],
        deadline: u64,
        transmitter: &mut Transmitter,
    ) -> (r: Result<(), OutOfMemoryError>)
        requires
            self.wf(),
            old(transmitter).wf(),
            valid_service_id(token.service),
            valid_node_id(token.client),
            valid_transfer_id(token.transfer_id),
            payload@.len() + 9 <= usize::MAX,
        ensures
            final(transmitter).wf(),
            final(transmitter).spec_capacity() == old(transmitter).spec_capacity(),
            r is Ok <==> old(transmitter)@.len() + spec_frame_count(payload@) <= old(
                transmitter,
            ).spec_capacity(),
            r is Err ==> final(transmitter)@ == old(transmitter)@,
            r is Ok ==> exists|fs: Seq<crate::frame::Frame>|
                #[trigger] frames_match(
                    fs,
                    payload@,
                    token.transfer_id,
                    spec_id_of_header(self.spec_response_header(token)),
                    deadline,
                ) && final(transmitter)@ == enqueue_all(old(transmitter)@, fs),
    {
        let mut bytes: Vec<u8> = Vec::new();
        let mut i: usize = 0;
        while i < payload.len()
            invariant
                i <= payload@.len(),
                bytes@ =~= payload@.take(i as int),
            decreases payload@.len() - i,
        {
            let b = payload[i];
            bytes.push(b);
            i = i + 1;
        }
        proof {
            assert(bytes@ =~= payload@);
        }
        let transfer = Transfer {
            timestamp: deadline,
            header: TransferHeader {
                source: self.this_node,
                priority: self.priority,
                kind: TransferKindHeader::Response(
                    ServiceHeader { service: token.service, destination: token.client },
                ),
            },
            transfer_id: token.transfer_id,
            payload: bytes,
        };
        transmitter.push(&transfer)
    }
}

} // verus!
