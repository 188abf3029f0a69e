//! The per-connection reading side: what each read of a connection turns into,
//! and the cleanup when the connection fails.

use vstd::prelude::*;
use crate::message::{decode_view, lossy_utf8, ChatMessage};
use crate::registry::{ids_of, unregister_spec, Registry};

verus! {

/// The most bytes that one read of a connection takes.
pub const READ_BUFFER_SIZE: usize = 1024;

/// How many decoded messages wait for the broadcast loop before readers block.
pub const INBOUND_QUEUE_CAPACITY: usize = 32;

/// How many messages wait in each of a client's two queues before it blocks.
pub const CLIENT_QUEUE_CAPACITY: usize = 2;

/// A decoded message, tagged with the connection it came from.
pub struct Inbound {
    pub sender: u64,
    pub message: ChatMessage,
}

/// What one read of `bytes` yields: nothing for an empty read, which is not taken
/// for the end of the stream; otherwise the decoded message.
pub fn decode_read(bytes: &[u8]) -> (r: Option<ChatMessage>)
    ensures
        r is None <==> bytes@.len() == 0,
        r matches Some(m) ==> m@ == decode_view(lossy_utf8(bytes@)),
{
    if bytes.len() == 0 {
        None
    } else {
        Some(ChatMessage::decode_bytes(bytes))
    }
}

/// The reading side of one server connection: reading until the first error,
/// then closed.
pub struct InboundReader {
    id: u64,
    closed: bool,
}

impl InboundReader {
    /// The identity of the connection read.
    pub closed spec fn spec_id(&self) -> u64 {
        self.id
    }

    /// Whether the connection has failed.
    pub closed spec fn spec_closed(&self) -> bool {
        self.closed
    }

    /// A reader for the connection `id`, reading.
    pub fn new(id: u64) -> (r: InboundReader)
        ensures
            r.spec_id() == id,
            !r.spec_closed(),
    {
        InboundReader { id, closed: false }
    }

    /// The identity of the connection read.
    pub fn id(&self) -> (r: u64)
        ensures
            r == self.spec_id(),
    {
        self.id
    }

    /// Whether the connection has failed.
    pub fn is_closed(&self) -> (r: bool)
        ensures
            r == self.spec_closed(),
    {
        self.closed
    }

    /// Handles the bytes of one successful read: an empty read yields nothing,
    /// any other the decoded message tagged with this connection.
    pub fn on_data(&self, bytes: &[u8]) -> (r: Option<Inbound>)
        requires
            !self.spec_closed(),
        ensures
            r is None <==> bytes@.len() == 0,
            r matches Some(item) ==> item.sender == self.spec_id() && item.message@
                == decode_view(lossy_utf8(bytes@)),
    {
        match decode_read(bytes) {
            Some(message) => Some(Inbound { sender: self.id, message }),
            None => None,
        }
    }

    /// Handles a failed read (the end of the stream included): the connection
    /// leaves the registry and the reader closes. Its writer is handed back.
    pub fn on_error<W>(&mut self, registry: &mut Registry<W>) -> (r: Option<W>)
        requires
            old(registry).wf(),
            !old(self).spec_closed(),
        ensures
            final(self).spec_closed(),
            final(self).spec_id() == old(self).spec_id(),
            final(registry).wf(),
            final(registry)@ == unregister_spec(old(registry)@, old(self).spec_id()),
            r is Some <==> ids_of(old(registry)@).contains(old(self).spec_id()),
    {
        self.closed = true;
        registry.unregister(self.id)
    }
}

} // verus!
