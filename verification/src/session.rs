//! The session handle: one accepted connection, its identity and its two
//! buffers. The transport itself is not part of it: bytes that were read
//! are handed in, bytes to be written are handed out.

use vstd::prelude::*;

verus! {

/// A session handle as a mathematical value.
pub struct SessionView {
    /// The identity of the session. It never changes.
    pub id: u64,
    /// The peer's address, as it was when the connection was accepted.
    pub address: Seq<char>,
    /// The bytes of the most recent read that nobody has consumed yet.
    pub inbound: Seq<u8>,
    /// The bytes queued for the next write.
    pub outbound: Seq<u8>,
}

/// One accepted connection.
pub struct SessionHandle {
    id: u64,
    address: String,
    inbound_buffer: Vec<u8>,
    outbound_buffer: Vec<u8>,
}

impl View for SessionHandle {
    type V = SessionView;

    closed spec fn view(&self) -> SessionView {
        SessionView {
            id: self.id,
            address: self.address@,
            inbound: self.inbound_buffer@,
            outbound: self.outbound_buffer@,
        }
    }
}

impl Clone for SessionHandle {
    /// A copy that holds what the handle holds at this moment.
    fn clone(&self) -> (copy: Self)
        ensures
            copy@ == self@,
    {
        let copy = SessionHandle {
            id: self.id,
            address: self.address.clone(),
            inbound_buffer: self.inbound_buffer.clone(),
            outbound_buffer: self.outbound_buffer.clone(),
        };
        proof {
            assert(copy.inbound_buffer@ =~= self.inbound_buffer@);
            assert(copy.outbound_buffer@ =~= self.outbound_buffer@);
        }
        copy
    }
}

impl SessionHandle {
    /// The handle of a connection that was just accepted: both buffers are
    /// empty.
    pub fn new(id: u64, address: String) -> (session: Self)
        ensures
            session@ == (SessionView {
                id,
                address: address@,
                inbound: Seq::empty(),
                outbound: Seq::empty(),
            }),
    {
        SessionHandle { id, address, inbound_buffer: Vec::new(), outbound_buffer: Vec::new() }
    }

    /// The identity of the session.
    pub fn id(&self) -> (id: u64)
        ensures
            id == self@.id,
    {
        self.id
    }

    /// The peer's address.
    pub fn get_address(&self) -> (address: &String)
        ensures
            address@ == self@.address,
    {
        &self.address
    }

    /// The bytes that were read and not consumed yet.
    pub fn read_buffer(&self) -> (bytes: &Vec<u8>)
        ensures
            bytes@ == self@.inbound,
    {
        &self.inbound_buffer
    }

    /// The bytes that wait for the next write.
    pub fn write_buffer(&self) -> (bytes: &Vec<u8>)
        ensures
            bytes@ == self@.outbound,
    {
        &self.outbound_buffer
    }

    /// Takes in what a read brought: the bytes go behind those that are
    /// already waiting to be consumed.
    pub fn fill_read_buffer(&mut self, bytes: &Vec<u8>)
        ensures
            final(self)@ == (SessionView {
                inbound: old(self)@.inbound + bytes@,
                ..old(self)@
            }),
    {
        append_bytes(&mut self.inbound_buffer, bytes);
    }

    /// Consumes what was read: hands out the bytes and leaves the inbound
    /// buffer empty.
    pub fn flush_read_buffer(&mut self) -> (bytes: Vec<u8>)
        ensures
            bytes@ == old(self)@.inbound,
            final(self)@ == (SessionView { inbound: Seq::empty(), ..old(self)@ }),
    {
        let mut bytes: Vec<u8> = Vec::new();
        std::mem::swap(&mut bytes, &mut self.inbound_buffer);
        bytes
    }

    /// Queues a message for the next write, behind what is already queued.
    pub fn fill_write_buffer(&mut self, message: &Vec<u8>)
        ensures
            final(self)@ == (SessionView {
                outbound: old(self)@.outbound + message@,
                ..old(self)@
            }),
    {
        append_bytes(&mut self.outbound_buffer, message);
    }

    /// Flushes the outbound buffer: hands out everything that is queued,
    /// for the transport to write, and leaves the buffer empty whether or
    /// not that write succeeds.
    pub fn flush_write_buffer(&mut self) -> (bytes: Vec<u8>)
        ensures
            bytes@ == old(self)@.outbound,
            final(self)@ == (SessionView { outbound: Seq::empty(), ..old(self)@ }),
    {
        let mut bytes: Vec<u8> = Vec::new();
        std::mem::swap(&mut bytes, &mut self.outbound_buffer);
        bytes
    }
}

/// Appends a copy of `bytes` to `buffer`.
fn append_bytes(buffer: &mut Vec<u8>, bytes: &Vec<u8>)
    ensures
        final(buffer)@ == old(buffer)@ + bytes@,
{
    let mut i: usize = 0;
    while i < bytes.len()
        invariant
            i <= bytes.len(),
            buffer@ == old(buffer)@ + bytes@.take(i as int),
        decreases bytes.len() - i,
    {
        buffer.push(bytes[i]);
        i = i + 1;
        proof {
            assert(bytes@.take(i as int) =~= bytes@.take(i - 1).push(bytes@[i - 1]));
        }
    }
    proof {
        assert(bytes@.take(bytes.len() as int) =~= bytes@);
    }
}

} // verus!
