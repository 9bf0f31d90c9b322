//! Incremental assembly of a raw command buffer.
//!
//! A builder over an optional byte buffer: absent until the first byte is
//! appended, then grown in place.  Taking the buffer hands it out and
//! leaves the builder empty again.

use vstd::prelude::*;

verus! {

/// Accumulates the bytes of one outbound command.
#[derive(Debug)]
pub struct CommandBuilder {
    command: Option<Vec<u8>>,
}

impl View for CommandBuilder {
    type V = Option<Seq<u8>>;

    closed spec fn view(&self) -> Option<Seq<u8>> {
        match self.command {
            Some(ref v) => Some(v@),
            None => None,
        }
    }
}

/// The bytes accumulated so far; an absent buffer holds none.
pub open spec fn buffered(b: Option<Seq<u8>>) -> Seq<u8> {
    match b {
        Some(s) => s,
        None => Seq::empty(),
    }
}

impl CommandBuilder {
    /// A builder with no buffer yet.
    pub fn new() -> (r: CommandBuilder)
        ensures
            r@ is None,
    {
        CommandBuilder { command: None }
    }

    /// Appends one byte, creating the buffer if none exists.
    pub fn with_byte(&mut self, byte: u8)
        ensures
            final (self)@ == Some(buffered(old(self)@).push(byte)),
    {
        match &mut self.command {
            Some(c) => {
                c.push(byte);
            },
            None => {
                let mut c: Vec<u8> = Vec::new();
                c.push(byte);
                self.command = Some(c);
            },
        }
    }

    /// Appends a run of bytes, creating the buffer if none exists.
    pub fn with_bytes(&mut self, bytes: &[u8])
        ensures
            final (self)@ == Some(buffered(old(self)@) + bytes@),
    {
        match &mut self.command {
            Some(c) => {
                c.extend_from_slice(bytes);
            },
            None => {
                let mut c: Vec<u8> = Vec::new();
                c.extend_from_slice(bytes);
                self.command = Some(c);
                assert(Seq::<u8>::empty() + bytes@ =~= bytes@);
            },
        }
        proof {
            if old(self)@ is Some {
            } else {
                assert(buffered(old(self)@) + bytes@ =~= bytes@);
            }
        }
    }

    /// Hands the buffer out, leaving the builder empty.
    pub fn take(&mut self) -> (r: Option<Vec<u8>>)
        ensures
            final (self)@ is None,
            r is Some <==> old(self)@ is Some,
            r matches Some(v) ==> old(self)@ == Some(v@),
    {
        self.command.take()
    }
}

} // verus!
