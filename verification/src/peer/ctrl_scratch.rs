//! Reusable buffer in which a peer's control messages are encoded.
use crate::wire::messages::{
    append_cancel, append_have, append_interested, append_keepalive, append_not_interested,
    append_reject_request, append_request, encoded, MessageView,
};
use vstd::prelude::*;

verus! {

/// Encode buffer: clear, append frames, then [`Self::take`] them for the queue.
#[derive(Debug)]
pub struct CtrlScratch {
    buf: Vec<u8>,
}

impl View for CtrlScratch {
    type V = Seq<u8>;

    /// The bytes encoded so far.
    closed spec fn view(&self) -> Seq<u8> {
        self.buf@
    }
}

impl CtrlScratch {
    /// An empty buffer.
    pub fn new() -> (s: Self)
        ensures
            s@ == Seq::<u8>::empty(),
    {
        CtrlScratch { buf: Vec::with_capacity(544) }
    }

    /// Drop what was encoded.
    pub fn clear(&mut self)
        ensures
            final(self)@ == Seq::<u8>::empty(),
    {
        self.buf.clear();
    }

    /// Whether nothing is encoded.
    pub fn is_empty(&self) -> (r: bool)
        ensures
            r == (self@.len() == 0),
    {
        self.buf.len() == 0
    }

    /// Hand off the encoded bytes.
    pub fn take(&mut self) -> (out: Vec<u8>)
        ensures
            out@ == old(self)@,
            final(self)@ == Seq::<u8>::empty(),
    {
        let mut fresh: Vec<u8> = Vec::with_capacity(544);
        std::mem::swap(&mut fresh, &mut self.buf);
        fresh
    }

    /// Append a keep-alive.
    pub fn append_keepalive(&mut self)
        ensures
            final(self)@ == old(self)@ + encoded(MessageView::KeepAlive),
    {
        append_keepalive(&mut self.buf);
    }

    /// Append an INTERESTED.
    pub fn append_interested(&mut self)
        ensures
            final(self)@ == old(self)@ + encoded(MessageView::Interested),
    {
        append_interested(&mut self.buf);
    }

    /// Append a NOT INTERESTED.
    pub fn append_not_interested(&mut self)
        ensures
            final(self)@ == old(self)@ + encoded(MessageView::NotInterested),
    {
        append_not_interested(&mut self.buf);
    }

    /// Append a HAVE.
    pub fn append_have(&mut self, index: u32)
        ensures
            final(self)@ == old(self)@ + encoded(MessageView::Have(index)),
    {
        append_have(&mut self.buf, index);
    }

    /// Append a REQUEST.
    pub fn append_request(&mut self, index: u32, begin: u32, length: u32)
        ensures
            final(self)@ == old(self)@ + encoded(MessageView::Request { index, begin, length }),
    {
        append_request(&mut self.buf, index, begin, length);
    }

    /// Append a CANCEL.
    pub fn append_cancel(&mut self, index: u32, begin: u32, length: u32)
        ensures
            final(self)@ == old(self)@ + encoded(MessageView::Cancel { index, begin, length }),
    {
        append_cancel(&mut self.buf, index, begin, length);
    }

    /// Append a REJECT.
    pub fn append_reject_request(&mut self, index: u32, begin: u32, length: u32)
        ensures
            final(self)@ == old(self)@ + encoded(
                MessageView::RejectRequest { index, begin, length },
            ),
    {
        append_reject_request(&mut self.buf, index, begin, length);
    }

    /// Make room for `n` HAVE messages.
    pub fn reserve_haves(&mut self, n: usize)
        ensures
            final(self)@ == old(self)@,
    {
        if n <= 4096 {
            self.buf.reserve(n * 9);
        }
    }

    /// Make room for `n` REQUEST or CANCEL messages.
    pub fn reserve_requests(&mut self, n: usize)
        ensures
            final(self)@ == old(self)@,
    {
        if n <= 8192 {
            self.buf.reserve(n * 17);
        }
    }
}

impl Default for CtrlScratch {
    fn default() -> (s: Self)
        ensures
            s@ == Seq::<u8>::empty(),
    {
        Self::new()
    }
}

} // verus!
