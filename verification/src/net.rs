//! Addresses of peers, and the bytes that were read from one.
use crate::bytes::{copy_range, push_all};
use crate::wire::messages::{front, parse_message};
use vstd::prelude::*;
use vstd::slice::slice_subrange;

verus! {

/// Address of a host.
#[derive(Debug, Clone, Copy, PartialEq, Eq, Hash, Structural)]
pub enum Ip {
    V4(u32),
    V6(u128),
}

impl Ip {
    /// The address with a port.
    pub open spec fn spec_at(self, p: u16) -> PeerAddr {
        match self {
            Ip::V4(ip) => PeerAddr::V4 { ip, port: p },
            Ip::V6(ip6) => PeerAddr::V6 { ip6, port: p },
        }
    }

    /// The address with a port.
    pub fn at(self, p: u16) -> (r: PeerAddr)
        ensures
            r == self.spec_at(p),
    {
        match self {
            Ip::V4(ip) => PeerAddr::V4 { ip, port: p },
            Ip::V6(ip6) => PeerAddr::V6 { ip6, port: p },
        }
    }
}

/// Address and port of a peer.
#[derive(Debug, Clone, Copy, PartialEq, Eq, Hash, Structural)]
pub enum PeerAddr {
    V4 { ip: u32, port: u16 },
    V6 { ip6: u128, port: u16 },
}

impl PeerAddr {
    /// The port.
    pub open spec fn spec_port(self) -> u16 {
        match self {
            PeerAddr::V4 { port, .. } => port,
            PeerAddr::V6 { port, .. } => port,
        }
    }

    /// The same address with another port.
    pub open spec fn spec_with_port(self, p: u16) -> PeerAddr {
        match self {
            PeerAddr::V4 { ip, .. } => PeerAddr::V4 { ip, port: p },
            PeerAddr::V6 { ip6, .. } => PeerAddr::V6 { ip6, port: p },
        }
    }

    /// The port.
    pub fn port(self) -> (r: u16)
        ensures
            r == self.spec_port(),
    {
        match self {
            PeerAddr::V4 { port, .. } => port,
            PeerAddr::V6 { port, .. } => port,
        }
    }

    /// The same address with another port.
    pub fn with_port(self, p: u16) -> (r: PeerAddr)
        ensures
            r == self.spec_with_port(p),
    {
        match self {
            PeerAddr::V4 { ip, .. } => PeerAddr::V4 { ip, port: p },
            PeerAddr::V6 { ip6, .. } => PeerAddr::V6 { ip6, port: p },
        }
    }
}

/// Once this many bytes at the front are used up, they are dropped.
pub const COMPACT_AT: usize = 65_536;

/// Bytes that were read and not yet used.
#[derive(Debug)]
pub struct ReadCursor {
    buf: Vec<u8>,
    at: usize,
}

impl View for ReadCursor {
    type V = Seq<u8>;

    closed spec fn view(&self) -> Seq<u8> {
        self.buf@.subrange(self.at as int, self.buf@.len() as int)
    }
}

impl ReadCursor {
    /// The place lies in the buffer.
    pub closed spec fn wf(&self) -> bool {
        self.at <= self.buf@.len()
    }

    /// Number of used bytes that are still held.
    pub closed spec fn used(&self) -> nat {
        self.at as nat
    }

    /// Start with these bytes.
    pub fn from_vec(buf: Vec<u8>) -> (c: ReadCursor)
        ensures
            c.wf(),
            c@ == buf@,
            c.used() == 0,
    {
        let c = ReadCursor { buf, at: 0 };
        assert(c@ =~= buf@);
        c
    }

    /// The bytes that are not yet used.
    pub fn unparsed(&self) -> (r: &[u8])
        requires
            self.wf(),
        ensures
            r@ == self@,
    {
        slice_subrange(self.buf.as_slice(), self.at, self.buf.len())
    }

    /// The first `n` bytes are used.
    pub fn advance(&mut self, n: usize)
        requires
            old(self).wf(),
            n <= old(self)@.len(),
        ensures
            final(self).wf(),
            final(self)@ == old(self)@.subrange(n as int, old(self)@.len() as int),
            final(self).used() == old(self).used() + n,
    {
        let end: usize = self.buf.len();
        assert(self.at + n <= end);
        self.at = self.at + n;
        assert(self@ =~= old(self)@.subrange(n as int, old(self)@.len() as int));
    }

    /// More bytes were read.
    pub fn append(&mut self, more: &[u8])
        requires
            old(self).wf(),
        ensures
            final(self).wf(),
            final(self)@ == old(self)@ + more@,
            final(self).used() == old(self).used(),
    {
        push_all(&mut self.buf, more);
        assert(self@ =~= old(self)@ + more@);
    }

    /// Whether a whole message, or one that is refused, is at the front.
    pub fn has_complete_frame(&self) -> (r: bool)
        requires
            self.wf(),
        ensures
            r == (front(self@) !is More),
    {
        match parse_message(self.unparsed()) {
            Ok(None) => false,
            _ => true,
        }
    }

    /// Drop what is used, where that is everything or much.
    pub fn compact_if_needed(&mut self)
        requires
            old(self).wf(),
        ensures
            final(self).wf(),
            final(self)@ == old(self)@,
            final(self).used() == if old(self)@.len() == 0 || old(self).used() >= COMPACT_AT {
                0
            } else {
                old(self).used()
            },
    {
        if self.at == self.buf.len() || self.at >= COMPACT_AT {
            let rest = copy_range(self.buf.as_slice(), self.at, self.buf.len());
            self.buf = rest;
            self.at = 0;
            assert(self@ =~= old(self)@);
        }
    }
}

/// An address with a port has that port, stays on its host, and differs by its host alone.
pub proof fn ports_are_put_on_addresses(a: PeerAddr, h: Ip, p: u16)
    ensures
        a.spec_with_port(p).spec_port() == p,
        a.spec_with_port(a.spec_port()) == a,
        a matches PeerAddr::V4 { ip, .. } ==> a.spec_with_port(p) == (PeerAddr::V4 { ip, port: p }),
        a matches PeerAddr::V6 { ip6, .. } ==> a.spec_with_port(p) == (PeerAddr::V6 {
            ip6,
            port: p,
        }),
        h.spec_at(p).spec_port() == p,
        h matches Ip::V4(ip) ==> h.spec_at(p) == (PeerAddr::V4 { ip, port: p }),
        h matches Ip::V6(ip6) ==> h.spec_at(p) == (PeerAddr::V6 { ip6, port: p }),
{
}

} // verus!
