//! Registered descriptors and their packing into the 64-bit user data of an
//! OS poller.
use vstd::prelude::*;

verus! {

#[derive(Debug, Clone, Copy, PartialEq, Eq)]
pub enum EventKind {
    Server,
    Client,
}

#[derive(Debug, Clone, Copy)]
pub struct EventObject {
    pub fd: i32,
    pub kind: EventKind,
}

/// The tag that stands for a kind.
pub open spec fn kind_tag(kind: EventKind) -> usize {
    match kind {
        EventKind::Server => 1,
        EventKind::Client => 2,
    }
}

/// The packed form of an event: the descriptor above the low byte, the tag
/// in it.
pub open spec fn spec_pack(e: EventObject) -> usize {
    ((e.fd as usize) << 8usize) | kind_tag(e.kind)
}

impl EventObject {
    pub fn server(fd: i32) -> (r: Self)
        ensures
            r.fd == fd,
            r.kind == EventKind::Server,
    {
        Self { fd, kind: EventKind::Server }
    }

    pub fn client(fd: i32) -> (r: Self)
        ensures
            r.fd == fd,
            r.kind == EventKind::Client,
    {
        Self { fd, kind: EventKind::Client }
    }

    pub fn encode(self) -> (r: usize)
        ensures
            r == spec_pack(self),
    {
        let tag: usize = match self.kind {
            EventKind::Server => 1,
            EventKind::Client => 2,
        };
        ((self.fd as usize) << 8usize) | tag
    }

    /// Unpacks an event; the low byte must hold a known tag.
    pub fn decode(data: usize) -> (r: Self)
        requires
            data & 0xff == 1 || data & 0xff == 2,
        ensures
            r.fd == (data >> 8usize) as i32,
            r.kind == (if data & 0xff == 1 {
                EventKind::Server
            } else {
                EventKind::Client
            }),
    {
        let tag = data & 0xff;
        let fd = (data >> 8usize) as i32;
        let kind = if tag == 1 {
            EventKind::Server
        } else {
            EventKind::Client
        };
        Self { fd, kind }
    }
}

/// Unpacking a packed event gives it back: for every descriptor where
/// `usize` has 64 bits, and otherwise for a descriptor that is not negative
/// and whose packed form fits in `usize`.
pub proof fn lemma_decode_encode(e: EventObject)
    requires
        usize::BITS == 64 || (e.fd >= 0 && (e.fd as int) * 256 <= usize::MAX),
    ensures
        spec_pack(e) & 0xff == kind_tag(e.kind),
        (spec_pack(e) >> 8usize) as i32 == e.fd,
{
    let fd = e.fd;
    let t = kind_tag(e.kind);
    assert(((((fd as usize) << 8usize) | t) & 0xff) == t) by (bit_vector)
        requires
            t < 256,
    ;
    if usize::BITS == 64 {
        assert(((((fd as usize) << 8usize) | t) >> 8usize) as i32 == fd) by (bit_vector)
            requires
                t < 256,
                usize::BITS == 64,
        ;
    } else {
        let x = fd as usize;
        let y = x << 8usize;
        vstd::arithmetic::power2::lemma2_to64();
        vstd::bits::lemma_usize_shl_is_mul(x, 8);
        assert(y == x * 256);
        assert((y | t) >> 8usize == y >> 8usize) by (bit_vector)
            requires
                t < 256,
                y == x << 8usize,
        ;
        vstd::bits::lemma_usize_shr_is_div(y, 8);
        assert(y / 256 == x);
        assert(x as i32 == fd);
    }
}

} // verus!
