//! Packing registered descriptors.

use fast_kv::poller::{EventKind, EventObject};

#[test]
fn encode_packs_descriptor_and_kind() {
    assert_eq!(EventObject::server(3).encode(), (3 << 8) | 1);
    assert_eq!(EventObject::client(7).encode(), (7 << 8) | 2);
}

#[test]
fn decode_gives_back_what_encode_packed() {
    for fd in [0, 1, 42, 65_535, 1 << 20] {
        for e in [EventObject::server(fd), EventObject::client(fd)] {
            let back = EventObject::decode(e.encode());
            assert_eq!(back.fd, e.fd);
            assert_eq!(back.kind, e.kind);
        }
    }
    assert_eq!(EventObject::decode(0x501).kind, EventKind::Server);
    assert_eq!(EventObject::decode(0x502).fd, 5);
}

#[test]
fn decode_gives_back_negative_descriptors() {
    for fd in [-1, -42, i32::MIN, i32::MAX] {
        let e = EventObject::client(fd);
        let back = EventObject::decode(e.encode());
        assert_eq!(back.fd, fd);
        assert_eq!(back.kind, EventKind::Client);
    }
}
