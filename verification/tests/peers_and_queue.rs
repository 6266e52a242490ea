use zhtta::peer::{peer_name, PeerAddr};
use zhtta::queue::StaticQueue;
use zhtta::server::WebServer;

#[test]
fn ipv4_peer_name() {
    let name = peer_name(Some(PeerAddr::V4 { octets: [127, 0, 0, 1], port: 54321 }));
    assert_eq!(name, b"127.0.0.1:54321".to_vec());
    let name = peer_name(Some(PeerAddr::V4 { octets: [255, 10, 0, 100], port: 0 }));
    assert_eq!(name, b"255.10.0.100:0".to_vec());
}

#[test]
fn ipv6_peer_name() {
    let name = peer_name(Some(PeerAddr::V6 { segments: [0xfe80, 0, 0, 0, 0x1, 0xabcd, 0xffff, 0x10], port: 8080 }));
    assert_eq!(name, b"[fe80:0:0:0:1:abcd:ffff:10]:8080".to_vec());
}

#[test]
fn unknown_peer_has_empty_name() {
    assert_eq!(peer_name(None), Vec::<u8>::new());
    assert_eq!(WebServer::<u32>::get_peer_name(None), Vec::<u8>::new());
}

#[test]
fn queue_is_first_come_first_served() {
    let mut q: StaticQueue<u32> = StaticQueue::new();
    assert!(q.enqueue(b"p1".to_vec(), b"./a".to_vec(), 1).is_none());
    assert!(q.enqueue(b"p2".to_vec(), b"./b".to_vec(), 2).is_none());
    let (r, s) = q.dequeue().unwrap();
    assert_eq!((r.peer_name, r.path, s), (b"p1".to_vec(), b"./a".to_vec(), Some(1)));
    let (r, s) = q.dequeue().unwrap();
    assert_eq!((r.peer_name, r.path, s), (b"p2".to_vec(), b"./b".to_vec(), Some(2)));
    assert!(q.dequeue().is_none());
}

#[test]
fn same_peer_name_displaces_parked_stream() {
    let mut q: StaticQueue<u32> = StaticQueue::new();
    assert_eq!(q.enqueue(b"p".to_vec(), b"./a".to_vec(), 1), None);
    assert_eq!(q.enqueue(b"p".to_vec(), b"./b".to_vec(), 2), Some(1));
    let (r, s) = q.dequeue().unwrap();
    assert_eq!((r.path, s), (b"./a".to_vec(), Some(2)));
    let (r, s) = q.dequeue().unwrap();
    assert_eq!((r.path, s), (b"./b".to_vec(), None));
}

#[test]
fn different_peers_get_different_names() {
    let a = peer_name(Some(PeerAddr::V4 { octets: [1, 11, 1, 1], port: 1 }));
    let b = peer_name(Some(PeerAddr::V4 { octets: [11, 1, 1, 1], port: 1 }));
    let c = peer_name(Some(PeerAddr::V4 { octets: [1, 11, 1, 1], port: 11 }));
    let d = peer_name(Some(PeerAddr::V6 { segments: [1, 11, 1, 1, 0, 0, 0, 0], port: 1 }));
    assert_ne!(a, b);
    assert_ne!(a, c);
    assert_ne!(a, d);
    assert_ne!(a, peer_name(None));
}
