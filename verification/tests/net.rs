use libp2p_grpc_rs::net::{MAX_DIGEST_LEN, Multiaddr, PeerId};

#[test]
fn peer_keeps_its_multihash() {
    let peer = PeerId::from_multihash(0x12, &[1, 2, 3]).unwrap();
    assert_eq!(peer.code(), 0x12);
    assert_eq!(peer.digest(), vec![1, 2, 3]);
}

#[test]
fn digest_may_be_empty_or_full_but_not_longer() {
    let empty = PeerId::from_multihash(0, &[]).unwrap();
    assert!(empty.digest().is_empty());

    let full = vec![0xAB; MAX_DIGEST_LEN];
    assert_eq!(PeerId::from_multihash(7, &full).unwrap().digest(), full);

    assert!(PeerId::from_multihash(7, &vec![0; MAX_DIGEST_LEN + 1]).is_none());
}

#[test]
fn peers_are_equal_when_their_multihashes_are() {
    let a = PeerId::from_multihash(1, &[5, 6]).unwrap();
    let same = PeerId::from_multihash(1, &[5, 6]).unwrap();
    let other_code = PeerId::from_multihash(2, &[5, 6]).unwrap();
    let other_digest = PeerId::from_multihash(1, &[5, 7]).unwrap();
    let longer = PeerId::from_multihash(1, &[5, 6, 0]).unwrap();
    assert_eq!(a, same);
    assert_ne!(a, other_code);
    assert_ne!(a, other_digest);
    assert_ne!(a, longer);
}

#[test]
fn address_keeps_its_bytes() {
    let address = Multiaddr::from_bytes(vec![4, 127, 0, 0, 1]);
    assert_eq!(address.clone().into_bytes(), vec![4, 127, 0, 0, 1]);
    assert_eq!(address, address.clone());
}

#[test]
fn addresses_differ_by_their_bytes() {
    let a = Multiaddr::from_bytes(vec![4, 1]);
    let same = Multiaddr::from_bytes(vec![4, 1]);
    let other = Multiaddr::from_bytes(vec![4, 2]);
    let longer = Multiaddr::from_bytes(vec![4, 1, 0]);
    assert!(!a.differs(&same));
    assert!(a.differs(&other));
    assert!(a.differs(&longer));
    assert_eq!(a, same);
    assert_ne!(a, other);
    assert_ne!(a, longer);
}
