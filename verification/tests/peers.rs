use sage_sync::error::Error;
use sage_sync::peers::{AddOutcome, IpAddress, Peer, PeerRegistry};

fn v4(a: u8, b: u8, c: u8, d: u8) -> IpAddress {
    IpAddress::V4(u32::from_be_bytes([a, b, c, d]))
}

fn peer(ip: IpAddress) -> Peer {
    Peer { ip, port: 8444 }
}

#[test]
fn sort_key_puts_ipv4_before_ipv6() {
    assert_eq!(IpAddress::V4(7).sort_key(), (4, 7));
    assert_eq!(IpAddress::V6(7).sort_key(), (6, 7));
    assert!(IpAddress::V4(u32::MAX).sort_key() < IpAddress::V6(0).sort_key());
    assert!(v4(10, 0, 0, 2).sort_key() < v4(10, 0, 1, 0).sort_key());
}

#[test]
fn new_registry_is_empty() {
    let registry = PeerRegistry::new();
    assert!(registry.list().is_empty());
    assert!(!registry.is_active(v4(1, 2, 3, 4)));
    assert!(!registry.is_banned(v4(1, 2, 3, 4)));
}

#[test]
fn add_puts_a_peer_in_the_active_set() {
    let mut registry = PeerRegistry::new();
    assert_eq!(registry.add(peer(v4(1, 2, 3, 4))), AddOutcome::Added);
    assert!(registry.is_active(v4(1, 2, 3, 4)));
    assert_eq!(registry.list(), vec![peer(v4(1, 2, 3, 4))]);
}

#[test]
fn add_of_an_active_address_changes_nothing() {
    let mut registry = PeerRegistry::new();
    registry.add(Peer { ip: v4(1, 2, 3, 4), port: 8444 });
    let again = registry.add(Peer { ip: v4(1, 2, 3, 4), port: 9000 });
    assert_eq!(again, AddOutcome::AlreadyActive);
    assert_eq!(registry.list(), vec![Peer { ip: v4(1, 2, 3, 4), port: 8444 }]);
}

#[test]
fn list_is_in_ascending_order_of_address() {
    let mut registry = PeerRegistry::new();
    registry.add(peer(IpAddress::V6(1)));
    registry.add(peer(v4(192, 168, 1, 9)));
    registry.add(peer(v4(10, 0, 0, 200)));
    registry.add(peer(v4(10, 0, 0, 3)));
    registry.add(peer(IpAddress::V6(0)));
    assert_eq!(
        registry.list(),
        vec![
            peer(v4(10, 0, 0, 3)),
            peer(v4(10, 0, 0, 200)),
            peer(v4(192, 168, 1, 9)),
            peer(IpAddress::V6(0)),
            peer(IpAddress::V6(1)),
        ]
    );
}

#[test]
fn list_does_not_return_the_peers_in_insertion_order() {
    let mut registry = PeerRegistry::new();
    registry.add(peer(v4(9, 9, 9, 9)));
    registry.add(peer(v4(1, 1, 1, 1)));
    let listing = registry.list();
    assert_eq!(listing[0], peer(v4(1, 1, 1, 1)));
    assert_eq!(listing[1], peer(v4(9, 9, 9, 9)));
}

#[test]
fn remove_takes_the_peer_out() {
    let mut registry = PeerRegistry::new();
    registry.add(peer(v4(1, 1, 1, 1)));
    registry.add(peer(v4(2, 2, 2, 2)));
    assert!(registry.remove(v4(1, 1, 1, 1)));
    assert!(!registry.is_active(v4(1, 1, 1, 1)));
    assert_eq!(registry.list(), vec![peer(v4(2, 2, 2, 2))]);
    assert!(!registry.remove(v4(1, 1, 1, 1)));
    assert_eq!(registry.add(peer(v4(1, 1, 1, 1))), AddOutcome::Added);
}

#[test]
fn ban_removes_and_rejects_future_add() {
    let mut registry = PeerRegistry::new();
    registry.add(peer(v4(1, 1, 1, 1)));
    registry.ban(v4(1, 1, 1, 1));
    assert!(registry.is_banned(v4(1, 1, 1, 1)));
    assert!(!registry.is_active(v4(1, 1, 1, 1)));
    assert!(registry.list().is_empty());
    assert_eq!(registry.add(peer(v4(1, 1, 1, 1))), AddOutcome::Banned);
    assert!(registry.list().is_empty());
}

#[test]
fn ban_of_an_unknown_address_only_bans() {
    let mut registry = PeerRegistry::new();
    registry.add(peer(v4(2, 2, 2, 2)));
    registry.ban(v4(1, 1, 1, 1));
    registry.ban(v4(1, 1, 1, 1));
    assert!(registry.is_banned(v4(1, 1, 1, 1)));
    assert_eq!(registry.list(), vec![peer(v4(2, 2, 2, 2))]);
}

#[test]
fn request_to_an_active_peer_completes() {
    let mut registry = PeerRegistry::new();
    registry.add(peer(v4(1, 1, 1, 1)));
    assert_eq!(registry.begin_request(v4(1, 1, 1, 1)), Ok(()));
    assert_eq!(registry.complete_request(v4(1, 1, 1, 1)), Ok(()));
    assert_eq!(registry.complete_request(v4(1, 1, 1, 1)), Err(Error::PeerUnavailable));
}

#[test]
fn request_to_an_unknown_peer_fails() {
    let mut registry = PeerRegistry::new();
    assert_eq!(registry.begin_request(v4(1, 1, 1, 1)), Err(Error::PeerUnavailable));
    assert_eq!(registry.complete_request(v4(1, 1, 1, 1)), Err(Error::PeerUnavailable));
}

#[test]
fn banning_a_peer_fails_its_request_and_unlists_it() {
    let mut registry = PeerRegistry::new();
    registry.add(peer(v4(1, 1, 1, 1)));
    registry.add(peer(v4(2, 2, 2, 2)));
    assert_eq!(registry.begin_request(v4(1, 1, 1, 1)), Ok(()));
    registry.ban(v4(1, 1, 1, 1));
    assert_eq!(registry.list(), vec![peer(v4(2, 2, 2, 2))]);
    assert_eq!(registry.complete_request(v4(1, 1, 1, 1)), Err(Error::PeerUnavailable));
}

#[test]
fn removing_a_peer_fails_its_request() {
    let mut registry = PeerRegistry::new();
    registry.add(peer(v4(1, 1, 1, 1)));
    assert_eq!(registry.begin_request(v4(1, 1, 1, 1)), Ok(()));
    assert!(registry.remove(v4(1, 1, 1, 1)));
    assert_eq!(registry.complete_request(v4(1, 1, 1, 1)), Err(Error::PeerUnavailable));
    registry.add(peer(v4(1, 1, 1, 1)));
    assert_eq!(registry.complete_request(v4(1, 1, 1, 1)), Err(Error::PeerUnavailable));
}
