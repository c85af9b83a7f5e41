use min_mq::address_map::AddressMap;

fn sorted(mut v: Vec<String>) -> Vec<String> {
    v.sort();
    v
}

#[test]
fn new_map_knows_only_itself() {
    let m = AddressMap::new("me");
    assert!(m.contains("me"));
    assert!(!m.contains("you"));
    assert_eq!(m.address_of("me"), Some("tcp://localhost:55555".to_string()));
    assert!(!m.is_connected("me"));
    assert!(!m.is_all_connected());
    assert_eq!(m.peer_names(), vec!["me".to_string()]);
}

#[test]
fn update_address_reports_changes() {
    let mut m = AddressMap::new("me");
    assert!(m.update_address("peer", "tcp://10.0.0.1:1"));
    assert_eq!(m.address_of("peer"), Some("tcp://10.0.0.1:1".to_string()));
    assert!(!m.is_connected("peer"));
    // The same address again changes nothing.
    assert!(!m.update_address("peer", "tcp://10.0.0.1:1"));
    // A new address for a known peer.
    assert!(m.update_address("peer", "tcp://10.0.0.2:1"));
    assert_eq!(m.address_of("peer"), Some("tcp://10.0.0.2:1".to_string()));
    // The node's own entry can be moved too.
    assert!(!m.update_address("me", "tcp://localhost:55555"));
    assert!(m.update_address("me", "tcp://10.0.0.9:55555"));
    assert_eq!(sorted(m.peer_names()), vec!["me".to_string(), "peer".to_string()]);
}

#[test]
fn new_address_keeps_connection_flag() {
    let mut m = AddressMap::new("me");
    m.update_address("peer", "tcp://10.0.0.1:1");
    m.set_connected("peer");
    assert!(m.is_connected("peer"));
    assert!(m.update_address("peer", "tcp://10.0.0.3:1"));
    assert!(m.is_connected("peer"));
}

#[test]
fn set_connected_on_unknown_peer_does_nothing() {
    let mut m = AddressMap::new("me");
    m.set_connected("ghost");
    assert!(!m.contains("ghost"));
    assert_eq!(m.peer_names(), vec!["me".to_string()]);
}

#[test]
fn full_connection_is_reported_once() {
    let mut m = AddressMap::new("me");
    m.update_address("peer", "tcp://10.0.0.1:1");
    assert!(!m.all_newly_connected());
    m.set_connected("me");
    assert!(!m.all_newly_connected());
    assert_eq!(m.unconnected_peers(), vec!["peer".to_string()]);
    m.set_connected("peer");
    assert!(m.unconnected_peers().is_empty());
    assert!(m.all_newly_connected());
    assert!(m.is_all_connected());
    assert!(!m.all_newly_connected());
    // A new, unconnected peer does not bring the report back.
    m.update_address("late", "tcp://10.0.0.4:1");
    assert!(!m.all_newly_connected());
    assert!(m.is_all_connected());
}

#[test]
fn unconnected_peers_lists_each_once() {
    let mut m = AddressMap::new("me");
    m.update_address("a", "tcp://1.1.1.1:1");
    m.update_address("b", "tcp://1.1.1.2:1");
    m.update_address("a", "tcp://1.1.1.3:1");
    m.set_connected("b");
    assert_eq!(sorted(m.unconnected_peers()), vec!["a".to_string(), "me".to_string()]);
    assert_eq!(sorted(m.peer_names()), vec!["a".to_string(), "b".to_string(), "me".to_string()]);
}
