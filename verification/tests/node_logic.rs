use min_mq::message::Message;
use min_mq::node::{Node, NodeAction, PING_INTERVAL_NANOS};

fn s(x: &str) -> String {
    x.to_string()
}

#[test]
fn new_node_state() {
    let n = Node::new("rust_test_node");
    assert_eq!(n.name(), "rust_test_node");
    assert!(n.address_map().contains("rust_test_node"));
    assert!(!n.has_callback("anything"));
    assert_eq!(n.ack_message(), Message::Ack { origin: s("rust_test_node") });
    assert_eq!(n.ping_message(), Message::Ping { origin: s("rust_test_node") });
}

#[test]
fn timers_and_subscriptions_register_callbacks() {
    let mut n = Node::new("n");
    let t = n.add_timer("one_second", 1_000_000_000, 5);
    assert_eq!(t.name(), "one_second");
    assert_eq!(t.interval_nanos(), 1_000_000_000);
    assert_eq!(t.next_event_nanos(), 1_000_000_005);
    assert!(n.has_callback("one_second"));
    n.subscribe_text("test_topic");
    assert!(n.has_callback("test_topic"));
    let p = n.ping_timer(0);
    assert_eq!(p.name(), "dynamic_broadcast_ping");
    assert_eq!(p.interval_nanos(), PING_INTERVAL_NANOS);
    assert_eq!(p.next_event_nanos(), 1_000_000_000);
    assert!(n.has_callback("dynamic_broadcast_ping"));
}

#[test]
fn topic_message_is_delivered() {
    let mut n = Node::new("n");
    n.subscribe_text("news");
    assert_eq!(
        n.handle_message(Message::Topic { topic: s("news"), origin: Some(s("other")) }),
        NodeAction::Deliver(s("news"))
    );
}

#[test]
fn address_message_updates_the_map() {
    let mut n = Node::new("n");
    let msg = Message::Address { topic: s("tcp://10.0.0.5:32121"), origin: s("peer") };
    assert_eq!(
        n.handle_message(msg.clone()),
        NodeAction::Reconnect { name: s("peer"), address: s("tcp://10.0.0.5:32121") }
    );
    assert_eq!(n.address_map().address_of("peer"), Some(s("tcp://10.0.0.5:32121")));
    assert_eq!(n.handle_message(msg), NodeAction::Nothing);
}

#[test]
fn ping_is_acknowledged_only_for_known_peers() {
    let mut n = Node::new("n");
    assert_eq!(n.handle_message(Message::Ping { origin: s("stranger") }), NodeAction::Nothing);
    n.handle_message(Message::Address { topic: s("tcp://10.0.0.5:1"), origin: s("peer") });
    assert_eq!(n.handle_message(Message::Ping { origin: s("peer") }), NodeAction::SendAck(s("peer")));
    assert_eq!(n.handle_message(Message::Ping { origin: s("n") }), NodeAction::SendAck(s("n")));
}

#[test]
fn acks_lead_to_one_subscription_broadcast() {
    let mut n = Node::new("n");
    n.subscribe_text("a");
    n.subscribe_text("b");
    n.handle_message(Message::Address { topic: s("tcp://10.0.0.5:1"), origin: s("peer") });
    assert_eq!(n.ping_targets().len(), 2);
    assert_eq!(n.handle_message(Message::Ack { origin: s("peer") }), NodeAction::Nothing);
    assert_eq!(n.ping_targets(), vec![s("n")]);
    assert_eq!(
        n.handle_message(Message::Ack { origin: s("n") }),
        NodeAction::SendToAll(Message::PubSub { origin: s("n"), subscriptions: vec![s("a"), s("b")] })
    );
    assert!(n.ping_targets().is_empty());
    assert_eq!(n.handle_message(Message::Ack { origin: s("n") }), NodeAction::Nothing);
    assert_eq!(n.handle_message(Message::Ack { origin: s("peer") }), NodeAction::Nothing);
}

#[test]
fn ack_from_unknown_peer_changes_no_flag() {
    let mut n = Node::new("n");
    assert_eq!(n.handle_message(Message::Ack { origin: s("stranger") }), NodeAction::Nothing);
    assert!(!n.address_map().contains("stranger"));
    assert_eq!(n.ping_targets(), vec![s("n")]);
}

#[test]
fn subscriptions_for_unpublished_topics_add_nothing() {
    let mut n = Node::new("n");
    assert_eq!(
        n.handle_message(Message::PubSub { origin: s("peer"), subscriptions: vec![s("x"), s("y")] }),
        NodeAction::AddSubscriber { origin: s("peer"), topics: vec![] }
    );
}
