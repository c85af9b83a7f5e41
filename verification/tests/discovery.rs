use min_mq::dynamic_discovery::{
    address_message, announcement, broadcast_target, discovery_bind_address, local_endpoint, peer_endpoint,
    NodeAddress, DYNAMIC_DISCOVER_PORT,
};
use min_mq::message::Message;

#[test]
fn broadcast_goes_to_the_discovery_port() {
    assert_eq!(DYNAMIC_DISCOVER_PORT, 43357);
    assert_eq!(broadcast_target(), "255.255.255.255:43357");
    assert_eq!(discovery_bind_address(), "0.0.0.0:43357");
}

#[test]
fn local_endpoints() {
    assert_eq!(local_endpoint(55555), "tcp://localhost:55555");
    assert_eq!(local_endpoint(0), "tcp://localhost:0");
    assert_eq!(local_endpoint(7), "tcp://localhost:7");
    assert_eq!(local_endpoint(65535), "tcp://localhost:65535");
    assert_eq!(local_endpoint(100), "tcp://localhost:100");
}

#[test]
fn peer_endpoints() {
    assert_eq!(peer_endpoint([192, 168, 0, 10], 32121), "tcp://192.168.0.10:32121");
    assert_eq!(peer_endpoint([0, 0, 0, 0], 0), "tcp://0.0.0.0:0");
    assert_eq!(peer_endpoint([10, 200, 3, 255], 80), "tcp://10.200.3.255:80");
    assert_eq!(peer_endpoint([127, 0, 0, 1], 9), format!("tcp://{}.{}.{}.{}:{}", 127, 0, 0, 1, 9));
}

#[test]
fn announcement_is_rust_data() {
    let a = announcement();
    assert_eq!(a.name, "Rust_Data");
    assert_eq!(a.port, 32121);
}

#[test]
fn announcement_becomes_address_message() {
    let announced = NodeAddress { name: "other".to_string(), port: 4000 };
    assert_eq!(
        address_message([10, 0, 0, 2], &announced),
        Message::Address { topic: "tcp://10.0.0.2:4000".to_string(), origin: "other".to_string() }
    );
}
