use min_mq::message::{Message, MessageType};

#[test]
fn it_works() {
    let result = 2 + 2;
    assert_eq!(result, 4);
}

#[test]
fn message_types() {
    let origin = "n".to_string();
    assert_eq!(Message::Topic { topic: "t".to_string(), origin: None }.message_type(), MessageType::Topic);
    assert_eq!(Message::Address { topic: "tcp://1.2.3.4:5".to_string(), origin: origin.clone() }.message_type(), MessageType::Address);
    assert_eq!(Message::Ping { origin: origin.clone() }.message_type(), MessageType::Ping);
    assert_eq!(Message::Ack { origin: origin.clone() }.message_type(), MessageType::Ack);
    assert_eq!(Message::PubSub { origin, subscriptions: vec![] }.message_type(), MessageType::PubSub);
}
