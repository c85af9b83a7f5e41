//! The messages that nodes exchange, as plain values.  Their wire encoding
//! is done where the bytes are sent and received.

use vstd::prelude::*;

verus! {

/// The kinds of message a node sends and handles.
#[derive(Clone, Copy, PartialEq, Eq, Debug)]
pub enum MessageType {
    Topic,
    Address,
    Ping,
    Ack,
    PubSub,
}

/// A message between nodes, with the fields that its kind requires.
#[derive(Clone, PartialEq, Eq, Debug)]
pub enum Message {
    /// Data published on `topic`; timer firings are topic messages too.
    Topic { topic: String, origin: Option<String> },
    /// Node `origin` can be reached at the endpoint `topic`.
    Address { topic: String, origin: String },
    /// Node `origin` asks for an acknowledgement.
    Ping { origin: String },
    /// Node `origin` acknowledges a ping.
    Ack { origin: String },
    /// Node `origin` subscribes to `subscriptions`.
    PubSub { origin: String, subscriptions: Vec<String> },
}

impl Message {
    /// The kind of the message.
    pub fn message_type(&self) -> (k: MessageType)
        ensures
            k == (match self {
                Message::Topic { .. } => MessageType::Topic,
                Message::Address { .. } => MessageType::Address,
                Message::Ping { .. } => MessageType::Ping,
                Message::Ack { .. } => MessageType::Ack,
                Message::PubSub { .. } => MessageType::PubSub,
            }),
    {
        match self {
            Message::Topic { .. } => MessageType::Topic,
            Message::Address { .. } => MessageType::Address,
            Message::Ping { .. } => MessageType::Ping,
            Message::Ack { .. } => MessageType::Ack,
            Message::PubSub { .. } => MessageType::PubSub,
        }
    }
}

} // verus!
