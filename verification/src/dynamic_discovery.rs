//! What dynamic discovery computes: the endpoints it uses, the address that
//! a node announces, and the address message that an announcement becomes.

use vstd::prelude::*;
use vstd::string::StringExecFns;
use crate::message::Message;

verus! {

/// The UDP port on which nodes announce themselves.
pub const DYNAMIC_DISCOVER_PORT: u16 = 43357;

/// The decimal digit `d` as a character.
pub open spec fn digit_char(d: int) -> char {
    if d == 0 { '0' }
    else if d == 1 { '1' }
    else if d == 2 { '2' }
    else if d == 3 { '3' }
    else if d == 4 { '4' }
    else if d == 5 { '5' }
    else if d == 6 { '6' }
    else if d == 7 { '7' }
    else if d == 8 { '8' }
    else { '9' }
}

/// `n` written in decimal, without leading zeros.
pub open spec fn decimal(n: nat) -> Seq<char>
    decreases n,
{
    if n < 10 {
        seq![digit_char(n as int)]
    } else {
        decimal(n / 10).push(digit_char((n % 10) as int))
    }
}

/// Whether `c` is one of the ten decimal digits.
pub open spec fn is_decimal_digit(c: char) -> bool {
    '0' <= c && c <= '9'
}

/// The value of a string of decimal digits, most significant first.
pub open spec fn numeral_value(s: Seq<char>) -> int
    decreases s.len(),
{
    if s.len() == 0 {
        0
    } else {
        numeral_value(s.drop_last()) * 10 + (s.last() as int - '0' as int)
    }
}

/// `decimal(n)` is the standard numeral of `n`: a non-empty string of
/// decimal digits, without a leading zero unless `n` is zero, whose value is
/// `n`.  Every digit is written, interior zeros included.
pub proof fn lemma_decimal_is_numeral(n: nat)
    ensures
        decimal(n).len() > 0,
        forall|i: int| 0 <= i < decimal(n).len() ==> is_decimal_digit(#[trigger] decimal(n)[i]),
        numeral_value(decimal(n)) == n,
        n > 0 ==> decimal(n)[0] != '0',
    decreases n,
{
    let d0 = (n % 10) as int;
    assert(digit_char(d0) as int - '0' as int == d0 && is_decimal_digit(digit_char(d0)));
    if n < 10 {
        assert(decimal(n).drop_last() =~= Seq::<char>::empty());
        assert(numeral_value(decimal(n)) == numeral_value(Seq::<char>::empty()) * 10 + (digit_char(d0) as int - '0' as int));
    }
    if n >= 10 {
        lemma_decimal_is_numeral(n / 10);
        assert(decimal(n).last() == digit_char(d0));
        let d = decimal(n / 10);
        assert(decimal(n).drop_last() =~= d);
        assert(decimal(n)[0] == d[0]);
        assert(numeral_value(decimal(n)) == numeral_value(d) * 10 + d0);
        assert forall|i: int| 0 <= i < decimal(n).len() implies is_decimal_digit(#[trigger] decimal(n)[i]) by {
            if i < d.len() {
                assert(decimal(n)[i] == d[i]);
            }
        }
    }
}

/// An IPv4 address in dotted-decimal notation.
pub open spec fn dotted(ip: [u8; 4]) -> Seq<char> {
    decimal(ip[0] as nat) + seq!['.'] + decimal(ip[1] as nat) + seq!['.'] + decimal(ip[2] as nat)
        + seq!['.'] + decimal(ip[3] as nat)
}

/// A socket address `host:port` with the IPv4 host `ip`.
pub open spec fn socket_address(ip: [u8; 4], port: u16) -> Seq<char> {
    dotted(ip) + seq![':'] + decimal(port as nat)
}

fn digit_str(d: u32) -> (s: &'static str)
    requires
        d < 10,
    ensures
        s@ == seq![digit_char(d as int)],
{
    proof {
        reveal_strlit("0");
        reveal_strlit("1");
        reveal_strlit("2");
        reveal_strlit("3");
        reveal_strlit("4");
        reveal_strlit("5");
        reveal_strlit("6");
        reveal_strlit("7");
        reveal_strlit("8");
        reveal_strlit("9");
    }
    if d == 0 { "0" }
    else if d == 1 { "1" }
    else if d == 2 { "2" }
    else if d == 3 { "3" }
    else if d == 4 { "4" }
    else if d == 5 { "5" }
    else if d == 6 { "6" }
    else if d == 7 { "7" }
    else if d == 8 { "8" }
    else { "9" }
}

/// Appends `n` in decimal.
fn push_decimal(s: &mut String, n: u32)
    ensures
        final(s)@ == old(s)@ + decimal(n as nat),
    decreases n,
{
    if n >= 10 {
        push_decimal(s, n / 10);
    }
    s.append(digit_str(n % 10));
}

/// Appends `ip` in dotted-decimal notation.
fn push_dotted(s: &mut String, ip: [u8; 4])
    ensures
        final(s)@ == old(s)@ + dotted(ip),
{
    proof {
        reveal_strlit(".");
    }
    push_decimal(s, ip[0] as u32);
    s.append(".");
    push_decimal(s, ip[1] as u32);
    s.append(".");
    push_decimal(s, ip[2] as u32);
    s.append(".");
    push_decimal(s, ip[3] as u32);
}

/// Appends `host:port` for the IPv4 host `ip`.
fn push_socket_address(s: &mut String, ip: [u8; 4], port: u16)
    ensures
        final(s)@ == old(s)@ + socket_address(ip, port),
{
    proof {
        reveal_strlit(":");
    }
    push_dotted(s, ip);
    s.append(":");
    push_decimal(s, port as u32);
}

/// The address that announcements are sent to: the IPv4 broadcast address
/// on the discovery port, `255.255.255.255:43357`.
pub fn broadcast_target() -> (r: String)
    ensures
        r@ == socket_address([255u8, 255u8, 255u8, 255u8], DYNAMIC_DISCOVER_PORT),
{
    let mut s = String::new();
    push_socket_address(&mut s, [255u8, 255u8, 255u8, 255u8], DYNAMIC_DISCOVER_PORT);
    s
}

/// The address that the discovery listener binds to: every interface on the
/// discovery port, `0.0.0.0:43357`.
pub fn discovery_bind_address() -> (r: String)
    ensures
        r@ == socket_address([0u8, 0u8, 0u8, 0u8], DYNAMIC_DISCOVER_PORT),
{
    let mut s = String::new();
    push_socket_address(&mut s, [0u8, 0u8, 0u8, 0u8], DYNAMIC_DISCOVER_PORT);
    s
}

/// The endpoint of a node's own message socket on this machine,
/// `tcp://localhost:<port>`.
pub fn local_endpoint(port: u16) -> (r: String)
    ensures
        r@ == "tcp://localhost:"@ + decimal(port as nat),
{
    let mut s = String::new();
    s.append("tcp://localhost:");
    push_decimal(&mut s, port as u32);
    s
}

/// The endpoint of a peer's message socket, `tcp://<ip>:<port>`.
pub fn peer_endpoint(ip: [u8; 4], port: u16) -> (r: String)
    ensures
        r@ == "tcp://"@ + socket_address(ip, port),
{
    let mut s = String::new();
    s.append("tcp://");
    push_socket_address(&mut s, ip, port);
    s
}

/// What a node announces in a discovery broadcast: its name and the port of
/// its message socket.
#[derive(Clone, PartialEq, Eq, Debug)]
pub struct NodeAddress {
    pub name: String,
    pub port: u16,
}

/// The announcement this library broadcasts: the name `Rust_Data` on port
/// 32121.
pub fn announcement() -> (a: NodeAddress)
    ensures
        a.name@ == "Rust_Data"@,
        a.port == 32121,
{
    NodeAddress { name: "Rust_Data".to_owned(), port: 32121 }
}

/// The address message that an announcement received from the IPv4 host
/// `sender` becomes: node `announced.name` is reachable at
/// `tcp://<sender>:<announced.port>`.
pub fn address_message(sender: [u8; 4], announced: &NodeAddress) -> (m: Message)
    ensures
        m matches Message::Address { topic, origin }
            && topic@ == "tcp://"@ + socket_address(sender, announced.port)
            && origin@ == announced.name@,
{
    Message::Address { topic: peer_endpoint(sender, announced.port), origin: announced.name.clone() }
}

} // verus!
