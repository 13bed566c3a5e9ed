//! The handshake that opens a tunnel through an upstream proxy, as a state
//! machine: the caller performs each action on the connection and hands
//! back what it read.
use vstd::prelude::*;
use crate::config::UpstreamProxyType;
use vstd::string::StringSliceAdditionalSpecFns;
use crate::text::{
    bytes_contain, decimal, hex_byte, push_decimal, push_hex_byte, push_str, seq_contains_piece,
};

verus! {

/// How much the caller reads after writing.
#[derive(Clone, Copy, Debug, PartialEq, Eq, Structural)]
pub enum ReadAmount {
    /// Exactly this many bytes (a short read is an error).
    Exact(usize),
    /// One read of at most this many bytes.
    UpTo(usize),
}

/// Where a handshake stands.
#[derive(Debug)]
pub enum HandshakeState {
    /// A `CONNECT` request went to an HTTP proxy; its reply is awaited.
    HttpAwaitReply { host: String, port: u16 },
    /// The SOCKS5 greeting went out; `request` is the connect request to
    /// send once the proxy accepts it.
    Socks5AwaitGreeting { request: Vec<u8> },
    /// The SOCKS5 connect request went out; the reply header is awaited.
    Socks5AwaitReply,
    /// The reply names a domain; the byte holding its length is awaited.
    Socks5AwaitNameLength,
    /// Nothing more to do.
    Finished,
}

/// What the caller does next.
#[derive(Debug)]
pub enum HandshakeAction {
    /// Write `send`, then read as `read` says and hand the bytes to `step`.
    SendAndRead { send: Vec<u8>, read: ReadAmount },
    /// Read exactly `n` bytes and hand them to `step`; if the read fails,
    /// hand over `n` zero bytes.
    ReadOrZero(usize),
    /// Read and discard exactly `n` bytes, ignoring a failure; the tunnel
    /// is then open.
    DrainThenReady(usize),
    /// The tunnel is open.
    Ready,
    /// The proxy refused; the handshake fails with this text.
    Fail(String),
}

// ---------------------------------------------------------------------
// Specification.
// ---------------------------------------------------------------------

pub open spec fn socks5_greeting() -> Seq<u8> {
    seq![5u8, 1u8, 0u8]
}

/// The SOCKS5 request to connect to a domain name: version 5, CONNECT,
/// reserved, address type 3, the name's length in one byte (taken modulo
/// 256), the name's UTF-8 bytes, and the port in network order.
pub open spec fn socks5_request(host_bytes: Seq<u8>, port: u16) -> Seq<u8> {
    seq![5u8, 1u8, 0u8, 3u8, (host_bytes.len() % 256) as u8] + host_bytes + seq![
        (port / 256) as u8,
        (port % 256) as u8,
    ]
}

/// The text of an HTTP `CONNECT` request for `host:port`.
pub open spec fn http_connect_text(host: Seq<char>, port: u16) -> Seq<char> {
    let target = host + seq![':'] + decimal(port as nat);
    "CONNECT "@ + target + " HTTP/1.1\r\nHost: "@ + target + "\r\n\r\n"@
}

/// An HTTP proxy accepts when its reply, read as (lossily decoded) text,
/// holds `200`. Lossy UTF-8 decoding keeps every ASCII byte as itself and
/// turns no other byte into an ASCII character, so the text holds `200`
/// exactly when the bytes hold `b"200"` in a row.
pub open spec fn http_reply_accepts(reply: Seq<u8>) -> bool {
    seq_contains_piece(reply, seq![50u8, 48u8, 48u8])
}

/// How many bytes of bound address follow a successful SOCKS5 reply of the
/// given address type, when that is known from the type alone.
pub open spec fn socks5_bound_len(atyp: u8) -> Option<usize> {
    if atyp == 1 {
        Some(6)
    } else if atyp == 4 {
        Some(18)
    } else {
        None
    }
}

/// The bytes `step` expects in a state.
pub open spec fn accepts_input(s: HandshakeState, data: Seq<u8>) -> bool {
    match s {
        HandshakeState::HttpAwaitReply { .. } => data.len() <= 4096,
        HandshakeState::Socks5AwaitGreeting { .. } => data.len() == 2,
        HandshakeState::Socks5AwaitReply => data.len() == 4,
        HandshakeState::Socks5AwaitNameLength => data.len() == 1,
        HandshakeState::Finished => false,
    }
}

// ---------------------------------------------------------------------
// Implementation.
// ---------------------------------------------------------------------

/// The HTTP `CONNECT` request for `host:port`.
pub fn http_connect_request(host: &str, port: u16) -> (r: String)
    ensures
        r@ == http_connect_text(host@, port),
{
    let mut t = String::from_str(host);
    push_str(&mut t, ":");
    push_decimal(&mut t, port as u32);
    let mut r = String::from_str("CONNECT ");
    push_str(&mut r, t.as_str());
    push_str(&mut r, " HTTP/1.1\r\nHost: ");
    push_str(&mut r, t.as_str());
    push_str(&mut r, "\r\n\r\n");
    proof {
        reveal_strlit(":");
    }
    assert(t@ =~= host@ + seq![':'] + decimal(port as nat));
    r
}

/// The SOCKS5 connect request for `host:port`.
pub fn socks5_connect_request(host: &str, port: u16) -> (r: Vec<u8>)
    ensures
        r@ == socks5_request(host.spec_bytes(), port),
{
    let hb = host.as_bytes();
    let mut r: Vec<u8> = Vec::new();
    r.push(5u8);
    r.push(1u8);
    r.push(0u8);
    r.push(3u8);
    r.push((hb.len() % 256) as u8);
    let mut i: usize = 0;
    while i < hb.len()
        invariant
            i <= hb@.len(),
            r@ == seq![5u8, 1u8, 0u8, 3u8, (hb@.len() % 256) as u8] + hb@.subrange(0, i as int),
        decreases hb@.len() - i,
    {
        r.push(hb[i]);
        i = i + 1;
        assert(r@ =~= seq![5u8, 1u8, 0u8, 3u8, (hb@.len() % 256) as u8] + hb@.subrange(0, i as int));
    }
    r.push((port / 256) as u8);
    r.push((port % 256) as u8);
    assert(hb@.subrange(0, hb@.len() as int) == hb@);
    assert(r@ =~= socks5_request(host.spec_bytes(), port));
    r
}

/// The text reported when an HTTP proxy refuses the tunnel.
fn http_rejected_message(host: &str, port: u16) -> (r: String)
    ensures
        r@ == "upstream rejected CONNECT to "@ + host@ + seq![':'] + decimal(port as nat),
{
    let mut r = String::from_str("upstream rejected CONNECT to ");
    push_str(&mut r, host);
    push_str(&mut r, ":");
    push_decimal(&mut r, port as u32);
    proof {
        reveal_strlit(":");
    }
    assert(r@ =~= "upstream rejected CONNECT to "@ + host@ + seq![':'] + decimal(port as nat));
    r
}

/// The first step of a handshake with an upstream proxy of the given kind,
/// for a tunnel to `host:port`.
pub fn start_handshake(kind: UpstreamProxyType, host: &str, port: u16) -> (r: (
    HandshakeState,
    HandshakeAction,
))
    ensures
        match kind {
            UpstreamProxyType::Http => {
                &&& r.0 matches HandshakeState::HttpAwaitReply { host: h, port: p }
                &&& h@ == host@ && p == port
                &&& r.1 matches HandshakeAction::SendAndRead { send, read }
                &&& send@ == http_connect_request_bytes(host@, port)
                &&& read == ReadAmount::UpTo(4096)
            },
            UpstreamProxyType::Socks5 => {
                &&& r.0 matches HandshakeState::Socks5AwaitGreeting { request }
                &&& request@ == socks5_request(host.spec_bytes(), port)
                &&& r.1 matches HandshakeAction::SendAndRead { send, read }
                &&& send@ == socks5_greeting()
                &&& read == ReadAmount::Exact(2)
            },
        },
{
    match kind {
        UpstreamProxyType::Http => {
            let text = http_connect_request(host, port);
            let send = text.as_str().as_bytes_vec();
            (
                HandshakeState::HttpAwaitReply { host: String::from_str(host), port },
                HandshakeAction::SendAndRead { send, read: ReadAmount::UpTo(4096) },
            )
        },
        UpstreamProxyType::Socks5 => {
            let request = socks5_connect_request(host, port);
            let mut send: Vec<u8> = Vec::new();
            send.push(5u8);
            send.push(1u8);
            send.push(0u8);
            assert(send@ =~= socks5_greeting());
            (
                HandshakeState::Socks5AwaitGreeting { request },
                HandshakeAction::SendAndRead { send, read: ReadAmount::Exact(2) },
            )
        },
    }
}

/// The UTF-8 bytes of the HTTP `CONNECT` request.
pub open spec fn http_connect_request_bytes(host: Seq<char>, port: u16) -> Seq<u8> {
    vstd::utf8::encode_utf8(http_connect_text(host, port))
}

/// The next step of a handshake, given what was read.
pub fn step(state: HandshakeState, data: &[u8]) -> (r: (HandshakeState, HandshakeAction))
    requires
        accepts_input(state, data@),
    ensures
        match state {
            HandshakeState::HttpAwaitReply { host, port } => {
                &&& r.0 is Finished
                &&& if http_reply_accepts(data@) {
                    r.1 is Ready
                } else {
                    r.1 matches HandshakeAction::Fail(e) && e@ == "upstream rejected CONNECT to "@
                        + host@ + seq![':'] + decimal(port as nat)
                }
            },
            HandshakeState::Socks5AwaitGreeting { request } => if data@ == seq![5u8, 0u8] {
                &&& r.0 is Socks5AwaitReply
                &&& r.1 matches HandshakeAction::SendAndRead { send, read }
                &&& send@ == request@
                &&& read == ReadAmount::Exact(4)
            } else {
                &&& r.0 is Finished
                &&& r.1 matches HandshakeAction::Fail(e) && e@ == "socks5 auth failed"@
            },
            HandshakeState::Socks5AwaitReply => if data@[1] != 0 {
                &&& r.0 is Finished
                &&& r.1 matches HandshakeAction::Fail(e) && e@ == "socks5 connect failed: 0x"@
                    + hex_byte(data@[1])
            } else if data@[3] == 3 {
                &&& r.0 is Socks5AwaitNameLength
                &&& r.1 == HandshakeAction::ReadOrZero(1)
            } else {
                &&& r.0 is Finished
                &&& match socks5_bound_len(data@[3]) {
                    Some(n) => r.1 == HandshakeAction::DrainThenReady(n),
                    None => r.1 is Ready,
                }
            },
            HandshakeState::Socks5AwaitNameLength => {
                &&& r.0 is Finished
                &&& r.1 == HandshakeAction::DrainThenReady((data@[0] + 2) as usize)
            },
            HandshakeState::Finished => false,
        },
{
    match state {
        HandshakeState::HttpAwaitReply { host, port } => {
            let mut pattern: Vec<u8> = Vec::new();
            pattern.push(50u8);
            pattern.push(48u8);
            pattern.push(48u8);
            assert(pattern@ =~= seq![50u8, 48u8, 48u8]);
            if bytes_contain(data, pattern.as_slice()) {
                (HandshakeState::Finished, HandshakeAction::Ready)
            } else {
                let e = http_rejected_message(host.as_str(), port);
                (HandshakeState::Finished, HandshakeAction::Fail(e))
            }
        },
        HandshakeState::Socks5AwaitGreeting { request } => {
            if data[0] == 5u8 && data[1] == 0u8 {
                assert(data@ =~= seq![5u8, 0u8]);
                (
                    HandshakeState::Socks5AwaitReply,
                    HandshakeAction::SendAndRead { send: request, read: ReadAmount::Exact(4) },
                )
            } else {
                (HandshakeState::Finished, HandshakeAction::Fail(String::from_str("socks5 auth failed")))
            }
        },
        HandshakeState::Socks5AwaitReply => {
            if data[1] != 0u8 {
                let mut e = String::from_str("socks5 connect failed: 0x");
                push_hex_byte(&mut e, data[1]);
                (HandshakeState::Finished, HandshakeAction::Fail(e))
            } else if data[3] == 1u8 {
                (HandshakeState::Finished, HandshakeAction::DrainThenReady(6))
            } else if data[3] == 3u8 {
                (HandshakeState::Socks5AwaitNameLength, HandshakeAction::ReadOrZero(1))
            } else if data[3] == 4u8 {
                (HandshakeState::Finished, HandshakeAction::DrainThenReady(18))
            } else {
                (HandshakeState::Finished, HandshakeAction::Ready)
            }
        },
        HandshakeState::Socks5AwaitNameLength => {
            (HandshakeState::Finished, HandshakeAction::DrainThenReady((data[0] as usize) + 2))
        },
        HandshakeState::Finished => (HandshakeState::Finished, HandshakeAction::Ready),
    }
}

// ---------------------------------------------------------------------
// Laws.
// ---------------------------------------------------------------------

/// An HTTP proxy's reply opens the tunnel exactly when the bytes `2`, `0`,
/// `0` (50, 48, 48) stand next to each other somewhere in it, whatever the
/// status line's version or wording.
pub proof fn law_http_reply_accepts(reply: Seq<u8>)
    ensures
        http_reply_accepts(reply) <==> exists|i: int|
            0 <= i && i + 3 <= reply.len() && #[trigger] reply[i] == 50u8 && reply[i + 1] == 48u8
                && reply[i + 2] == 48u8,
{
    let n = seq![50u8, 48u8, 48u8];
    if http_reply_accepts(reply) {
        let i = choose|i: int|
            0 <= i && i + n.len() <= reply.len() && #[trigger] reply.subrange(i, i + n.len()) == n;
        assert(reply.subrange(i, i + 3)[0] == reply[i]);
        assert(reply.subrange(i, i + 3)[1] == reply[i + 1]);
        assert(reply.subrange(i, i + 3)[2] == reply[i + 2]);
    }
    if exists|i: int|
        0 <= i && i + 3 <= reply.len() && #[trigger] reply[i] == 50u8 && reply[i + 1] == 48u8
            && reply[i + 2] == 48u8 {
        let i = choose|i: int|
            0 <= i && i + 3 <= reply.len() && #[trigger] reply[i] == 50u8 && reply[i + 1] == 48u8
                && reply[i + 2] == 48u8;
        assert(reply.subrange(i, i + n.len()) =~= n);
    }
}

} // verus!
