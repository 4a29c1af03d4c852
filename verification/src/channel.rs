//! The WebSocket channel that the desktop daemon serves and the relay forwards:
//! the upgrade handshake, what to do with each inbound frame, and the answers to
//! channel messages.

use vstd::prelude::*;

use crate::http::{
    eq_ignore_ascii_case, eq_ignore_case, header_val, header_val_spec, request_line,
    request_line_spec, ws_key_from_query, ws_key_from_query_spec,
};
use crate::link::{hex_spec, Envelope, Message, PairingKey, Session, PROTOCOL_VERSION};
use crate::text::{chars_of, contains, dec, find_in, push_dec, push_str};
use crate::wire::{
    announced_len, decode_frame, decode_spec, encode_frame, encode_masked_frame, frame_header,
    frame_spec, header_len, masked_frame_spec,
    ws_accept, ws_accept_spec, DecodedFrame, MAX_FRAME_PAYLOAD,
};
use vstd::utf8::encode_utf8;

verus! {

/// Name under which the desktop daemon answers greetings.
pub const SERVER_ID: &'static str = "dsh-desktop";

/// The header that carries the client's WebSocket key.
pub const WS_KEY_HEADER: &'static str = "Sec-WebSocket-Key";

/// What each channel connection knows: the pairing key and the DSH home (for the
/// session list and the record of instructions).
pub struct ChannelCtx {
    pub key: PairingKey,
    pub home_dir: Option<String>,
}

// ------------------------------------------------------------------ handshake

/// Why an upgrade request is turned away.
#[derive(Clone, Copy, PartialEq, Eq, Debug)]
pub enum Refusal {
    /// The relay found no room key in the request line.
    BadRequest,
    /// The pairing key in the query does not match.
    Unauthorized,
    /// No `Sec-WebSocket-Key` header.
    UpgradeRequired,
}

/// The full HTTP response that refuses an upgrade.
pub open spec fn refusal_text(r: Refusal) -> Seq<char> {
    match r {
        Refusal::BadRequest => "HTTP/1.1 400 Bad Request\r\nContent-Length: 0\r\nConnection: close\r\n\r\n"@,
        Refusal::Unauthorized => "HTTP/1.1 401 Unauthorized\r\nContent-Length: 0\r\nConnection: close\r\n\r\n"@,
        Refusal::UpgradeRequired => "HTTP/1.1 426 Upgrade Required\r\nContent-Length: 0\r\nConnection: close\r\n\r\n"@,
    }
}

/// The full HTTP response that refuses an upgrade.
pub fn refusal_response(r: Refusal) -> (s: String)
    ensures
        s@ == refusal_text(r),
{
    let mut s = String::new();
    match r {
        Refusal::BadRequest => push_str(
            &mut s,
            "HTTP/1.1 400 Bad Request\r\nContent-Length: 0\r\nConnection: close\r\n\r\n",
        ),
        Refusal::Unauthorized => push_str(
            &mut s,
            "HTTP/1.1 401 Unauthorized\r\nContent-Length: 0\r\nConnection: close\r\n\r\n",
        ),
        Refusal::UpgradeRequired => push_str(
            &mut s,
            "HTTP/1.1 426 Upgrade Required\r\nContent-Length: 0\r\nConnection: close\r\n\r\n",
        ),
    }
    assert(s@ =~= refusal_text(r));
    s
}

/// The `101 Switching Protocols` response that accepts an upgrade.
pub open spec fn switching_text(accept: Seq<char>) -> Seq<char> {
    "HTTP/1.1 101 Switching Protocols\r\nUpgrade: websocket\r\nConnection: Upgrade\r\nSec-WebSocket-Accept: "@
        + accept + "\r\n\r\n"@
}

/// The `101 Switching Protocols` response that accepts an upgrade.
pub fn switching_response(accept: &str) -> (s: String)
    ensures
        s@ == switching_text(accept@),
{
    let mut s = String::new();
    push_str(
        &mut s,
        "HTTP/1.1 101 Switching Protocols\r\nUpgrade: websocket\r\nConnection: Upgrade\r\nSec-WebSocket-Accept: ",
    );
    push_str(&mut s, accept);
    push_str(&mut s, "\r\n\r\n");
    assert(s@ =~= switching_text(accept@));
    s
}

/// The accept value for the client key of a head, when the head carries a non-empty one.
pub open spec fn client_accept(head: Seq<char>) -> Option<Seq<char>> {
    match header_val_spec(head, WS_KEY_HEADER@) {
        Some(v) => if v.len() > 0 {
            Some(ws_accept_spec(encode_utf8(v)))
        } else {
            None
        },
        None => None,
    }
}

/// The accept value for the client key of a head (`None` without a non-empty key).
fn accept_for(head: &str) -> (r: Option<String>)
    ensures
        r matches Some(a) ==> client_accept(head@) == Some(a@),
        r is None ==> client_accept(head@) is None,
{
    match header_val(head, WS_KEY_HEADER) {
        Some(v) => {
            if v.as_str().is_empty() {
                None
            } else {
                Some(ws_accept(v.as_str()))
            }
        },
        None => None,
    }
}

/// How the desktop daemon answers an upgrade: refused unless the query key equals the
/// pairing key up to ASCII case, then refused without a client key, else the accept value.
pub open spec fn channel_handshake_spec(
    head: Seq<char>,
    ws_key: Option<Seq<char>>,
    key_hex: Seq<char>,
) -> Result<Seq<char>, Refusal> {
    if !(ws_key matches Some(k) && eq_ignore_case(k, key_hex)) {
        Err(Refusal::Unauthorized)
    } else {
        match client_accept(head) {
            Some(a) => Ok(a),
            None => Err(Refusal::UpgradeRequired),
        }
    }
}

/// The desktop daemon's answer to an upgrade request with head `head` and query key
/// `ws_key`: the accept value, or why it is refused.
pub fn channel_handshake(head: &str, ws_key: Option<&str>, key: &PairingKey) -> (r: Result<
    String,
    Refusal,
>)
    ensures
        r matches Ok(a) ==> channel_handshake_spec(head@, opt_str_view(ws_key), hex_spec(key.0@))
            == Ok::<Seq<char>, Refusal>(a@),
        r matches Err(e) ==> channel_handshake_spec(head@, opt_str_view(ws_key), hex_spec(key.0@))
            == Err::<Seq<char>, Refusal>(e),
{
    let hex = key.to_hex();
    let authorized = match ws_key {
        Some(k) => eq_ignore_ascii_case(k, hex.as_str()),
        None => false,
    };
    if !authorized {
        return Err(Refusal::Unauthorized);
    }
    match accept_for(head) {
        Some(a) => Ok(a),
        None => Err(Refusal::UpgradeRequired),
    }
}

/// The view of an optional string slice.
pub open spec fn opt_str_view(o: Option<&str>) -> Option<Seq<char>> {
    match o {
        Some(s) => Some(s@),
        None => None,
    }
}

/// How the relay answers an upgrade: refused without a room key in the request line,
/// refused without a client key, else the room and the accept value.
pub open spec fn relay_handshake_spec(head: Seq<char>) -> Result<(Seq<char>, Seq<char>), Refusal> {
    let room = match request_line_spec(head) {
        Some(line) => ws_key_from_query_spec(line),
        None => None,
    };
    match room {
        Some(k) => if k.len() > 0 {
            match client_accept(head) {
                Some(a) => Ok((k, a)),
                None => Err(Refusal::UpgradeRequired),
            }
        } else {
            Err(Refusal::BadRequest)
        },
        None => Err(Refusal::BadRequest),
    }
}

/// The relay's answer to an upgrade request: `(room key, accept value)`, or why it is
/// refused.
pub fn relay_handshake(head: &str) -> (r: Result<(String, String), Refusal>)
    ensures
        r matches Ok((k, a)) ==> relay_handshake_spec(head@) == Ok::<
            (Seq<char>, Seq<char>),
            Refusal,
        >((k@, a@)),
        r matches Err(e) ==> relay_handshake_spec(head@) == Err::<(Seq<char>, Seq<char>), Refusal>(
            e,
        ),
{
    let room = match request_line(head) {
        Some(line) => ws_key_from_query(line.as_str()),
        None => None,
    };
    match room {
        Some(k) => {
            if k.as_str().is_empty() {
                return Err(Refusal::BadRequest);
            }
            match accept_for(head) {
                Some(a) => Ok((k, a)),
                None => Err(Refusal::UpgradeRequired),
            }
        },
        None => Err(Refusal::BadRequest),
    }
}

// ------------------------------------------------------------------ inbound frames

/// What the start of a byte buffer holds for a frame reader that refuses payloads over
/// [`MAX_FRAME_PAYLOAD`].
pub enum Inbound {
    /// More bytes are needed.
    Incomplete,
    /// The header announces a payload over the limit.
    TooLarge,
    /// A whole frame.
    Frame(DecodedFrame),
}

/// See [`Inbound`]: `None` stands for an incomplete buffer, `Some(None)` for a payload
/// over the limit, `Some(Some(..))` for a frame as [`decode_spec`] reads it.
pub open spec fn inbound_spec(buf: Seq<u8>) -> Option<Option<(u8, u64, Seq<u8>, nat)>> {
    if buf.len() < 2 || buf.len() < header_len(buf[1]) {
        None
    } else if announced_len(buf) > MAX_FRAME_PAYLOAD {
        Some(None)
    } else {
        match decode_spec(buf, MAX_FRAME_PAYLOAD) {
            Some(f) => Some(Some(f)),
            None => None,
        }
    }
}

/// Reads one frame from the start of `buf` as the desktop channel does: a header that
/// announces more than [`MAX_FRAME_PAYLOAD`] bytes ends the connection.
pub fn read_inbound(buf: &[u8]) -> (r: Inbound)
    ensures
        r is Incomplete <==> inbound_spec(buf@) is None,
        r is TooLarge <==> inbound_spec(buf@) == Some(None::<(u8, u64, Seq<u8>, nat)>),
        r matches Inbound::Frame(f) ==> inbound_spec(buf@) == Some(
            Some((f.head, f.len, f.payload@, f.consumed as nat)),
        ),
{
    match frame_header(buf) {
        None => Inbound::Incomplete,
        Some((_, len)) => {
            if len > MAX_FRAME_PAYLOAD {
                Inbound::TooLarge
            } else {
                match decode_frame(buf, MAX_FRAME_PAYLOAD) {
                    Some(f) => Inbound::Frame(f),
                    None => Inbound::Incomplete,
                }
            }
        },
    }
}

/// What the desktop channel does with one inbound frame.
pub enum ChannelStep {
    /// Write these bytes and close the connection.
    Close(Vec<u8>),
    /// Write these bytes and go on.
    Reply(Vec<u8>),
    /// Hand the payload to [`dispatch_text`].
    Dispatch,
    /// Nothing.
    Ignore,
}

/// The payload of the close frame the daemon answers a close with: status 1000, "bye".
pub open spec fn bye_payload() -> Seq<u8> {
    seq![0x03u8, 0xe8u8, 0x62u8, 0x79u8, 0x65u8]
}

/// The desktop channel's step for a frame with first header byte `head`: a close is
/// answered with a close frame (1000, "bye"), a ping with a frame of opcode `0x8A`
/// carrying the same payload, text and binary frames are dispatched, others ignored.
pub fn channel_step(head: u8, payload: &[u8]) -> (r: ChannelStep)
    ensures
        (head & 0x0fu8) == 0x8u8 ==> (r matches ChannelStep::Close(b) && b@ == frame_spec(
            0x8u8,
            bye_payload(),
        )),
        (head & 0x0fu8) == 0x9u8 ==> (r matches ChannelStep::Reply(b) && b@ == frame_spec(
            0x8au8,
            payload@,
        )),
        ((head & 0x0fu8) == 0x1u8 || (head & 0x0fu8) == 0x2u8) ==> r is Dispatch,
        !((head & 0x0fu8) == 0x8u8 || (head & 0x0fu8) == 0x9u8 || (head & 0x0fu8) == 0x1u8 || (
        head & 0x0fu8) == 0x2u8) ==> r is Ignore,
{
    let opcode = head & 0x0fu8;
    if opcode == 0x8u8 {
        let bye: [u8; 5] = [0x03u8, 0xe8u8, 0x62u8, 0x79u8, 0x65u8];
        assert(bye@ =~= bye_payload());
        ChannelStep::Close(encode_frame(0x8u8, bye.as_slice()))
    } else if opcode == 0x9u8 {
        ChannelStep::Reply(encode_frame(0x8au8, payload))
    } else if opcode == 0x1u8 || opcode == 0x2u8 {
        ChannelStep::Dispatch
    } else {
        ChannelStep::Ignore
    }
}

/// What the relay does with one frame read from one side.
pub enum RelayStep {
    /// Write these bytes (a pong, answered by the relay itself) to the other side and go on.
    Answer(Vec<u8>),
    /// Write these bytes to the other side and stop this direction.
    ForwardAndStop(Vec<u8>),
    /// Write these bytes to the other side and go on.
    Forward(Vec<u8>),
}

/// The relay's step for a frame whose first header byte is `head` (FIN bit kept): exactly
/// `0x09` is answered with a pong, exactly `0x08` is passed on and ends the direction,
/// anything else is passed on with the same first byte.
pub fn relay_step(head: u8, payload: &[u8]) -> (r: RelayStep)
    ensures
        head == 0x9u8 ==> (r matches RelayStep::Answer(b) && b@ == frame_spec(0xau8, payload@)),
        head == 0x8u8 ==> (r matches RelayStep::ForwardAndStop(b) && b@ == frame_spec(
            0x8u8,
            payload@,
        )),
        head != 0x9u8 && head != 0x8u8 ==> (r matches RelayStep::Forward(b) && b@ == frame_spec(
            head,
            payload@,
        )),
{
    if head == 0x9u8 {
        RelayStep::Answer(encode_frame(0xau8, payload))
    } else if head == 0x8u8 {
        RelayStep::ForwardAndStop(encode_frame(0x8u8, payload))
    } else {
        RelayStep::Forward(encode_frame(head, payload))
    }
}

/// Law: a complete frame that one end sends through the relay (masked, as clients send)
/// reaches the other end unmasked with the same first byte and payload, whatever follows
/// it on either connection; the relay only answers or stops on a first byte of exactly
/// `0x09` or `0x08`, which a complete frame never has.
pub proof fn law_relay_passes_frames_on(op: u8, p: Seq<u8>, mask: Seq<u8>, rest: Seq<u8>, rest2: Seq<u8>)
    requires
        mask.len() == 4,
        p.len() <= MAX_FRAME_PAYLOAD,
    ensures
        decode_spec(masked_frame_spec(op, p, mask) + rest, MAX_FRAME_PAYLOAD) matches Some(
            (h, _, q, _),
        ) && h == (0x80u8 | op) && q == p && h != 0x8u8 && h != 0x9u8 && decode_spec(
            frame_spec(h, q) + rest2,
            MAX_FRAME_PAYLOAD,
        ) == Some((0x80u8 | op, p.len() as u64, p, frame_spec(h, q).len())),
{
    crate::wire::law_masked_frame_roundtrip(op, p, mask, rest, MAX_FRAME_PAYLOAD);
    let h = 0x80u8 | op;
    crate::wire::law_frame_roundtrip(h, p, rest2, MAX_FRAME_PAYLOAD);
    assert((0x80u8 | h) == h && h != 0x8u8 && h != 0x9u8) by (bit_vector)
        requires
            h == (0x80u8 | op),
    ;
}

// ------------------------------------------------------------------ messages

/// What the daemon does with a channel message.
pub enum Dispatch {
    /// Send `ack`, then the session list (see [`greet_replies`]).
    Greet { ack: Envelope },
    /// Record the instruction, then send `ack`.
    Record { session_id: Option<String>, text: String, ack: Envelope },
    /// Nothing.
    Ignore,
}

/// The name the daemon greets with: `dsh-desktop@<host>`.
pub open spec fn greeting_name(host: Seq<char>) -> Seq<char> {
    SERVER_ID@ + "@"@ + host
}

/// The daemon's answer to a decoded message (`None` when the text was no envelope of the
/// current version): a greeting is acknowledged with the daemon's name, an instruction is
/// recorded and acknowledged, everything else is ignored.
pub fn dispatch_text(msg: Option<Envelope>, host: &str) -> (r: Dispatch)
    ensures
        match msg {
            Some(e) => match e.msg {
                Message::Hello { .. } => r matches Dispatch::Greet { ack } && ack.ver
                    == PROTOCOL_VERSION && (ack.msg matches Message::HelloAck { server_id, name }
                    && server_id@ == SERVER_ID@ && name@ == greeting_name(host@)),
                Message::SendMsg { session_id, text } => r matches Dispatch::Record {
                    session_id: s,
                    text: t,
                    ack,
                } && s == session_id && t == text && ack == (Envelope {
                    ver: PROTOCOL_VERSION,
                    msg: Message::Ack { ok: true, reason: None },
                }),
                _ => r is Ignore,
            },
            None => r is Ignore,
        },
{
    match msg {
        Some(e) => match e.msg {
            Message::Hello { .. } => {
                let mut name = String::new();
                push_str(&mut name, SERVER_ID);
                push_str(&mut name, "@");
                push_str(&mut name, host);
                let mut server_id = String::new();
                push_str(&mut server_id, SERVER_ID);
                assert(server_id@ =~= SERVER_ID@);
                Dispatch::Greet { ack: Envelope::wrap(Message::HelloAck { server_id, name }) }
            },
            Message::SendMsg { session_id, text } => Dispatch::Record {
                session_id,
                text,
                ack: Envelope::wrap(Message::Ack { ok: true, reason: None }),
            },
            _ => Dispatch::Ignore,
        },
        None => Dispatch::Ignore,
    }
}

/// The messages that answer a greeting, in order: the acknowledgement, then a snapshot of
/// the daemon's sessions.
pub fn greet_replies(ack: Envelope, sessions: Vec<Session>) -> (v: Vec<Envelope>)
    ensures
        v@ == seq![ack, Envelope { ver: PROTOCOL_VERSION, msg: Message::SessionSnap { sessions } }],
{
    let mut v: Vec<Envelope> = Vec::new();
    v.push(ack);
    v.push(Envelope::wrap(Message::SessionSnap { sessions }));
    assert(v@ =~= seq![ack, Envelope { ver: PROTOCOL_VERSION, msg: Message::SessionSnap { sessions } }]);
    v
}

// ------------------------------------------------------------------ relay client

/// The upgrade request with which the daemon joins the relay room of its key.
pub open spec fn relay_request_spec(key_hex: Seq<char>, host: Seq<char>, port: u16, sec_key: Seq<char>) -> Seq<
    char,
> {
    "GET /ws?key="@ + key_hex + " HTTP/1.1\r\nHost: "@ + host + ":"@ + dec(port as nat)
        + "\r\nUpgrade: websocket\r\nConnection: Upgrade\r\nSec-WebSocket-Key: "@ + sec_key
        + "\r\nSec-WebSocket-Version: 13\r\n\r\n"@
}

/// The upgrade request with which the daemon joins the relay room of its key.
pub fn relay_request(key: &PairingKey, host: &str, port: u16, sec_key: &str) -> (s: String)
    ensures
        s@ == relay_request_spec(hex_spec(key.0@), host@, port, sec_key@),
{
    let hex = key.to_hex();
    let mut s = String::new();
    push_str(&mut s, "GET /ws?key=");
    push_str(&mut s, hex.as_str());
    push_str(&mut s, " HTTP/1.1\r\nHost: ");
    push_str(&mut s, host);
    push_str(&mut s, ":");
    push_dec(&mut s, port as u64);
    push_str(&mut s, "\r\nUpgrade: websocket\r\nConnection: Upgrade\r\nSec-WebSocket-Key: ");
    push_str(&mut s, sec_key);
    push_str(&mut s, "\r\nSec-WebSocket-Version: 13\r\n\r\n");
    assert(s@ =~= relay_request_spec(hex_spec(key.0@), host@, port, sec_key@));
    s
}

/// Whether the relay's status line accepts the upgrade: it contains `101`.
pub fn handshake_accepted(status_line: &str) -> (b: bool)
    ensures
        b == contains(status_line@, "101"@),
{
    let v = chars_of(status_line);
    let p = chars_of("101");
    find_in(&v, &p, 0).is_some()
}

/// What the daemon does with one frame that the relay passed on.
pub enum ClientStep {
    /// End the session.
    Stop,
    /// Write these bytes and go on.
    Send(Vec<u8>),
    /// Hand the payload to [`dispatch_text`].
    Dispatch,
    /// Nothing.
    Ignore,
}

/// The daemon's step for a frame from the relay with first header byte `head`: a close
/// ends the session, a ping is answered with a pong masked by `mask`, text and binary
/// frames are dispatched, others ignored.
pub fn client_step(head: u8, payload: &[u8], mask: [u8; 4]) -> (r: ClientStep)
    ensures
        (head & 0x0fu8) == 0x8u8 ==> r is Stop,
        (head & 0x0fu8) == 0x9u8 ==> (r matches ClientStep::Send(b) && b@ == masked_frame_spec(
            0xau8,
            payload@,
            mask@,
        )),
        ((head & 0x0fu8) == 0x1u8 || (head & 0x0fu8) == 0x2u8) ==> r is Dispatch,
        !((head & 0x0fu8) == 0x8u8 || (head & 0x0fu8) == 0x9u8 || (head & 0x0fu8) == 0x1u8 || (
        head & 0x0fu8) == 0x2u8) ==> r is Ignore,
{
    let opcode = head & 0x0fu8;
    if opcode == 0x8u8 {
        ClientStep::Stop
    } else if opcode == 0x9u8 {
        ClientStep::Send(encode_masked_frame(0xau8, payload, mask))
    } else if opcode == 0x1u8 || opcode == 0x2u8 {
        ClientStep::Dispatch
    } else {
        ClientStep::Ignore
    }
}

/// An answer of the daemon to a relayed message, framed as text and masked by `mask`, as
/// every frame a client sends is.
pub fn client_reply(text: &[u8], mask: [u8; 4]) -> (b: Vec<u8>)
    ensures
        b@ == masked_frame_spec(0x1u8, text@, mask@),
{
    encode_masked_frame(0x1u8, text, mask)
}

/// The payload of the close frame the daemon sends when its relay session ends:
/// status 1000, "ok".
pub open spec fn ok_payload() -> Seq<u8> {
    seq![0x03u8, 0xe8u8, 0x6fu8, 0x6bu8]
}

/// The masked close frame that ends a relay session.
pub fn client_close_frame(mask: [u8; 4]) -> (b: Vec<u8>)
    ensures
        b@ == masked_frame_spec(0x8u8, ok_payload(), mask@),
{
    let ok: [u8; 4] = [0x03u8, 0xe8u8, 0x6fu8, 0x6bu8];
    assert(ok@ =~= ok_payload());
    encode_masked_frame(0x8u8, ok.as_slice(), mask)
}

} // verus!
