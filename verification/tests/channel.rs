use dsh_mobile::channel::{
    channel_handshake, channel_step, client_close_frame, client_reply, client_step, dispatch_text, greet_replies,
    handshake_accepted,
    read_inbound, refusal_response, relay_handshake, relay_request, relay_step, switching_response,
    ChannelStep, ClientStep, Dispatch, Inbound, Refusal, RelayStep,
};
use dsh_mobile::http::{find_double_crlf, header_val, query_value, request_line, ws_key_from_query};
use dsh_mobile::link::{Envelope, Message, PairingKey, Role};
use dsh_mobile::sha1::sha1;
use dsh_mobile::wire::{base64, decode_frame, encode_frame, encode_masked_frame, ws_accept, WS_GUID};

#[test]
fn handshake_accept() {
    let key = b"dGhlIHNhbXBsZSBub25jZQ==";
    let mut input = key.to_vec();
    input.extend_from_slice(WS_GUID.as_bytes());
    assert_eq!(base64(&sha1(&input)), "s3pPLMBiTxaQ9kYGzzhZRbK+xOo=");
}

#[test]
fn head_split() {
    let s = b"GET /ws HTTP/1.1\r\nHost: x\r\nUpgrade: websocket\r\n\r\nEXTRA";
    let pos = find_double_crlf(s).unwrap();
    assert_eq!(&s[..pos + 4], b"GET /ws HTTP/1.1\r\nHost: x\r\nUpgrade: websocket\r\n\r\n");
    assert_eq!(&s[pos + 4..], b"EXTRA");
}

#[test]
fn accept_vector() {
    let key = "dGhlIHNhbXBsZSBub25jZQ==";
    assert_eq!(ws_accept(key), "s3pPLMBiTxaQ9kYGzzhZRbK+xOo=");
}

#[test]
fn key_from_query() {
    assert_eq!(ws_key_from_query("GET /ws?key=abcd1234 HTTP/1.1"), Some("abcd1234".to_string()));
    assert_eq!(ws_key_from_query("GET /ws HTTP/1.1"), None);
}

#[test]
fn sha1_and_base64_vectors() {
    assert_eq!(base64(&sha1(b"")), "2jmj7l5rSw0yVb/vlWAYkK/YBwk=");
    assert_eq!(base64(&sha1(b"abc")), "qZk+NkcGgWq6PiVxeFDCbJzQ2J0=");
    let long = vec![b'a'; 1000];
    assert_eq!(base64(&sha1(&long)), "KR6abGaZSUm1e6XmUDYemPw2sbo=");
    assert_eq!(base64(b"f"), "Zg==");
    assert_eq!(base64(b"fo"), "Zm8=");
    assert_eq!(base64(b"foo"), "Zm9v");
}

#[test]
fn headers_and_request_line() {
    let head = "GET /ws?key=k HTTP/1.1\r\nHost: x\r\nsec-websocket-key:  abc \r\n\r\n";
    assert_eq!(header_val(head, "Sec-WebSocket-Key"), Some("abc".to_string()));
    assert_eq!(header_val(head, "Missing"), None);
    assert_eq!(request_line(head), Some("GET /ws?key=k HTTP/1.1".to_string()));
    assert_eq!(query_value("key=a&x=1&key=b", "key"), Some("b".to_string()));
    assert_eq!(query_value("x=1", "key"), None);
}

const HEAD: &str = "GET /ws?key=ab HTTP/1.1\r\nHost: h\r\nSec-WebSocket-Key: dGhlIHNhbXBsZSBub25jZQ==\r\n\r\n";

#[test]
fn channel_handshake_outcomes() {
    let k = PairingKey([0xab; 20]);
    let hex = k.to_hex();
    let upper = hex.to_uppercase();
    assert_eq!(channel_handshake(HEAD, Some(&upper), &k), Ok("s3pPLMBiTxaQ9kYGzzhZRbK+xOo=".to_string()));
    assert_eq!(channel_handshake(HEAD, None, &k), Err(Refusal::Unauthorized));
    assert_eq!(channel_handshake(HEAD, Some("ab"), &k), Err(Refusal::Unauthorized));
    assert_eq!(
        channel_handshake("GET /ws HTTP/1.1\r\nHost: h\r\n\r\n", Some(&hex), &k),
        Err(Refusal::UpgradeRequired)
    );
    assert_eq!(
        refusal_response(Refusal::Unauthorized),
        "HTTP/1.1 401 Unauthorized\r\nContent-Length: 0\r\nConnection: close\r\n\r\n"
    );
    assert_eq!(
        refusal_response(Refusal::UpgradeRequired),
        "HTTP/1.1 426 Upgrade Required\r\nContent-Length: 0\r\nConnection: close\r\n\r\n"
    );
    assert_eq!(
        switching_response("abc"),
        "HTTP/1.1 101 Switching Protocols\r\nUpgrade: websocket\r\nConnection: Upgrade\r\nSec-WebSocket-Accept: abc\r\n\r\n"
    );
}

#[test]
fn relay_handshake_outcomes() {
    assert_eq!(
        relay_handshake(HEAD),
        Ok(("ab".to_string(), "s3pPLMBiTxaQ9kYGzzhZRbK+xOo=".to_string()))
    );
    assert_eq!(relay_handshake("GET /ws HTTP/1.1\r\n\r\n"), Err(Refusal::BadRequest));
    assert_eq!(relay_handshake("GET /ws?key=ab HTTP/1.1\r\nHost: h\r\n\r\n"), Err(Refusal::UpgradeRequired));
    assert_eq!(
        refusal_response(Refusal::BadRequest),
        "HTTP/1.1 400 Bad Request\r\nContent-Length: 0\r\nConnection: close\r\n\r\n"
    );
}

#[test]
fn frames_roundtrip() {
    let payload: Vec<u8> = (0..300u32).map(|i| i as u8).collect();
    let mut buf = encode_frame(0x1, &payload);
    assert_eq!(&buf[..4], &[0x81, 126, 0x01, 0x2c]);
    buf.extend_from_slice(b"rest");
    let f = decode_frame(&buf, 1 << 22).unwrap();
    assert_eq!(f.head, 0x81);
    assert_eq!(f.len, 300);
    assert_eq!(f.payload, payload);
    assert_eq!(f.consumed, buf.len() - 4);
    let m = encode_masked_frame(0x2, b"hello", [1, 2, 3, 4]);
    assert_eq!(m, vec![0x82, 0x85, 1, 2, 3, 4, b'h' ^ 1, b'e' ^ 2, b'l' ^ 3, b'l' ^ 4, b'o' ^ 1]);
    let g = decode_frame(&m, 1 << 22).unwrap();
    assert_eq!(g.payload, b"hello".to_vec());
    assert!(decode_frame(&m[..5], 1 << 22).is_none());
}

#[test]
fn inbound_limits() {
    assert!(matches!(read_inbound(&[0x81]), Inbound::Incomplete));
    let big = [0x82u8, 127, 0, 0, 0, 0, 0x01, 0, 0, 0];
    assert!(matches!(read_inbound(&big), Inbound::TooLarge));
    match read_inbound(&encode_frame(0x1, b"hi")) {
        Inbound::Frame(f) => assert_eq!(f.payload, b"hi".to_vec()),
        _ => panic!("expected a frame"),
    }
}

#[test]
fn channel_steps() {
    match channel_step(0x88, b"") {
        ChannelStep::Close(b) => assert_eq!(b, vec![0x88, 5, 0x03, 0xe8, b'b', b'y', b'e']),
        _ => panic!("close"),
    }
    match channel_step(0x89, b"p") {
        ChannelStep::Reply(b) => assert_eq!(b, vec![0x8a, 1, b'p']),
        _ => panic!("pong"),
    }
    assert!(matches!(channel_step(0x81, b"x"), ChannelStep::Dispatch));
    assert!(matches!(channel_step(0x02, b"x"), ChannelStep::Dispatch));
    assert!(matches!(channel_step(0x8a, b"x"), ChannelStep::Ignore));
}

#[test]
fn relay_steps() {
    match relay_step(0x09, b"p") {
        RelayStep::Answer(b) => assert_eq!(b, vec![0x8a, 1, b'p']),
        _ => panic!("pong"),
    }
    match relay_step(0x08, b"") {
        RelayStep::ForwardAndStop(b) => assert_eq!(b, vec![0x88, 0]),
        _ => panic!("close"),
    }
    // a final ping keeps its FIN bit and is passed on
    match relay_step(0x89, b"p") {
        RelayStep::Forward(b) => assert_eq!(b, vec![0x89, 1, b'p']),
        _ => panic!("forward"),
    }
    match relay_step(0x81, b"t") {
        RelayStep::Forward(b) => assert_eq!(b, vec![0x81, 1, b't']),
        _ => panic!("forward"),
    }
}

#[test]
fn dispatch_answers() {
    let hello = Envelope::wrap(Message::Hello { client_id: "c1".into(), name: "Pixel".into(), role: Role::Client });
    match dispatch_text(Some(hello), "box") {
        Dispatch::Greet { ack } => {
            assert_eq!(
                ack,
                Envelope::wrap(Message::HelloAck { server_id: "dsh-desktop".into(), name: "dsh-desktop@box".into() })
            );
            // the acknowledgement is followed by the session snapshot
            assert_eq!(
                greet_replies(ack.clone(), Vec::new()),
                vec![ack, Envelope::wrap(Message::SessionSnap { sessions: Vec::new() })]
            );
        }
        _ => panic!("greet"),
    }
    let send = Envelope::wrap(Message::SendMsg { session_id: Some("s1".into()), text: "ls".into() });
    match dispatch_text(Some(send), "box") {
        Dispatch::Record { session_id, text, ack } => {
            assert_eq!(session_id.as_deref(), Some("s1"));
            assert_eq!(text, "ls");
            assert_eq!(ack, Envelope::wrap(Message::Ack { ok: true, reason: None }));
        }
        _ => panic!("record"),
    }
    assert!(matches!(dispatch_text(None, "box"), Dispatch::Ignore));
    let ack = Envelope::wrap(Message::Ack { ok: true, reason: None });
    assert!(matches!(dispatch_text(Some(ack), "box"), Dispatch::Ignore));
}

#[test]
fn relay_client_pieces() {
    let k = PairingKey([1u8; 20]);
    assert_eq!(
        relay_request(&k, "relay.example", 5781, "S2V5"),
        format!(
            "GET /ws?key={} HTTP/1.1\r\nHost: relay.example:5781\r\nUpgrade: websocket\r\nConnection: Upgrade\r\nSec-WebSocket-Key: S2V5\r\nSec-WebSocket-Version: 13\r\n\r\n",
            k.to_hex()
        )
    );
    assert!(handshake_accepted("HTTP/1.1 101 Switching Protocols"));
    assert!(!handshake_accepted("HTTP/1.1 400 Bad Request"));
    assert!(matches!(client_step(0x88, b"", [0; 4]), ClientStep::Stop));
    match client_step(0x89, b"p", [1, 2, 3, 4]) {
        ClientStep::Send(b) => assert_eq!(b, vec![0x8a, 0x81, 1, 2, 3, 4, b'p' ^ 1]),
        _ => panic!("pong"),
    }
    assert!(matches!(client_step(0x81, b"x", [0; 4]), ClientStep::Dispatch));
    assert_eq!(client_close_frame([0, 0, 0, 0]), vec![0x88, 0x84, 0, 0, 0, 0, 0x03, 0xe8, b'o', b'k']);
}

#[test]
fn client_replies_are_masked() {
    let b = client_reply(b"hi", [1, 2, 3, 4]);
    assert_eq!(b, vec![0x81, 0x82, 1, 2, 3, 4, b'h' ^ 1, b'i' ^ 2]);
    // every frame the client writes has the mask bit set
    for f in [b.clone(), client_close_frame([9, 9, 9, 9]), client_reply(&[0u8; 300], [0; 4])] {
        assert_eq!(f[1] & 0x80, 0x80);
    }
    let d = decode_frame(&b, 1 << 20).unwrap();
    assert_eq!(d.payload, b"hi".to_vec());
}

#[test]
fn relay_passes_client_frames_on() {
    let sent = encode_masked_frame(0x1, b"{\"type\":\"hello\"}", [9, 8, 7, 6]);
    let mut buf = sent.clone();
    buf.extend_from_slice(b"next");
    let f = decode_frame(&buf, 1 << 22).unwrap();
    match relay_step(f.head, &f.payload) {
        RelayStep::Forward(out) => {
            let g = decode_frame(&out, 1 << 22).unwrap();
            assert_eq!(g.head, 0x81);
            assert_eq!(g.payload, b"{\"type\":\"hello\"}".to_vec());
        }
        _ => panic!("forward"),
    }
}

#[test]
fn rooms_pair_two_ends() {
    let mut rooms: dsh_mobile::rooms::Rooms<u32> = dsh_mobile::rooms::Rooms::new();
    assert_eq!(rooms.arrive("k1".to_string(), 1), None);
    assert_eq!(rooms.arrive("k2".to_string(), 2), None);
    assert_eq!(rooms.arrive("k1".to_string(), 3), Some((1, 3)));
    assert_eq!(rooms.arrive("k1".to_string(), 4), None);
    assert_eq!(rooms.arrive("k2".to_string(), 5), Some((2, 5)));
}
