use dsh_mobile::link::{Envelope, Link, Message, PairingKey, Role, DEFAULT_LINK_PORT, PROTOCOL_VERSION};

#[test]
fn key_hex_roundtrip() {
    let k = PairingKey::random();
    let h = k.to_hex();
    assert_eq!(h.len(), 40);
    assert_eq!(PairingKey::from_hex(&h), Some(k.clone()));
    assert_eq!(PairingKey::from_hex(&h.to_uppercase()), Some(k));
    assert_eq!(PairingKey::from_hex("abcd"), None);
    assert_eq!(PairingKey::from_hex(&"z".repeat(40)), None);
}

#[test]
fn key_hex_fixed_value() {
    let mut b = [0u8; 20];
    for (i, x) in b.iter_mut().enumerate() {
        *x = (i as u8) * 13;
    }
    let k = PairingKey(b);
    assert_eq!(k.to_hex(), "000d1a2734414e5b6875828f9ca9b6c3d0ddeaf7");
    assert_eq!(PairingKey::from_hex("  000D1A2734414E5B6875828F9CA9B6C3D0DDEAF7 \n"), Some(k));
}

#[test]
fn link_roundtrip() {
    let k = PairingKey::random();
    let l = Link::new("192.168.1.5", 5780, k.clone());
    let qr = l.to_qr();
    assert!(qr.starts_with("dsh-link://192.168.1.5:5780/#key="));
    let parsed = Link::parse(&qr).unwrap();
    assert_eq!(parsed.host, "192.168.1.5");
    assert_eq!(parsed.port, 5780);
    assert_eq!(parsed.key, k.clone());
    assert!(!parsed.tls);
    assert_eq!(parsed.web_host, None);
}

#[test]
fn link_wss_roundtrip() {
    let k = PairingKey::random();
    let mut l = Link::secure("abc.trycloudflare.com", 443, k.clone());
    l.web_host = Some("web.trycloudflare.com".to_string());
    let qr = l.to_qr();
    assert!(qr.starts_with("dsh-link-wss://abc.trycloudflare.com/#key="), "qr={qr}");
    assert!(qr.contains("&web=web.trycloudflare.com"), "qr={qr}");
    let parsed = Link::parse(&qr).unwrap();
    assert_eq!(parsed.host, "abc.trycloudflare.com");
    assert_eq!(parsed.port, 443);
    assert_eq!(parsed.key, k.clone());
    assert!(parsed.tls);
    assert_eq!(parsed.web_host.as_deref(), Some("web.trycloudflare.com"));
}

#[test]
fn link_wss_parse_no_web() {
    let k = PairingKey::random();
    let qr = format!("dsh-link-wss://abc.trycloudflare.com/#key={}", k.to_hex());
    let l = Link::parse(&qr).unwrap();
    assert!(l.tls);
    assert_eq!(l.host, "abc.trycloudflare.com");
    assert_eq!(l.port, 443);
    assert_eq!(l.web_host, None);
}

#[test]
fn link_http_parse() {
    let k = PairingKey::random();
    let url = format!("http://example.com:9000/pair?key={}", k.to_hex());
    let l = Link::parse(&url).unwrap();
    assert_eq!(l.host, "example.com");
    assert_eq!(l.port, 9000);
    assert_eq!(l.key, k);
    assert!(l.http_mode);
}

#[test]
fn link_default_port() {
    let k = PairingKey::random();
    let l = Link::parse(&format!("dsh-link://host/#key={}", k.to_hex())).unwrap();
    assert_eq!(l.port, DEFAULT_LINK_PORT);
}

#[test]
fn link_parse_rejects() {
    let k = PairingKey::random();
    assert!(Link::parse("").is_none());
    assert!(Link::parse("dsh-link://host:5780/#nokey").is_none());
    assert!(Link::parse(&format!("dsh-link://:5780/#key={}", k.to_hex())).is_none());
    assert!(Link::parse(&format!("dsh-link://host:99999/#key={}", k.to_hex())).is_none());
}

#[test]
fn link_address() {
    let k = PairingKey([7u8; 20]);
    assert_eq!(Link::new("10.0.0.2", 5780, k).address(), "10.0.0.2:5780");
}

#[test]
fn envelope_wrap_and_version() {
    let e = Envelope::wrap(Message::Hello { client_id: "c1".into(), name: "Pixel".into(), role: Role::Client });
    assert_eq!(e.ver, PROTOCOL_VERSION);
    assert_eq!(Envelope::accept_version(e.clone()), Some(e.clone()));
    let old = Envelope { ver: 9, msg: e.msg.clone() };
    assert_eq!(Envelope::accept_version(old), None);
}
