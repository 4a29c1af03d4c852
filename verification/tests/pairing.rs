use dsh_mobile::cli::{flag, has, parse_advertise, parse_endpoint};
use dsh_mobile::link::{Link, PairingKey};
use dsh_mobile::node::{desktop_args, stop, DesktopCfg};
use dsh_mobile::pair::{
    page_html, pair_payload, qr_svg, reply_for, response_head, route, status_doc_of, status_json,
    PairServer, Route, APPLICATION_JSON, TEXT_PLAIN,
};
use dsh_mobile::supervise::ProcessControl;

fn server(adv_host: Option<&str>, adv_port: Option<u16>, tls: bool, web: Option<&str>) -> PairServer {
    PairServer {
        bind: "0.0.0.0".into(),
        port: 5780,
        public_ip: "192.168.1.9".into(),
        key: PairingKey([2u8; 20]),
        home_dir: Some("dsh-home".into()),
        advertise_host: adv_host.map(|s| s.to_string()),
        advertise_port: adv_port,
        advertise_tls: tls,
        advertise_web_host: web.map(|s| s.to_string()),
    }
}

#[test]
fn pair_server_links() {
    let s = server(None, None, false, None);
    assert_eq!(s.page_url(), "http://192.168.1.9:5780/pair");
    let l = s.link();
    assert_eq!(l.to_qr(), format!("dsh-link://192.168.1.9:5780/#key={}", s.key.to_hex()));
    let t = server(Some("abc.trycloudflare.com"), Some(443), true, Some("web.trycloudflare.com"));
    let l = t.link();
    assert_eq!(l.host, "abc.trycloudflare.com");
    assert_eq!(l.port, 443);
    assert!(l.tls);
    assert_eq!(
        l.to_qr(),
        format!("dsh-link-wss://abc.trycloudflare.com/#key={}&web=web.trycloudflare.com", t.key.to_hex())
    );
    let back = Link::parse(&l.to_qr()).unwrap();
    assert_eq!(back.web_host.as_deref(), Some("web.trycloudflare.com"));
    let c = t.channel();
    assert_eq!(c.key, t.key);
    assert_eq!(c.home_dir.as_deref(), Some("dsh-home"));
}

#[test]
fn routes() {
    assert!(matches!(route("GET /health HTTP/1.1\r\n\r\n"), Route::Health));
    assert!(matches!(route("GET / HTTP/1.1\r\n\r\n"), Route::Status));
    assert!(matches!(route("GET /?x=1 HTTP/1.1\r\n\r\n"), Route::Status));
    assert!(matches!(route("GET /qr.svg HTTP/1.1\r\n\r\n"), Route::Qr));
    assert!(matches!(route("GET /pair HTTP/1.1\r\n\r\n"), Route::PairPage));
    assert!(matches!(route("POST /pair HTTP/1.1\r\n\r\n"), Route::NotFound));
    assert!(matches!(route("GET /nope HTTP/1.1\r\n\r\n"), Route::NotFound));
    assert!(matches!(route("GET\r\n\r\n"), Route::Drop));
    match route("GET /ws?key=a&key=b HTTP/1.1\r\n\r\n") {
        Route::Channel(k) => assert_eq!(k.as_deref(), Some("b")),
        _ => panic!("channel"),
    }
    match route("GET /ws HTTP/1.1\r\n\r\n") {
        Route::Channel(k) => assert_eq!(k, None),
        _ => panic!("channel"),
    }
}

#[test]
fn replies() {
    assert_eq!(
        response_head(200, TEXT_PLAIN, 2),
        "HTTP/1.1 200 OK\r\nContent-Type: text/plain; charset=utf-8\r\nContent-Length: 2\r\nConnection: close\r\nCache-Control: no-store\r\n\r\n"
    );
    assert_eq!(
        response_head(404, TEXT_PLAIN, 9),
        "HTTP/1.1 404 Not Found\r\nContent-Type: text/plain; charset=utf-8\r\nContent-Length: 9\r\nConnection: close\r\nCache-Control: no-store\r\n\r\n"
    );
    assert_eq!(
        response_head(500, TEXT_PLAIN, 0),
        "HTTP/1.1 500 \r\nContent-Type: text/plain; charset=utf-8\r\nContent-Length: 0\r\nConnection: close\r\nCache-Control: no-store\r\n\r\n"
    );
    let pp = pair_payload("10.0.0.2", 5780, PairingKey([3u8; 20]), "http://10.0.0.2:5780/pair".into(), "<svg/>".into());
    let r = reply_for(&Route::Health, &pp, "{}").unwrap();
    assert_eq!((r.code, r.content_type.as_str(), r.body.as_str()), (200, TEXT_PLAIN, "ok"));
    let r = reply_for(&Route::Status, &pp, "{}").unwrap();
    assert_eq!((r.code, r.content_type.as_str(), r.body.as_str()), (200, APPLICATION_JSON, "{}"));
    let r = reply_for(&Route::NotFound, &pp, "{}").unwrap();
    assert_eq!((r.code, r.body.as_str()), (404, "not found"));
    assert!(reply_for(&Route::Drop, &pp, "{}").is_none());
    let r = reply_for(&Route::PairPage, &pp, "{}").unwrap();
    assert!(r.body.contains("电脑 (10.0.0.2:5780)"));
    assert!(r.body.contains("<div class=\"qr\"><svg/></div>"));
    assert!(r.body.contains(&format!("/ws?key={}`", pp.key)));
}

#[test]
fn status_document() {
    let pp = pair_payload("10.0.0.2", 5780, PairingKey([3u8; 20]), "http://10.0.0.2:5780/pair".into(), String::new());
    let s = status_json(&pp);
    assert_eq!(
        s,
        format!(
            "{{\"host\":\"10.0.0.2\",\"link\":\"{}\",\"page\":\"http://10.0.0.2:5780/pair\",\"port\":5780,\"scheme\":\"dsh-link\",\"version\":1}}",
            pp.link_text
        )
    );
    let odd = pair_payload("h", 1, PairingKey([3u8; 20]), "p\"\\\u{1}\u{1f}\n\t/é".into(), String::new());
    assert!(status_json(&odd).contains(",\"page\":\"p\\\"\\\\\\u0001\\u001f\\n\\t/é\",\"port\":1,"));
    assert_eq!(status_doc_of("\"a\\\"b\"", "\"l\"", "\"p\"", 1), "{\"host\":\"a\\\"b\",\"link\":\"l\",\"page\":\"p\",\"port\":1,\"scheme\":\"dsh-link\",\"version\":1}");
}

#[test]
fn qr_image() {
    let svg = qr_svg("dsh-link://10.0.0.2:5780/#key=00");
    assert!(svg.contains("<svg"));
    assert_ne!(svg, "dsh-link://10.0.0.2:5780/#key=00");
    assert_eq!(qr_svg(&"x".repeat(8000)), "");
}

#[test]
fn page_template() {
    let p = page_html("h", 1, "Q", "L", "K");
    assert!(p.starts_with("<!doctype html>"));
    assert!(p.contains("<h2>电脑 (h:1)"));
    assert!(p.contains("navigator.clipboard.writeText('L')"));
    assert!(p.contains("ws.onmessage=(ev)=>{{"));
    assert!(p.ends_with("</script></div></body></html>"));
}

#[test]
fn command_line() {
    let args: Vec<String> = ["--link-port", "6000", "--no-web", "--host"].iter().map(|s| s.to_string()).collect();
    assert_eq!(flag(&args, "--link-port", "5780"), "6000");
    assert_eq!(flag(&args, "--web-port", "3080"), "3080");
    assert_eq!(flag(&args, "--host", "127.0.0.1"), "127.0.0.1");
    assert!(has(&args, "--no-web"));
    assert!(!has(&args, "--no-home"));
}

#[test]
fn endpoints() {
    assert_eq!(parse_endpoint(" relay.example:5781 "), Some(("relay.example".to_string(), 5781)));
    assert_eq!(parse_endpoint("[::1]:80"), Some(("::1".to_string(), 80)));
    assert_eq!(parse_endpoint("[::1]"), None);
    assert_eq!(parse_endpoint("host"), None);
    assert_eq!(parse_endpoint(":80"), None);
    assert_eq!(parse_endpoint("host:x"), None);
    assert_eq!(parse_endpoint(""), None);
}

#[test]
fn advertise_addresses() {
    assert_eq!(parse_advertise("wss://abc.trycloudflare.com"), Some(("abc.trycloudflare.com".to_string(), 443, true)));
    assert_eq!(parse_advertise("HTTPS://h:8443/x"), Some(("h".to_string(), 8443, true)));
    assert_eq!(parse_advertise("ws://h"), Some(("h".to_string(), 5780, false)));
    assert_eq!(parse_advertise("http://h:81"), Some(("h".to_string(), 81, false)));
    assert_eq!(parse_advertise("h:82"), Some(("h".to_string(), 82, false)));
    assert_eq!(parse_advertise("h"), Some(("h".to_string(), 5780, false)));
    assert_eq!(parse_advertise("   "), None);
}

#[test]
fn desktop_node() {
    let mut cfg = DesktopCfg {
        node: "node".into(),
        app_dir: "payload/dsh-app".into(),
        home_dir: "dsh-home".into(),
        log_file: "dsh-home/dsh-desktop-node.log".into(),
        web_port: 3080,
        host: "127.0.0.1".into(),
        advertise_web_host: None,
    };
    assert_eq!(desktop_args(&cfg), vec!["--expose-internals", "lib/bin.js", "web", "--host", "127.0.0.1", "--port", "3080"]);
    cfg.advertise_web_host = Some("w.example".into());
    assert_eq!(desktop_args(&cfg)[7..], ["--trusted-host".to_string(), "w.example".to_string()]);
    let mut c = ProcessControl::new();
    let g = c.start().unwrap();
    stop(&mut c);
    assert!(!c.running);
    assert!(!c.is_current(g));
}
