//! The pairing service of the desktop daemon: the link it advertises, its small HTTP
//! router (status, QR code, pairing page, channel) and the responses it writes.

use vstd::prelude::*;

use crate::http::{
    first_line, head_words, query_of, query_value, query_value_from, target_path, target_query,
    two_words,
};
use crate::link::{hex_spec, nibble_char, opt_view, Link, LinkModel, PairingKey, PROTOCOL_VERSION, SCHEME};
use crate::text::{before, dec, push_dec, push_str};

verus! {

// ------------------------------------------------------------------ configuration

/// The channel context handed to each connection: the pairing key and the DSH home.
#[derive(Clone)]
pub struct ChannelNew {
    pub key: PairingKey,
    pub home_dir: Option<String>,
}

/// Configuration of the pairing service.
pub struct PairServer {
    pub bind: String,
    pub port: u16,
    /// LAN address that phones can reach (the bind address when none is known).
    pub public_ip: String,
    pub key: PairingKey,
    pub home_dir: Option<String>,
    /// Host that links point at instead of `public_ip` (relay or tunnel).
    pub advertise_host: Option<String>,
    /// Port that links point at instead of `port`.
    pub advertise_port: Option<u16>,
    /// Whether links use WSS/TLS.
    pub advertise_tls: bool,
    /// Public address of the DSH web UI (second tunnel), passed on as `&web=`.
    pub advertise_web_host: Option<String>,
}

/// A copy of an optional string.
fn clone_opt(o: &Option<String>) -> (r: Option<String>)
    ensures
        opt_view(r) == opt_view(*o),
{
    match o {
        Some(s) => Some(s.clone()),
        None => None,
    }
}

impl PairServer {
    /// The link for phones and browsers; under a relay or tunnel it points there.
    pub fn link(&self) -> (l: Link)
        ensures
            l@ == (LinkModel {
                host: match self.advertise_host {
                    Some(h) => h@,
                    None => self.public_ip@,
                },
                port: match self.advertise_port {
                    Some(p) => p,
                    None => self.port,
                },
                key: self.key.0@,
                http_mode: false,
                tls: self.advertise_tls,
                web_host: opt_view(self.advertise_web_host),
            }),
    {
        let host = match &self.advertise_host {
            Some(h) => h.clone(),
            None => self.public_ip.clone(),
        };
        let port = match self.advertise_port {
            Some(p) => p,
            None => self.port,
        };
        let mut l = Link::new(host.as_str(), port, self.key);
        l.tls = self.advertise_tls;
        l.web_host = clone_opt(&self.advertise_web_host);
        l
    }

    /// The address of the pairing page: `http://<public_ip>:<port>/pair`.
    pub fn page_url(&self) -> (s: String)
        ensures
            s@ == "http://"@ + self.public_ip@ + ":"@ + dec(self.port as nat) + "/pair"@,
    {
        let mut s = String::new();
        push_str(&mut s, "http://");
        push_str(&mut s, self.public_ip.as_str());
        push_str(&mut s, ":");
        push_dec(&mut s, self.port as u64);
        push_str(&mut s, "/pair");
        assert(s@ =~= "http://"@ + self.public_ip@ + ":"@ + dec(self.port as nat) + "/pair"@);
        s
    }

    /// The context that each channel connection gets.
    pub fn channel(&self) -> (c: ChannelNew)
        ensures
            c.key == self.key,
            opt_view(c.home_dir) == opt_view(self.home_dir),
    {
        ChannelNew { key: self.key, home_dir: clone_opt(&self.home_dir) }
    }
}

/// What the pages of the service show.
pub struct PairPayload {
    pub link_text: String,
    pub page_url: String,
    pub host: String,
    pub port: u16,
    pub key: String,
    pub qr: String,
}

/// The page contents for a LAN address: the plain LAN link, the page address, the key in
/// hex and the QR image.
pub fn pair_payload(ip: &str, port: u16, key: PairingKey, page_url: String, qr: String) -> (pp:
    PairPayload)
    ensures
        pp.link_text@ == crate::link::qr_spec(
            LinkModel { host: ip@, port, key: key.0@, http_mode: false, tls: false, web_host: None },
        ),
        pp.page_url == page_url,
        pp.host@ == ip@,
        pp.port == port,
        pp.key@ == hex_spec(key.0@),
        pp.qr == qr,
{
    let link = Link::new(ip, port, key);
    PairPayload {
        link_text: link.to_qr(),
        page_url,
        host: ip.to_owned(),
        port,
        key: key.to_hex(),
        qr,
    }
}

// ------------------------------------------------------------------ routing

/// Where a request goes.
pub enum Route {
    /// `GET /health`
    Health,
    /// `GET /`: link information as JSON.
    Status,
    /// `GET /qr.svg`
    Qr,
    /// `GET /pair`: the pairing page.
    PairPage,
    /// `GET /ws`: the channel, with the last `key` of the query.
    Channel(Option<String>),
    /// Anything else: 404.
    NotFound,
    /// A request line with fewer than two words: closed without an answer.
    Drop,
}

/// The route of a request head: by the method and the path of the first line's first two
/// words; the channel gets the value of the last `key` pair of the query.
pub open spec fn route_holds(head: Seq<char>, r: Route) -> bool {
    match two_words(first_line(head)) {
        None => r is Drop,
        Some((m, t)) => {
            let p = before(t, '?');
            if m == "GET"@ && p == "/health"@ {
                r is Health
            } else if m == "GET"@ && p == "/"@ {
                r is Status
            } else if m == "GET"@ && p == "/qr.svg"@ {
                r is Qr
            } else if m == "GET"@ && p == "/pair"@ {
                r is PairPage
            } else if m == "GET"@ && p == "/ws"@ {
                r matches Route::Channel(k) && opt_view(k) == query_value_from(
                    match query_of(t) {
                        Some(q) => q,
                        None => Seq::empty(),
                    },
                    "key"@,
                    0,
                )
            } else {
                r is NotFound
            }
        },
    }
}

/// Whether two string slices hold the same characters.
fn is(a: &str, b: &str) -> (r: bool)
    ensures
        r == (a@ == b@),
{
    crate::cli::same_str(a, b)
}

/// Routes a request head.
pub fn route(head: &str) -> (r: Route)
    ensures
        route_holds(head@, r),
{
    let (method, target) = match head_words(head) {
        Some(w) => w,
        None => return Route::Drop,
    };
    let path = target_path(target.as_str());
    let get = is(method.as_str(), "GET");
    if get && is(path.as_str(), "/health") {
        Route::Health
    } else if get && is(path.as_str(), "/") {
        Route::Status
    } else if get && is(path.as_str(), "/qr.svg") {
        Route::Qr
    } else if get && is(path.as_str(), "/pair") {
        Route::PairPage
    } else if get && is(path.as_str(), "/ws") {
        let q = target_query(target.as_str());
        Route::Channel(query_value(q.as_str(), "key"))
    } else {
        Route::NotFound
    }
}

// ------------------------------------------------------------------ responses

/// The reason phrase written after a status code.
pub open spec fn reason_phrase(code: u16) -> Seq<char> {
    if code == 200 {
        "OK"@
    } else if code == 401 {
        "Unauthorized"@
    } else if code == 404 {
        "Not Found"@
    } else if code == 426 {
        "Upgrade Required"@
    } else {
        Seq::empty()
    }
}

/// The head of a response with a body of `len` bytes.
pub open spec fn response_head_spec(code: u16, content_type: Seq<char>, len: nat) -> Seq<char> {
    "HTTP/1.1 "@ + dec(code as nat) + " "@ + reason_phrase(code) + "\r\nContent-Type: "@
        + content_type + "\r\nContent-Length: "@ + dec(len)
        + "\r\nConnection: close\r\nCache-Control: no-store\r\n\r\n"@
}

/// The head of a response with a body of `len` bytes.
pub fn response_head(code: u16, content_type: &str, len: usize) -> (s: String)
    ensures
        s@ == response_head_spec(code, content_type@, len as nat),
{
    let mut s = String::new();
    push_str(&mut s, "HTTP/1.1 ");
    push_dec(&mut s, code as u64);
    push_str(&mut s, " ");
    if code == 200 {
        push_str(&mut s, "OK");
    } else if code == 401 {
        push_str(&mut s, "Unauthorized");
    } else if code == 404 {
        push_str(&mut s, "Not Found");
    } else if code == 426 {
        push_str(&mut s, "Upgrade Required");
    }
    push_str(&mut s, "\r\nContent-Type: ");
    push_str(&mut s, content_type);
    push_str(&mut s, "\r\nContent-Length: ");
    push_dec(&mut s, len as u64);
    push_str(&mut s, "\r\nConnection: close\r\nCache-Control: no-store\r\n\r\n");
    assert(s@ =~= response_head_spec(code, content_type@, len as nat));
    s
}

/// Content type of plain-text answers.
pub const TEXT_PLAIN: &'static str = "text/plain; charset=utf-8";

/// Content type of JSON answers.
pub const APPLICATION_JSON: &'static str = "application/json; charset=utf-8";

/// Content type of the QR image.
pub const IMAGE_SVG: &'static str = "image/svg+xml; charset=utf-8";

/// An answer: status code, content type and body.
pub struct Reply {
    pub code: u16,
    pub content_type: String,
    pub body: String,
}

/// The answer to a route other than the channel and a dropped request.
pub open spec fn reply_holds(r: Route, pp: PairPayload, status: Seq<char>, out: Option<Reply>) -> bool {
    match r {
        Route::Health => out matches Some(x) && x.code == 200 && x.content_type@ == TEXT_PLAIN@
            && x.body@ == "ok"@,
        Route::Status => out matches Some(x) && x.code == 200 && x.content_type@
            == APPLICATION_JSON@ && x.body@ == status,
        Route::Qr => out matches Some(x) && x.code == 200 && x.content_type@ == IMAGE_SVG@
            && x.body@ == pp.qr@,
        Route::PairPage => out matches Some(x) && x.code == 200 && x.content_type@ == TEXT_PLAIN@
            && x.body@ == page_html_spec(pp.host@, pp.port, pp.qr@, pp.link_text@, pp.key@),
        Route::NotFound => out matches Some(x) && x.code == 404 && x.content_type@ == TEXT_PLAIN@
            && x.body@ == "not found"@,
        _ => out is None,
    }
}

/// The answer to a route, given the JSON status document; `None` for the channel and a
/// dropped request, which are not answered this way.
pub fn reply_for(r: &Route, pp: &PairPayload, status: &str) -> (out: Option<Reply>)
    ensures
        reply_holds(*r, *pp, status@, out),
{
    match r {
        Route::Health => Some(Reply { code: 200, content_type: TEXT_PLAIN.to_owned(), body: "ok".to_owned() }),
        Route::Status => Some(
            Reply { code: 200, content_type: APPLICATION_JSON.to_owned(), body: status.to_owned() },
        ),
        Route::Qr => Some(Reply { code: 200, content_type: IMAGE_SVG.to_owned(), body: pp.qr.clone() }),
        Route::PairPage => Some(
            Reply {
                code: 200,
                content_type: TEXT_PLAIN.to_owned(),
                body: page_html(
                    pp.host.as_str(),
                    pp.port,
                    pp.qr.as_str(),
                    pp.link_text.as_str(),
                    pp.key.as_str(),
                ),
            },
        ),
        Route::NotFound => Some(
            Reply { code: 404, content_type: TEXT_PLAIN.to_owned(), body: "not found".to_owned() },
        ),
        _ => None,
    }
}

// ------------------------------------------------------------------ status document

/// How one character is written inside a JSON string literal: quote and backslash after
/// a backslash; backspace, form feed, line feed, carriage return and tab as their short
/// escapes; the other control characters below U+0020 as `\u00` and two lower-case hex
/// digits; every other character as it is.
pub open spec fn json_escape(c: char) -> Seq<char> {
    if c == '"' {
        seq!['\\', '"']
    } else if c == '\\' {
        seq!['\\', '\\']
    } else if c == '\u{8}' {
        seq!['\\', 'b']
    } else if c == '\u{c}' {
        seq!['\\', 'f']
    } else if c == '\n' {
        seq!['\\', 'n']
    } else if c == '\r' {
        seq!['\\', 'r']
    } else if c == '\t' {
        seq!['\\', 't']
    } else if (c as u32) < 0x20 {
        seq!['\\', 'u', '0', '0', nibble_char((c as u32) as nat / 16), nibble_char((c as u32) as nat % 16)]
    } else {
        seq![c]
    }
}

/// The characters of `s`, each escaped with `json_escape`.
pub open spec fn json_escaped(s: Seq<char>) -> Seq<char>
    decreases s.len(),
{
    if s.len() == 0 {
        Seq::empty()
    } else {
        json_escaped(s.drop_last()) + json_escape(s.last())
    }
}

/// The JSON string literal of `s`: its escaped characters between double quotes.
pub open spec fn json_string(s: Seq<char>) -> Seq<char> {
    seq!['"'] + json_escaped(s) + seq!['"']
}

/// The JSON string literal of `s`, written by `serde_json::to_string`, which cannot fail
/// on a string: the compact formatter writes a quote, the text with the escapes of
/// `json_escape` (serde_json's escape table), and a quote.
#[verifier::external_body]
pub(crate) fn json_quote(s: &str) -> (r: String)
    ensures
        r@ == json_string(s@),
{
    serde_json::to_string(s).unwrap_or_default()
}

/// The status document with its string fields already quoted; keys in sorted order, as
/// `serde_json` writes a map.
pub open spec fn status_doc(host_json: Seq<char>, link_json: Seq<char>, page_json: Seq<char>, port: u16) -> Seq<
    char,
> {
    "{\"host\":"@ + host_json + ",\"link\":"@ + link_json + ",\"page\":"@ + page_json
        + ",\"port\":"@ + dec(port as nat) + ",\"scheme\":\"dsh-link\",\"version\":"@ + dec(
        PROTOCOL_VERSION as nat,
    ) + "}"@
}

/// The status document from already-quoted string fields.
pub fn status_doc_of(host_json: &str, link_json: &str, page_json: &str, port: u16) -> (s: String)
    ensures
        s@ == status_doc(host_json@, link_json@, page_json@, port),
{
    let mut s = String::new();
    push_str(&mut s, "{\"host\":");
    push_str(&mut s, host_json);
    push_str(&mut s, ",\"link\":");
    push_str(&mut s, link_json);
    push_str(&mut s, ",\"page\":");
    push_str(&mut s, page_json);
    push_str(&mut s, ",\"port\":");
    push_dec(&mut s, port as u64);
    push_str(&mut s, ",\"scheme\":\"dsh-link\",\"version\":");
    push_dec(&mut s, PROTOCOL_VERSION as u64);
    push_str(&mut s, "}");
    assert(s@ =~= status_doc(host_json@, link_json@, page_json@, port));
    s
}

/// The JSON document served at `/`: version, scheme, host, port, link and page address.
pub fn status_json(pp: &PairPayload) -> (s: String)
    ensures
        s@ == status_doc(
            json_string(pp.host@),
            json_string(pp.link_text@),
            json_string(pp.page_url@),
            pp.port,
        ),
{
    let h = json_quote(pp.host.as_str());
    let l = json_quote(pp.link_text.as_str());
    let p = json_quote(pp.page_url.as_str());
    status_doc_of(h.as_str(), l.as_str(), p.as_str(), pp.port)
}

// ------------------------------------------------------------------ QR code

/// The SVG image that `qrcode` renders for `text` (quiet zone on), or `None` when the
/// text does not fit in a QR code.
pub uninterp spec fn qr_svg_image(text: Seq<char>) -> Option<Seq<char>>;

/// Renders `text` as a QR code in SVG with `qrcode` (`QrCode::new`, then the SVG renderer
/// with its quiet zone); `None` where `QrCode::new` fails.
#[verifier::external_body]
fn render_qr_svg(text: &str) -> (r: Option<String>)
    ensures
        opt_view(r) == qr_svg_image(text@),
{
    match qrcode::QrCode::new(text.as_bytes()) {
        Ok(code) => Some(code.render::<qrcode::render::svg::Color>().quiet_zone(true).build()),
        Err(_) => None,
    }
}

/// The image to show for a rendering result: empty when there is none.
pub fn qr_or_empty(r: Option<String>) -> (s: String)
    ensures
        s@ == (match opt_view(r) {
            Some(x) => x,
            None => Seq::empty(),
        }),
{
    match r {
        Some(x) => x,
        None => String::new(),
    }
}

/// The QR code of `text` as SVG; empty when it cannot be rendered.
pub fn qr_svg(text: &str) -> (s: String)
    ensures
        s@ == (match qr_svg_image(text@) {
            Some(x) => x,
            None => Seq::empty(),
        }),
{
    qr_or_empty(render_qr_svg(text))
}

// ------------------------------------------------------------------ pairing page

pub const PAGE_0: &'static str = "<!doctype html><html lang=\"zh\"><head><meta charset=\"utf-8\">\n<meta name=\"viewport\" content=\"width=device-width,initial-scale=1\">\n<title>DSH 配对</title>\n<style>\n body{font-family:system-ui,Segoe UI,Roboto,sans-serif;background:#0f1222;color:#e8eaf6;margin:0;padding:24px;display:flex;justify-content:center}\n .card{background:#1a1f3a;border-radius:16px;padding:28px;max-width:420px;width:100%;text-align:center;box-shadow:0 8px 30px rgba(0,0,0,.4)}\n h1{font-size:20px;margin:0 0 6px} h2{font-size:14px;font-weight:400;color:#a9b0d4;margin:0 0 18px}\n .qr{background:#fff;border-radius:10px;padding:12px;margin:0 auto 18px;width:220px;height:220px;display:flex;align-items:center;justify-content:center}\n .qr svg{width:100%;height:100%}\n .linkbox{background:#0c0f22;border:1px dashed #3a4066;border-radius:8px;padding:10px 12px;margin-bottom:18px;font-size:12px;word-break:break-all;color:#c9d1ff}\n .btn{background:#4f6bff;color:#fff;border:0;border-radius:8px;padding:10px 14px;font-size:14px;width:100%;cursor:pointer}\n .hint{font-size:12px;color:#8b93c0;margin-top:10px;line-height:1.6}\n .status{margin-top:14px;font-size:12px;color:#7ee08b}\n</style></head><body><div class=\"card\">\n<h1>DSH 电脑端配对</h1>\n<h2>电脑 (";
pub const PAGE_1: &'static str = ":";
pub const PAGE_2: &'static str = ") · 本配对仅对当前会话有效</h2>\n<div class=\"qr\">";
pub const PAGE_3: &'static str = "</div>\n<div class=\"linkbox\">";
pub const PAGE_4: &'static str = "</div>\n<button class=\"btn\" onclick=\"navigator.clipboard.writeText('";
pub const PAGE_5: &'static str = "')\">复制配对链接</button>\n<div class=\"hint\">① 电脑上启动 DSH Desktop 后，手机 App 打开「连接电脑」→ 扫码或填入上面链接。<br>\n② 配对成功后，两端保持同步：手机可查看电脑端 DSH 会话并对电脑发指令。</div>\n<div class=\"status\" id=\"status\"></div>\n<script>\n const host=location.hostname, port=location.port||'80';\n const proto=location.protocol==='https:'?'wss':'ws';\n try {\n   const ws=new WebSocket(`${proto}://${host}:${port}/ws?key=";
pub const PAGE_6: &'static str = "`);\n   const st=document.getElementById('status');\n   ws.onopen=()=>st.textContent='✓ 已连接电脑端通道';\n   ws.onmessage=(ev)=>{{\n     const d=JSON.parse(ev.data);\n     if(d.type==='hello_ack') st.textContent=`✓ 已配对 (${d.name})`;\n     if(d.type==='session_snap') st.textContent=`✓ 已配对，电脑端会话 ${d.sessions.length} 个`;\n   }};\n   ws.onerror=()=>st.textContent='连接失败：请确认手机与电脑在同一局域网';\n   ws.onclose=()=>st.textContent='通道已关闭';\n }catch(e){}\n</script></div></body></html>";

/// The pairing page for a LAN address, QR image, link text and hex key.
pub open spec fn page_html_spec(host: Seq<char>, port: u16, qr: Seq<char>, link: Seq<char>, key: Seq<char>) -> Seq<
    char,
> {
    PAGE_0@ + host + PAGE_1@ + dec(port as nat) + PAGE_2@ + qr + PAGE_3@ + link + PAGE_4@ + link
        + PAGE_5@ + key + PAGE_6@
}

/// The pairing page: address, QR code, link with a copy button, and a script that opens
/// the channel with the key and reports the greeting.
pub fn page_html(host: &str, port: u16, qr: &str, link: &str, key: &str) -> (s: String)
    ensures
        s@ == page_html_spec(host@, port, qr@, link@, key@),
{
    let mut s = String::new();
    push_str(&mut s, PAGE_0);
    push_str(&mut s, host);
    push_str(&mut s, PAGE_1);
    push_dec(&mut s, port as u64);
    push_str(&mut s, PAGE_2);
    push_str(&mut s, qr);
    push_str(&mut s, PAGE_3);
    push_str(&mut s, link);
    push_str(&mut s, PAGE_4);
    push_str(&mut s, link);
    push_str(&mut s, PAGE_5);
    push_str(&mut s, key);
    push_str(&mut s, PAGE_6);
    assert(s@ =~= page_html_spec(host@, port, qr@, link@, key@));
    s
}

} // verus!
