//! DSH Link pairing protocol: the one-time pairing key, the shareable pairing
//! link (also the QR payload) and the channel message envelope.

use vstd::prelude::*;

use rand::RngCore;

use crate::text::{
    all_digits, ascii_lower, chars_of, contains, dec, find, find_from, find_in, index_of,
    index_of_char, index_of_from, is_whitespace, is_ws, lemma_find_from_found,
    lemma_index_of_first, lemma_index_of_found, lemma_rindex_of, lower, matches_at, parse_u16,
    parse_u16_spec, push_char, push_dec, push_str, rindex_of, rindex_of_char, starts_with,
    string_of, to_ascii_lower, trim, trim_bounds,
};

verus! {

/// Protocol identifier and version.
pub const PROTOCOL_VERSION: u8 = 1;

/// Default pairing/control service port.
pub const DEFAULT_LINK_PORT: u16 = 5780;

/// Default link scheme.
pub const SCHEME: &'static str = "dsh-link";

/// Scheme of a TLS (WSS) link, used across networks through a tunnel.
pub const SCHEME_WSS: &'static str = "dsh-link-wss";

/// Plain http scheme of the browser-compatible form.
pub const SCHEME_HTTP: &'static str = "http";

// ------------------------------------------------------------------ hex

/// The lower-case hex digit for `d` (0..=15).
pub open spec fn nibble_char(d: nat) -> char {
    if d < 10 {
        (('0' as u32) + d) as char
    } else {
        (('a' as u32) + (d - 10)) as char
    }
}

/// Lower-case hex encoding, two digits per byte, most significant nibble first.
pub open spec fn hex_spec(b: Seq<u8>) -> Seq<char> {
    Seq::new(
        2 * b.len(),
        |j: int|
            if j % 2 == 0 {
                nibble_char((b[j / 2] / 16) as nat)
            } else {
                nibble_char((b[j / 2] % 16) as nat)
            },
    )
}

/// The value of one hex digit, in either case.
pub open spec fn hex_val_spec(c: char) -> Option<u8> {
    if '0' <= c && c <= '9' {
        Some(((c as u32) - ('0' as u32)) as u8)
    } else if 'a' <= c && c <= 'f' {
        Some(((c as u32) - ('a' as u32) + 10) as u8)
    } else if 'A' <= c && c <= 'F' {
        Some(((c as u32) - ('A' as u32) + 10) as u8)
    } else {
        None
    }
}

/// Whether every character of `t` is a hex digit.
pub open spec fn all_hex(t: Seq<char>) -> bool {
    forall|i: int| 0 <= i < t.len() ==> (#[trigger] hex_val_spec(t[i])) is Some
}

/// The 20 key bytes spelled by exactly 40 hex digits.
pub open spec fn key_bytes_spec(t: Seq<char>) -> Option<Seq<u8>> {
    if t.len() == 40 && all_hex(t) {
        Some(
            Seq::new(
                20,
                |i: int|
                    (hex_val_spec(t[2 * i])->0 * 16 + hex_val_spec(t[2 * i + 1])->0) as u8,
            ),
        )
    } else {
        None
    }
}

/// Reading a key back: surrounding whitespace is ignored (`PairingKey::from_hex`).
pub open spec fn from_hex_spec(s: Seq<char>) -> Option<Seq<u8>> {
    key_bytes_spec(trim(s))
}

/// `hex_val`: the value of one hex digit.
fn hex_val(c: char) -> (r: Option<u8>)
    ensures
        r == hex_val_spec(c),
{
    if '0' <= c && c <= '9' {
        Some(((c as u32) - ('0' as u32)) as u8)
    } else if 'a' <= c && c <= 'f' {
        Some(((c as u32) - ('a' as u32) + 10) as u8)
    } else if 'A' <= c && c <= 'F' {
        Some(((c as u32) - ('A' as u32) + 10) as u8)
    } else {
        None
    }
}

/// The character of a lower-case hex digit.
fn nibble(d: u8) -> (c: char)
    requires
        d < 16,
    ensures
        c == nibble_char(d as nat),
{
    if d < 10 {
        let b: u8 = 48 + d;
        b as char
    } else {
        let b: u8 = 97 + (d - 10);
        b as char
    }
}

/// Appends the lower-case hex encoding of `b`.
pub fn push_hex(out: &mut String, b: &[u8])
    ensures
        final(out)@ == old(out)@ + hex_spec(b@),
{
    let mut i: usize = 0;
    while i < b.len()
        invariant
            i <= b@.len(),
            out@ == old(out)@ + hex_spec(b@.take(i as int)),
        decreases b@.len() - i,
    {
        let x = b[i];
        push_char(out, nibble(x / 16));
        push_char(out, nibble(x % 16));
        proof {
            let prev = hex_spec(b@.take(i as int));
            let next = hex_spec(b@.take(i + 1));
            assert(next =~= prev.push(nibble_char((x / 16) as nat)).push(
                nibble_char((x % 16) as nat),
            ));
        }
        i = i + 1;
    }
    assert(b@.take(b@.len() as int) =~= b@);
}

// ------------------------------------------------------------------ pairing key

/// Pairing key: 20 random bytes (40 hex digits), the pre-shared secret of a channel.
#[derive(Clone, Copy, PartialEq, Eq, Debug)]
pub struct PairingKey(pub [u8; 20]);

/// A fresh 20-byte random value from the thread-local generator of `rand`.
#[verifier::external_body]
fn random_key_bytes() -> (b: [u8; 20]) {
    let mut b = [0u8; 20];
    rand::thread_rng().fill_bytes(&mut b);
    b
}

impl PairingKey {
    /// A new random key.
    pub fn random() -> (k: PairingKey) {
        PairingKey(random_key_bytes())
    }

    /// Lower-case hex encoding (40 digits).
    pub fn to_hex(&self) -> (s: String)
        ensures
            s@ == hex_spec(self.0@),
    {
        let mut s = String::new();
        push_hex(&mut s, self.0.as_slice());
        assert(Seq::<char>::empty() + hex_spec(self.0@) =~= hex_spec(self.0@));
        s
    }

    /// Parses 40 hex digits (either case), ignoring surrounding whitespace.
    pub fn from_hex(s: &str) -> (r: Option<PairingKey>)
        ensures
            r is Some <==> from_hex_spec(s@) is Some,
            r matches Some(k) ==> k.0@ == from_hex_spec(s@)->0,
    {
        let v = chars_of(s);
        let (a, b) = trim_bounds(&v, 0, v.len());
        assert(v@.subrange(0, v@.len() as int) =~= s@);
        key_from_chars(&v, a, b)
    }
}

/// The key spelled by the hex digits `v[a..b]`.
fn key_from_chars(v: &Vec<char>, a: usize, b: usize) -> (r: Option<PairingKey>)
    requires
        a <= b <= v@.len(),
    ensures
        r is Some <==> key_bytes_spec(v@.subrange(a as int, b as int)) is Some,
        r matches Some(k) ==> k.0@ == key_bytes_spec(v@.subrange(a as int, b as int))->0,
{
    let ghost t = v@.subrange(a as int, b as int);
    if b - a != 40 {
        return None;
    }
    let mut out = [0u8; 20];
    let mut i: usize = 0;
    while i < 20
        invariant
            a + 40 == b <= v@.len(),
            t == v@.subrange(a as int, b as int),
            i <= 20,
            forall|k: int| 0 <= k < 2 * i ==> (#[trigger] hex_val_spec(t[k])) is Some,
            forall|k: int|
                0 <= k < i ==> out@[k] == (hex_val_spec(t[2 * k])->0 * 16 + hex_val_spec(
                    t[2 * k + 1],
                )->0) as u8,
        decreases 20 - i,
    {
        let hi = match hex_val(v[a + 2 * i]) {
            Some(h) => h,
            None => {
                assert(t[2 * i as int] == v@[a + 2 * i]);
                return None;
            },
        };
        let lo = match hex_val(v[a + 2 * i + 1]) {
            Some(l) => l,
            None => {
                assert(t[2 * i + 1] == v@[a + 2 * i + 1]);
                return None;
            },
        };
        assert(t[2 * i as int] == v@[a + 2 * i]);
        assert(t[2 * i + 1] == v@[a + 2 * i + 1]);
        assert(hi < 16 && lo < 16);
        out[i] = hi * 16 + lo;
        i = i + 1;
    }
    proof {
        assert(all_hex(t));
        let want = key_bytes_spec(t)->0;
        assert(out@ =~= want);
    }
    Some(PairingKey(out))
}

// ------------------------------------------------------------------ link

/// The mathematical content of a [`Link`].
pub struct LinkModel {
    pub host: Seq<char>,
    pub port: u16,
    pub key: Seq<u8>,
    pub http_mode: bool,
    pub tls: bool,
    pub web_host: Option<Seq<char>>,
}

/// A shareable pairing link; also the QR code payload.
///
/// `dsh-link://example.com:5780/#key=<hex>` (main form, LAN),
/// `dsh-link-wss://example.com/#key=<hex>&web=<webhost>` (TLS form through a tunnel),
/// `http://example.com:5780/pair?key=<hex>` (browser-compatible form).
#[derive(Clone, PartialEq, Eq, Debug)]
pub struct Link {
    pub host: String,
    pub port: u16,
    pub key: PairingKey,
    /// Whether the link uses the browser-compatible `http(s)://…/pair?key=` form.
    pub http_mode: bool,
    /// Whether the channel runs over TLS (WSS).
    pub tls: bool,
    /// Optional public address of the DSH Web UI (second tunnel).
    pub web_host: Option<String>,
}

/// The view of an optional string.
pub open spec fn opt_view(o: Option<String>) -> Option<Seq<char>> {
    match o {
        Some(s) => Some(s@),
        None => None,
    }
}

impl View for Link {
    type V = LinkModel;

    open spec fn view(&self) -> LinkModel {
        LinkModel {
            host: self.host@,
            port: self.port,
            key: self.key.0@,
            http_mode: self.http_mode,
            tls: self.tls,
            web_host: opt_view(self.web_host),
        }
    }
}

/// The scheme that a link is written with.
pub open spec fn scheme_of(m: LinkModel) -> Seq<char> {
    if m.http_mode {
        if m.tls {
            "https"@
        } else {
            SCHEME_HTTP@
        }
    } else if m.tls {
        SCHEME_WSS@
    } else {
        SCHEME@
    }
}

/// `host:port`, or the bare host for TLS links (whose port is implied).
pub open spec fn authority_of(m: LinkModel) -> Seq<char> {
    if m.tls {
        m.host
    } else {
        m.host + ":"@ + dec(m.port as nat)
    }
}

/// The `&web=<host>` parameter, empty when there is no web host.
pub open spec fn web_param(m: LinkModel) -> Seq<char> {
    match m.web_host {
        Some(w) => "&web="@ + w,
        None => Seq::<char>::empty(),
    }
}

/// The text of a link (`Link::to_qr`).
pub open spec fn qr_spec(m: LinkModel) -> Seq<char> {
    if m.http_mode {
        scheme_of(m) + "://"@ + authority_of(m) + "/pair?key="@ + hex_spec(m.key) + web_param(m)
    } else {
        scheme_of(m) + "://"@ + authority_of(m) + "/#key="@ + hex_spec(m.key) + (if m.tls {
            web_param(m)
        } else {
            Seq::<char>::empty()
        })
    }
}

/// Where the authority starts, and whether the scheme selects the http form and TLS.
pub open spec fn scheme_split(t: Seq<char>) -> (int, bool, bool) {
    let l = lower(t);
    if starts_with(l, "dsh-link-wss://"@) {
        ("dsh-link-wss://"@.len() as int, false, true)
    } else if starts_with(l, "dsh-link://"@) {
        ("dsh-link://"@.len() as int, false, false)
    } else if starts_with(l, "https://"@) {
        ("https://"@.len() as int, true, true)
    } else if starts_with(l, "http://"@) {
        ("http://"@.len() as int, true, false)
    } else {
        (0, false, false)
    }
}

/// Whether `c` ends a parameter value: `#`, `?`, `&` or whitespace.
pub open spec fn is_sep(c: char) -> bool {
    c == '#' || c == '?' || c == '&' || is_ws(c)
}

/// First position at or after `i` that ends a parameter value, or the length.
pub open spec fn sep_end(t: Seq<char>, i: int) -> int
    decreases t.len() - i,
{
    if i < 0 || i >= t.len() {
        t.len() as int
    } else if is_sep(t[i]) {
        i
    } else {
        sep_end(t, i + 1)
    }
}

/// The value after the first occurrence of `marker`, up to the next separator.
pub open spec fn marker_value(t: Seq<char>, marker: Seq<char>) -> Option<Seq<char>> {
    match find(t, marker) {
        Some(i) => Some(t.subrange(i + marker.len(), sep_end(t, i + marker.len()))),
        None => None,
    }
}

/// The key decoded from the value after `marker`, if any.
pub open spec fn key_after(t: Seq<char>, marker: Seq<char>) -> Option<Seq<u8>> {
    match marker_value(t, marker) {
        Some(x) => from_hex_spec(x),
        None => None,
    }
}

/// The key of a link text: after `#key=`, else `?key=`, else `&key=`.
pub open spec fn extract_key_spec(t: Seq<char>) -> Option<Seq<u8>> {
    if key_after(t, "#key="@) is Some {
        key_after(t, "#key="@)
    } else if key_after(t, "?key="@) is Some {
        key_after(t, "?key="@)
    } else {
        key_after(t, "&key="@)
    }
}

/// The non-empty trimmed value after `marker`, if any.
pub open spec fn web_after(t: Seq<char>, marker: Seq<char>) -> Option<Seq<char>> {
    match marker_value(t, marker) {
        Some(x) => if trim(x).len() > 0 {
            Some(trim(x))
        } else {
            None
        },
        None => None,
    }
}

/// The optional web host of a link text: after `&web=`, else `?web=`, else `#web=`.
pub open spec fn extract_web_spec(t: Seq<char>) -> Option<Seq<char>> {
    if web_after(t, "&web="@) is Some {
        web_after(t, "&web="@)
    } else if web_after(t, "?web="@) is Some {
        web_after(t, "?web="@)
    } else {
        web_after(t, "#web="@)
    }
}

/// `host[:port]` split; `[addr]` brackets an IPv6 host.
pub open spec fn split_host_port_spec(r: Seq<char>) -> Option<(Seq<char>, Option<u16>)> {
    if r.len() > 0 && r[0] == '[' {
        let inner = r.drop_first();
        match index_of(inner, ']') {
            None => None,
            Some(c) => {
                let host = inner.take(c);
                let after = inner.skip(c + 1);
                if after.len() > 0 && after[0] == ':' {
                    match parse_u16_spec(after.drop_first()) {
                        Some(p) => Some((host, Some(p))),
                        None => None,
                    }
                } else {
                    Some((host, None))
                }
            },
        }
    } else {
        match rindex_of(r, ':') {
            Some(i) => {
                let host = r.take(i);
                if host.len() == 0 {
                    None
                } else {
                    match parse_u16_spec(r.skip(i + 1)) {
                        Some(p) => Some((host, Some(p))),
                        None => None,
                    }
                }
            },
            None => Some((r, None)),
        }
    }
}

/// The link that a text denotes (`Link::parse`).
pub open spec fn parse_spec(s: Seq<char>) -> Option<LinkModel> {
    let t = trim(s);
    let (k, http_mode, tls0) = scheme_split(t);
    let rest_end = match index_of_from(t, '/', k) {
        Some(j) => j,
        None => t.len() as int,
    };
    let rest = t.subrange(k, rest_end);
    if t.len() == 0 || rest.len() == 0 {
        None
    } else {
        match extract_key_spec(t) {
            None => None,
            Some(key) => {
                let tls = tls0 || contains(t, "tls=1"@);
                match split_host_port_spec(rest) {
                    None => None,
                    Some((host, port)) => Some(
                        LinkModel {
                            host,
                            port: match port {
                                Some(p) => p,
                                None => if tls {
                                    443
                                } else {
                                    DEFAULT_LINK_PORT
                                },
                            },
                            key,
                            http_mode,
                            tls,
                            web_host: extract_web_spec(t),
                        },
                    ),
                }
            },
        }
    }
}

/// `v[lo..hi]` as a new vector.
pub fn sub_vec(v: &Vec<char>, lo: usize, hi: usize) -> (out: Vec<char>)
    requires
        lo <= hi <= v@.len(),
    ensures
        out@ == v@.subrange(lo as int, hi as int),
{
    let mut out: Vec<char> = Vec::new();
    let mut i = lo;
    while i < hi
        invariant
            lo <= i <= hi <= v@.len(),
            out@ == v@.subrange(lo as int, i as int),
        decreases hi - i,
    {
        out.push(v[i]);
        i = i + 1;
        assert(out@ =~= v@.subrange(lo as int, i as int));
    }
    out
}

/// Whether the lower-cased `t` begins with the characters of `lit`.
pub(crate) fn starts_with_lower(t: &Vec<char>, lit: &Vec<char>) -> (b: bool)
    ensures
        b == starts_with(lower(t@), lit@),
{
    if lit.len() > t.len() {
        return false;
    }
    let mut i: usize = 0;
    while i < lit.len()
        invariant
            lit@.len() <= t@.len(),
            i <= lit@.len(),
            forall|k: int| 0 <= k < i ==> ascii_lower(t@[k]) == lit@[k],
        decreases lit@.len() - i,
    {
        if to_ascii_lower(t[i]) != lit[i] {
            assert(lower(t@).subrange(0, lit@.len() as int)[i as int] != lit@[i as int]);
            return false;
        }
        i = i + 1;
    }
    assert(lower(t@).subrange(0, lit@.len() as int) =~= lit@);
    true
}

/// See [`scheme_split`].
fn split_scheme(t: &Vec<char>) -> (r: (usize, bool, bool))
    ensures
        r.0 as int == scheme_split(t@).0,
        r.1 == scheme_split(t@).1,
        r.2 == scheme_split(t@).2,
        r.0 <= t@.len(),
{
    let wss = chars_of("dsh-link-wss://");
    if starts_with_lower(t, &wss) {
        return (wss.len(), false, true);
    }
    let plain = chars_of("dsh-link://");
    if starts_with_lower(t, &plain) {
        return (plain.len(), false, false);
    }
    let https = chars_of("https://");
    if starts_with_lower(t, &https) {
        return (https.len(), true, true);
    }
    let http = chars_of("http://");
    if starts_with_lower(t, &http) {
        return (http.len(), true, false);
    }
    (0, false, false)
}

/// Whether `c` ends a parameter value.
fn is_separator(c: char) -> (b: bool)
    ensures
        b == is_sep(c),
{
    c == '#' || c == '?' || c == '&' || is_whitespace(c)
}

/// See [`sep_end`].
fn sep_end_exec(t: &Vec<char>, from: usize) -> (r: usize)
    requires
        from <= t@.len(),
    ensures
        r as int == sep_end(t@, from as int),
        from <= r <= t@.len(),
{
    let mut i = from;
    while i < t.len()
        invariant
            from <= i <= t@.len(),
            sep_end(t@, from as int) == sep_end(t@, i as int),
        decreases t@.len() - i,
    {
        if is_separator(t[i]) {
            return i;
        }
        i = i + 1;
    }
    i
}

/// The bounds of the value after the first `marker` (see [`marker_value`]).
fn marker_bounds(t: &Vec<char>, marker: &str) -> (r: Option<(usize, usize)>)
    ensures
        r is Some <==> marker_value(t@, marker@) is Some,
        r matches Some((a, b)) ==> a <= b <= t@.len() && t@.subrange(a as int, b as int)
            == marker_value(t@, marker@)->0,
{
    let m = chars_of(marker);
    match find_in(t, &m, 0) {
        Some(i) => {
            proof {
                lemma_find_from_found(t@, m@, 0);
                assert(matches_at(t@, m@, i as int));
                assert(t@.len() == t.len());
            }
            let a = i + m.len();
            let b = sep_end_exec(t, a);
            Some((a, b))
        },
        None => None,
    }
}

/// The key decoded after `marker`.
fn key_after_exec(t: &Vec<char>, marker: &str) -> (r: Option<PairingKey>)
    ensures
        r is Some <==> key_after(t@, marker@) is Some,
        r matches Some(k) ==> k.0@ == key_after(t@, marker@)->0,
{
    match marker_bounds(t, marker) {
        Some((a, b)) => {
            let (x, y) = trim_bounds(t, a, b);
            key_from_chars(t, x, y)
        },
        None => None,
    }
}

/// See [`extract_key_spec`].
fn extract_key(t: &Vec<char>) -> (r: Option<PairingKey>)
    ensures
        r is Some <==> extract_key_spec(t@) is Some,
        r matches Some(k) ==> k.0@ == extract_key_spec(t@)->0,
{
    let k1 = key_after_exec(t, "#key=");
    if k1.is_some() {
        return k1;
    }
    let k2 = key_after_exec(t, "?key=");
    if k2.is_some() {
        return k2;
    }
    key_after_exec(t, "&key=")
}

/// The web host after `marker`.
fn web_after_exec(t: &Vec<char>, marker: &str) -> (r: Option<String>)
    ensures
        opt_view(r) == web_after(t@, marker@),
{
    match marker_bounds(t, marker) {
        Some((a, b)) => {
            let (x, y) = trim_bounds(t, a, b);
            if x < y {
                Some(string_of(t, x, y))
            } else {
                None
            }
        },
        None => None,
    }
}

/// See [`extract_web_spec`].
fn extract_web(t: &Vec<char>) -> (r: Option<String>)
    ensures
        opt_view(r) == extract_web_spec(t@),
{
    let w1 = web_after_exec(t, "&web=");
    if w1.is_some() {
        return w1;
    }
    let w2 = web_after_exec(t, "?web=");
    if w2.is_some() {
        return w2;
    }
    web_after_exec(t, "#web=")
}

/// See [`split_host_port_spec`].
pub fn split_host_port(r: &Vec<char>) -> (out: Option<(String, Option<u16>)>)
    ensures
        out is Some <==> split_host_port_spec(r@) is Some,
        out matches Some((h, p)) ==> (split_host_port_spec(r@) matches Some((sh, sp)) && h@ == sh
            && p == sp),
{
    let n = r.len();
    if n > 0 && r[0] == '[' {
        let ghost inner = r@.drop_first();
        match index_of_char(r, ']', 1) {
            None => {
                proof {
                    lemma_index_of_found(r@, ']', 1);
                    if index_of(inner, ']') is Some {
                        lemma_index_of_found(inner, ']', 0);
                        let c = index_of(inner, ']')->0;
                        assert(r@[c + 1] == inner[c]);
                    }
                }
                None
            },
            Some(close) => {
                proof {
                    lemma_index_of_found(r@, ']', 1);
                    assert forall|k: int| 0 <= k < close - 1 implies inner[k] != ']' by {
                        assert(inner[k] == r@[k + 1]);
                    }
                    lemma_index_of_first(inner, ']', 0, close - 1);
                    assert(inner.take(close - 1) =~= r@.subrange(1, close as int));
                    assert(inner.skip(close as int) =~= r@.subrange(close + 1, n as int));
                }
                let host = string_of(r, 1, close);
                if close + 1 < n && r[close + 1] == ':' {
                    proof {
                        assert(r@.subrange(close + 2, n as int) =~= inner.skip(close as int).drop_first());
                    }
                    match parse_u16(r, close + 2, n) {
                        Some(p) => Some((host, Some(p))),
                        None => None,
                    }
                } else {
                    Some((host, None))
                }
            },
        }
    } else {
        match rindex_of_char(r, ':', 0, n) {
            Some(i) => {
                proof {
                    assert(r@.subrange(0, n as int) =~= r@);
                    lemma_rindex_of(r@, ':');
                }
                if i == 0 {
                    return None;
                }
                let host = string_of(r, 0, i);
                assert(r@.take(i as int) =~= r@.subrange(0, i as int));
                assert(r@.skip(i + 1) =~= r@.subrange(i + 1, n as int));
                match parse_u16(r, i + 1, n) {
                    Some(p) => Some((host, Some(p))),
                    None => None,
                }
            },
            None => {
                proof {
                    assert(r@.subrange(0, n as int) =~= r@);
                }
                let host = string_of(r, 0, n);
                Some((host, None))
            },
        }
    }
}

impl Link {
    /// A plain LAN link to `host:port`.
    pub fn new(host: &str, port: u16, key: PairingKey) -> (l: Link)
        ensures
            l@ == (LinkModel {
                host: host@,
                port,
                key: key.0@,
                http_mode: false,
                tls: false,
                web_host: None,
            }),
    {
        Link { host: host.to_owned(), port, key, http_mode: false, tls: false, web_host: None }
    }

    /// A TLS (WSS) link, for pairing through a tunnel.
    pub fn secure(host: &str, port: u16, key: PairingKey) -> (l: Link)
        ensures
            l@ == (LinkModel {
                host: host@,
                port,
                key: key.0@,
                http_mode: false,
                tls: true,
                web_host: None,
            }),
    {
        let mut l = Link::new(host, port, key);
        l.tls = true;
        l
    }

    /// The QR payload / share text.
    pub fn to_qr(&self) -> (s: String)
        ensures
            s@ == qr_spec(self@),
    {
        let mut s = String::new();
        if self.http_mode {
            if self.tls {
                push_str(&mut s, "https");
            } else {
                push_str(&mut s, SCHEME_HTTP);
            }
        } else if self.tls {
            push_str(&mut s, SCHEME_WSS);
        } else {
            push_str(&mut s, SCHEME);
        }
        push_str(&mut s, "://");
        push_str(&mut s, self.host.as_str());
        if !self.tls {
            push_str(&mut s, ":");
            push_dec(&mut s, self.port as u64);
        }
        if self.http_mode {
            push_str(&mut s, "/pair?key=");
        } else {
            push_str(&mut s, "/#key=");
        }
        push_hex(&mut s, self.key.0.as_slice());
        if self.http_mode || self.tls {
            match &self.web_host {
                Some(w) => {
                    push_str(&mut s, "&web=");
                    push_str(&mut s, w.as_str());
                },
                None => {},
            }
        }
        proof {
            let m = self@;
            let e = Seq::<char>::empty();
            assert(s@ =~= qr_spec(m));
        }
        s
    }

    /// Parses a scanned or typed link: `dsh-link://`, `dsh-link-wss://` or `http(s)://`.
    pub fn parse(s: &str) -> (r: Option<Link>)
        ensures
            r is Some <==> parse_spec(s@) is Some,
            r matches Some(l) ==> l@ == parse_spec(s@)->0,
    {
        let v = chars_of(s);
        let (a, b) = trim_bounds(&v, 0, v.len());
        assert(v@.subrange(0, v@.len() as int) =~= s@);
        let t = sub_vec(&v, a, b);
        if t.len() == 0 {
            return None;
        }
        let (k, http_mode, tls0) = split_scheme(&t);
        let rest_end = match index_of_char(&t, '/', k) {
            Some(j) => {
                proof {
                    lemma_index_of_found(t@, '/', k as int);
                }
                j
            },
            None => t.len(),
        };
        if rest_end == k {
            return None;
        }
        let key = match extract_key(&t) {
            Some(key) => key,
            None => return None,
        };
        let tls_mark = chars_of("tls=1");
        let tls = tls0 || find_in(&t, &tls_mark, 0).is_some();
        let rest = sub_vec(&t, k, rest_end);
        let (host, port) = match split_host_port(&rest) {
            Some(hp) => hp,
            None => return None,
        };
        let port = match port {
            Some(p) => p,
            None => if tls {
                443
            } else {
                DEFAULT_LINK_PORT
            },
        };
        let web_host = extract_web(&t);
        Some(Link { host, port, key, http_mode, tls, web_host })
    }

    /// The explicit `host:port` that a phone connects to.
    pub fn address(&self) -> (s: String)
        ensures
            s@ == self.host@ + ":"@ + dec(self.port as nat),
    {
        let mut s = String::new();
        push_str(&mut s, self.host.as_str());
        push_str(&mut s, ":");
        push_dec(&mut s, self.port as u64);
        assert(s@ =~= self.host@ + ":"@ + dec(self.port as nat));
        s
    }
}

// ------------------------------------------------------------------ channel messages

/// Which end of a channel a party is.
#[derive(Clone, Copy, PartialEq, Eq, Debug)]
pub enum Role {
    Server,
    Client,
}

/// Summary of one DSH session, shown on the phone.
#[derive(Clone, PartialEq, Debug)]
pub struct Session {
    pub id: String,
    pub title: String,
    pub updated_unix: u64,
}

/// A channel message; on the wire its `type` field names the variant.
#[derive(Clone, PartialEq, Debug)]
pub enum Message {
    /// The client's greeting, sent first on a new connection.
    Hello { client_id: String, name: String, role: Role },
    /// The server's answer to a greeting.
    HelloAck { server_id: String, name: String },
    /// A remote instruction for a session.
    SendMsg { session_id: Option<String>, text: String },
    /// The server's list of DSH sessions.
    SessionSnap { sessions: Vec<Session> },
    /// A session event (created, updated, ended).
    Event { kind: String, session_id: Option<String> },
    /// Generic acknowledgement or error reply.
    Ack { ok: bool, reason: Option<String> },
}

/// A message with the protocol version beside it: `{ "ver": 1, "type": ..., ... }`.
#[derive(Clone, PartialEq, Debug)]
pub struct Envelope {
    pub ver: u8,
    pub msg: Message,
}

impl Envelope {
    /// A message under the current protocol version.
    pub fn wrap(msg: Message) -> (e: Envelope)
        ensures
            e == (Envelope { ver: PROTOCOL_VERSION, msg }),
    {
        Envelope { ver: PROTOCOL_VERSION, msg }
    }

    /// A decoded envelope is accepted only under the current protocol version.
    pub fn accept_version(e: Envelope) -> (r: Option<Envelope>)
        ensures
            e.ver == PROTOCOL_VERSION ==> r == Some(e),
            e.ver != PROTOCOL_VERSION ==> r is None,
    {
        if e.ver == PROTOCOL_VERSION {
            Some(e)
        } else {
            None
        }
    }
}

} // verus!
