//! Laws of the pairing link: a key read back from its hex text, and a link
//! parsed back from its QR text.

use vstd::prelude::*;

use crate::link::{
    all_hex, authority_of, extract_key_spec, extract_web_spec, from_hex_spec, hex_spec,
    hex_val_spec, is_sep, key_after, key_bytes_spec, marker_value, nibble_char, parse_spec,
    qr_spec, scheme_of, scheme_split, sep_end, split_host_port_spec, web_after, web_param,
    LinkModel, DEFAULT_LINK_PORT, SCHEME, SCHEME_HTTP, SCHEME_WSS,
};
use crate::text::{
    ascii_lower, ascii_upper, contains, dec, find, find_from, index_of, index_of_from, is_digit,
    is_ws, lemma_dec, lemma_find_from_first, lemma_find_from_none, lemma_index_of_first,
    lemma_parse_dec, lemma_rindex_of, lemma_rindex_of_last, lemma_trim_noop, lower, matches_at,
    parse_u16_spec, rindex_of, starts_with, trim, upper,
};

verus! {

/// Facts about one hex digit.
proof fn lemma_nibble(d: nat)
    requires
        d < 16,
    ensures
        hex_val_spec(nibble_char(d)) == Some(d as u8),
        hex_val_spec(ascii_upper(nibble_char(d))) == Some(d as u8),
        !is_ws(nibble_char(d)),
        !is_ws(ascii_upper(nibble_char(d))),
        !is_sep(nibble_char(d)),
        '0' <= nibble_char(d) <= '9' || 'a' <= nibble_char(d) <= 'f',
{
    if d < 10 {
        assert((nibble_char(d) as u32) == 48 + d);
    } else {
        assert((nibble_char(d) as u32) == 97 + (d - 10));
        assert((ascii_upper(nibble_char(d)) as u32) == 65 + (d - 10));
    }
}

/// Each character of a hex encoding is the digit of one nibble.
proof fn lemma_hex_chars(b: Seq<u8>, j: int)
    requires
        0 <= j < 2 * b.len(),
    ensures
        hex_spec(b)[j] == nibble_char(
            (if j % 2 == 0 {
                b[j / 2] / 16
            } else {
                b[j / 2] % 16
            }) as nat,
        ),
        hex_val_spec(hex_spec(b)[j]) is Some,
        !is_ws(hex_spec(b)[j]),
        !is_sep(hex_spec(b)[j]),
        '0' <= hex_spec(b)[j] <= '9' || 'a' <= hex_spec(b)[j] <= 'f',
{
    let x = b[j / 2];
    lemma_nibble((x / 16) as nat);
    lemma_nibble((x % 16) as nat);
}

/// The key bytes spelled by a hex encoding (in either case) are the encoded bytes.
proof fn lemma_key_bytes_of_hex(b: Seq<u8>, t: Seq<char>)
    requires
        b.len() == 20,
        t == hex_spec(b) || t == upper(hex_spec(b)),
    ensures
        key_bytes_spec(t) == Some(b),
{
    let h = hex_spec(b);
    assert forall|j: int| 0 <= j < 40 implies hex_val_spec(#[trigger] t[j]) == Some(
        (if j % 2 == 0 {
            b[j / 2] / 16
        } else {
            b[j / 2] % 16
        }) as u8,
    ) by {
        lemma_hex_chars(b, j);
        let d = (if j % 2 == 0 {
            b[j / 2] / 16
        } else {
            b[j / 2] % 16
        }) as nat;
        lemma_nibble(d);
    }
    assert(all_hex(t));
    let got = key_bytes_spec(t)->0;
    assert forall|i: int| 0 <= i < 20 implies got[i] == b[i] by {
        assert((2 * i) % 2 == 0 && (2 * i) / 2 == i);
        assert((2 * i + 1) % 2 == 1 && (2 * i + 1) / 2 == i);
        assert(hex_val_spec(t[2 * i]) == Some((b[i] / 16) as u8));
        assert(hex_val_spec(t[2 * i + 1]) == Some((b[i] % 16) as u8));
        assert(b[i] == (b[i] / 16) * 16 + b[i] % 16);
    }
    assert(got =~= b);
}

/// A hex encoding has no whitespace at its ends.
proof fn lemma_hex_trim(b: Seq<u8>)
    requires
        b.len() == 20,
    ensures
        trim(hex_spec(b)) == hex_spec(b),
        trim(upper(hex_spec(b))) == upper(hex_spec(b)),
{
    lemma_hex_chars(b, 0);
    lemma_hex_chars(b, 39);
    let x0 = b[0];
    let x19 = b[19];
    lemma_nibble((x0 / 16) as nat);
    lemma_nibble((x19 % 16) as nat);
    lemma_trim_noop(hex_spec(b));
    lemma_trim_noop(upper(hex_spec(b)));
}

/// Law: a pairing key is read back from its hex text, whether that text is written in
/// lower or in upper case.
pub proof fn law_key_hex_roundtrip(b: Seq<u8>)
    requires
        b.len() == 20,
    ensures
        from_hex_spec(hex_spec(b)) == Some(b),
        from_hex_spec(upper(hex_spec(b))) == Some(b),
{
    lemma_hex_trim(b);
    lemma_key_bytes_of_hex(b, hex_spec(b));
    lemma_key_bytes_of_hex(b, upper(hex_spec(b)));
}


// ------------------------------------------------------------------ link text

/// Characters that a host must not hold for its link text to parse back to it.
pub open spec fn host_char_ok(c: char) -> bool {
    !(c == '/' || c == '#' || c == '?' || c == '&' || c == ':' || c == '[' || c == '=')
}

/// Characters that a web host must not hold for its link text to parse back to it.
pub open spec fn web_char_ok(c: char) -> bool {
    !is_sep(c) && c != '='
}

/// The links whose text parses back to them: a non-empty host without `/ # ? & : [ =`,
/// a 20-byte key, port 443 for TLS links (whose text carries no port), and a web host
/// only in the forms that carry one, non-empty and without `# ? & =` or whitespace.
pub open spec fn qr_roundtrips(m: LinkModel) -> bool {
    &&& m.host.len() > 0
    &&& forall|i: int| 0 <= i < m.host.len() ==> host_char_ok(#[trigger] m.host[i])
    &&& m.key.len() == 20
    &&& m.tls ==> m.port == 443
    &&& match m.web_host {
        Some(w) => {
            &&& m.http_mode || m.tls
            &&& w.len() > 0
            &&& forall|i: int| 0 <= i < w.len() ==> web_char_ok(#[trigger] w[i])
        },
        None => true,
    }
}

/// A match of a non-empty pattern starts with its first character.
proof fn lemma_match_first(s: Seq<char>, p: Seq<char>, i: int)
    requires
        matches_at(s, p, i),
        p.len() > 0,
    ensures
        s[i] == p[0],
        p.len() > 1 ==> s[i + 1] == p[1],
        p.len() > 2 ==> s[i + 2] == p[2],
        p.len() > 3 ==> s[i + 3] == p[3],
{
    assert(s.subrange(i, i + p.len())[0] == s[i]);
    if p.len() > 1 {
        assert(s.subrange(i, i + p.len())[1] == s[i + 1]);
    }
    if p.len() > 2 {
        assert(s.subrange(i, i + p.len())[2] == s[i + 2]);
    }
    if p.len() > 3 {
        assert(s.subrange(i, i + p.len())[3] == s[i + 3]);
    }
}

/// A pattern occurs where the text holds its characters.
proof fn lemma_match_here(s: Seq<char>, p: Seq<char>, i: int)
    requires
        0 <= i,
        i + p.len() <= s.len(),
        forall|k: int| 0 <= k < p.len() ==> s[i + k] == p[k],
    ensures
        matches_at(s, p, i),
{
    assert(s.subrange(i, i + p.len()) =~= p);
}

/// The first occurrence of a pattern whose first character does not occur earlier.
proof fn lemma_find_at(s: Seq<char>, p: Seq<char>, j: int)
    requires
        0 <= j,
        p.len() > 0,
        matches_at(s, p, j),
        forall|i: int| 0 <= i < j ==> s[i] != p[0],
    ensures
        find(s, p) == Some(j),
{
    assert forall|i: int| 0 <= i < j implies !matches_at(s, p, i) by {
        if matches_at(s, p, i) {
            lemma_match_first(s, p, i);
        }
    }
    lemma_find_from_first(s, p, 0, j);
}

/// A pattern whose first character does not occur is not found.
proof fn lemma_find_absent(s: Seq<char>, p: Seq<char>)
    requires
        p.len() > 0,
        forall|i: int| 0 <= i < s.len() ==> s[i] != p[0],
    ensures
        find(s, p) is None,
{
    assert forall|i: int| 0 <= i implies !matches_at(s, p, i) by {
        if matches_at(s, p, i) {
            lemma_match_first(s, p, i);
        }
    }
    lemma_find_from_none(s, p, 0);
}

/// A pattern whose first character is only ever followed by something else is not found.
proof fn lemma_find_absent2(s: Seq<char>, p: Seq<char>)
    requires
        p.len() > 1,
        forall|i: int| 0 <= i < s.len() - 1 && #[trigger] s[i] == p[0] ==> s[i + 1] != p[1],
    ensures
        find(s, p) is None,
{
    assert forall|i: int| 0 <= i implies !matches_at(s, p, i) by {
        if matches_at(s, p, i) {
            lemma_match_first(s, p, i);
        }
    }
    lemma_find_from_none(s, p, 0);
}

/// Where the first separator at or after `i` stands.
proof fn lemma_sep_end_at(t: Seq<char>, i: int, j: int)
    requires
        0 <= i <= j <= t.len(),
        forall|k: int| i <= k < j ==> !is_sep(#[trigger] t[k]),
        j == t.len() || is_sep(t[j]),
    ensures
        sep_end(t, i) == j,
    decreases j - i,
{
    if i < j {
        lemma_sep_end_at(t, i + 1, j);
    }
}

/// A sequence begins with `p` when it holds `p`'s characters first.
proof fn lemma_prefix(s: Seq<char>, p: Seq<char>)
    requires
        p.len() <= s.len(),
        forall|i: int| 0 <= i < p.len() ==> s[i] == p[i],
    ensures
        starts_with(s, p),
{
    assert(s.subrange(0, p.len() as int) =~= p);
}

/// A sequence does not begin with `p` when they differ at `i`.
proof fn lemma_not_prefix(s: Seq<char>, p: Seq<char>, i: int)
    requires
        0 <= i < p.len(),
        i < s.len() ==> s[i] != p[i],
    ensures
        !starts_with(s, p),
{
    if p.len() <= s.len() {
        assert(s.subrange(0, p.len() as int)[i] == s[i]);
    }
}

/// The literal pieces of a link text.
proof fn lemma_literals()
    ensures
        "://"@ == seq![':', '/', '/'],
        "/#key="@ == seq!['/', '#', 'k', 'e', 'y', '='],
        "/pair?key="@ == seq!['/', 'p', 'a', 'i', 'r', '?', 'k', 'e', 'y', '='],
        "&web="@ == seq!['&', 'w', 'e', 'b', '='],
        "#key="@ == seq!['#', 'k', 'e', 'y', '='],
        "?key="@ == seq!['?', 'k', 'e', 'y', '='],
        "&key="@ == seq!['&', 'k', 'e', 'y', '='],
        "?web="@ == seq!['?', 'w', 'e', 'b', '='],
        "#web="@ == seq!['#', 'w', 'e', 'b', '='],
        "tls=1"@ == seq!['t', 'l', 's', '=', '1'],
        ":"@ == seq![':'],
        "https"@ == seq!['h', 't', 't', 'p', 's'],
        SCHEME_HTTP@ == seq!['h', 't', 't', 'p'],
        SCHEME_WSS@ == seq!['d', 's', 'h', '-', 'l', 'i', 'n', 'k', '-', 'w', 's', 's'],
        SCHEME@ == seq!['d', 's', 'h', '-', 'l', 'i', 'n', 'k'],
        "dsh-link-wss://"@ == seq![
            'd', 's', 'h', '-', 'l', 'i', 'n', 'k', '-', 'w', 's', 's', ':', '/', '/'
        ],
        "dsh-link://"@ == seq!['d', 's', 'h', '-', 'l', 'i', 'n', 'k', ':', '/', '/'],
        "https://"@ == seq!['h', 't', 't', 'p', 's', ':', '/', '/'],
        "http://"@ == seq!['h', 't', 't', 'p', ':', '/', '/'],
{
    reveal_strlit("://");
    reveal_strlit("/#key=");
    reveal_strlit("/pair?key=");
    reveal_strlit("&web=");
    reveal_strlit("#key=");
    reveal_strlit("?key=");
    reveal_strlit("&key=");
    reveal_strlit("?web=");
    reveal_strlit("#web=");
    reveal_strlit("tls=1");
    reveal_strlit(":");
    reveal_strlit("https");
    reveal_strlit("http");
    reveal_strlit("dsh-link-wss");
    reveal_strlit("dsh-link");
    reveal_strlit("dsh-link-wss://");
    reveal_strlit("dsh-link://");
    reveal_strlit("https://");
    reveal_strlit("http://");
    assert("://"@ =~= seq![':', '/', '/']);
    assert("/#key="@ =~= seq!['/', '#', 'k', 'e', 'y', '=']);
    assert("/pair?key="@ =~= seq!['/', 'p', 'a', 'i', 'r', '?', 'k', 'e', 'y', '=']);
    assert("&web="@ =~= seq!['&', 'w', 'e', 'b', '=']);
    assert("#key="@ =~= seq!['#', 'k', 'e', 'y', '=']);
    assert("?key="@ =~= seq!['?', 'k', 'e', 'y', '=']);
    assert("&key="@ =~= seq!['&', 'k', 'e', 'y', '=']);
    assert("?web="@ =~= seq!['?', 'w', 'e', 'b', '=']);
    assert("#web="@ =~= seq!['#', 'w', 'e', 'b', '=']);
    assert("tls=1"@ =~= seq!['t', 'l', 's', '=', '1']);
    assert(":"@ =~= seq![':']);
    assert("https"@ =~= seq!['h', 't', 't', 'p', 's']);
    assert(SCHEME_HTTP@ =~= seq!['h', 't', 't', 'p']);
    assert(SCHEME_WSS@ =~= seq!['d', 's', 'h', '-', 'l', 'i', 'n', 'k', '-', 'w', 's', 's']);
    assert(SCHEME@ =~= seq!['d', 's', 'h', '-', 'l', 'i', 'n', 'k']);
    assert("dsh-link-wss://"@ =~= seq![
        'd', 's', 'h', '-', 'l', 'i', 'n', 'k', '-', 'w', 's', 's', ':', '/', '/'
    ]);
    assert("dsh-link://"@ =~= seq!['d', 's', 'h', '-', 'l', 'i', 'n', 'k', ':', '/', '/']);
    assert("https://"@ =~= seq!['h', 't', 't', 'p', 's', ':', '/', '/']);
    assert("http://"@ =~= seq!['h', 't', 't', 'p', ':', '/', '/']);
}


/// The characters of a scheme: lower-case ASCII letters and `-`.
proof fn lemma_scheme_chars(m: LinkModel)
    ensures
        scheme_of(m).len() > 0,
        scheme_of(m)[0] == 'h' || scheme_of(m)[0] == 'd',
        forall|i: int|
            0 <= i < scheme_of(m).len() ==> (('a' <= #[trigger] scheme_of(m)[i] && scheme_of(m)[i]
                <= 'z') || scheme_of(m)[i] == '-'),
{
    lemma_literals();
}

/// The characters of an authority: host characters, and for plain links `:` and digits.
proof fn lemma_authority_chars(m: LinkModel)
    requires
        qr_roundtrips(m),
    ensures
        authority_of(m).len() > 0,
        authority_of(m)[0] != '[',
        forall|i: int|
            0 <= i < authority_of(m).len() ==> {
                let c = #[trigger] authority_of(m)[i];
                c != '/' && c != '#' && c != '?' && c != '&' && c != '='
            },
{
    lemma_literals();
    let a = authority_of(m);
    if !m.tls {
        lemma_dec(m.port as nat);
        let d = dec(m.port as nat);
        assert forall|i: int| 0 <= i < a.len() implies {
            let c = #[trigger] a[i];
            c != '/' && c != '#' && c != '?' && c != '&' && c != '='
        } by {
            if i < m.host.len() {
                assert(host_char_ok(m.host[i]));
            } else if i > m.host.len() {
                assert(is_digit(d[i - m.host.len() - 1]));
            }
        }
        assert(host_char_ok(m.host[0]));
    } else {
        assert(host_char_ok(m.host[0]));
        assert forall|i: int| 0 <= i < a.len() implies {
            let c = #[trigger] a[i];
            c != '/' && c != '#' && c != '?' && c != '&' && c != '='
        } by {
            assert(host_char_ok(m.host[i]));
        }
    }
}

/// The host and port that the authority of a link splits into.
proof fn lemma_split_authority(m: LinkModel)
    requires
        qr_roundtrips(m),
    ensures
        split_host_port_spec(authority_of(m)) == Some(
            (m.host, if m.tls {
                None::<u16>
            } else {
                Some(m.port)
            }),
        ),
{
    lemma_literals();
    lemma_authority_chars(m);
    let a = authority_of(m);
    let h = m.host;
    if m.tls {
        lemma_rindex_of(a, ':');
        if rindex_of(a, ':') is Some {
            let j = rindex_of(a, ':')->0;
            assert(host_char_ok(h[j]));
        }
    } else {
        lemma_dec(m.port as nat);
        let d = dec(m.port as nat);
        assert(a[h.len() as int] == ':');
        assert forall|k: int| h.len() < k < a.len() implies a[k] != ':' by {
            assert(a[k] == d[k - h.len() - 1]);
            assert(is_digit(d[k - h.len() - 1]));
        }
        lemma_rindex_of_last(a, ':', h.len() as int);
        assert(a.take(h.len() as int) =~= h);
        assert(a.skip(h.len() as int + 1) =~= d);
        lemma_parse_dec(m.port);
    }
}

/// The key marker of a link text.
pub open spec fn key_piece(m: LinkModel) -> Seq<char> {
    if m.http_mode {
        "/pair?key="@
    } else {
        "/#key="@
    }
}

/// The web parameter as it appears in a link text.
pub open spec fn web_piece(m: LinkModel) -> Seq<char> {
    if m.http_mode || m.tls {
        web_param(m)
    } else {
        Seq::<char>::empty()
    }
}

/// The web host, or nothing.
pub open spec fn web_host_or_empty(m: LinkModel) -> Seq<char> {
    match m.web_host {
        Some(x) => x,
        None => Seq::<char>::empty(),
    }
}

/// Where the authority starts in a link text.
pub open spec fn pos_authority(m: LinkModel) -> int {
    scheme_of(m).len() as int + 3
}

/// Where the key marker starts in a link text.
pub open spec fn pos_marker(m: LinkModel) -> int {
    pos_authority(m) + authority_of(m).len()
}

/// Where the hex key starts in a link text.
pub open spec fn pos_hex(m: LinkModel) -> int {
    pos_marker(m) + key_piece(m).len()
}

/// Where the web parameter starts in a link text.
pub open spec fn pos_web(m: LinkModel) -> int {
    pos_hex(m) + 40
}

/// Where each piece of a link text stands.
proof fn lemma_layout(m: LinkModel)
    requires
        m.key.len() == 20,
    ensures
        qr_spec(m).len() == pos_web(m) + web_piece(m).len(),
        forall|i: int| 0 <= i < scheme_of(m).len() ==> #[trigger] qr_spec(m)[i] == scheme_of(m)[i],
        qr_spec(m)[scheme_of(m).len() as int] == ':',
        qr_spec(m)[scheme_of(m).len() as int + 1] == '/',
        qr_spec(m)[scheme_of(m).len() as int + 2] == '/',
        forall|i: int|
            pos_authority(m) <= i < pos_marker(m) ==> #[trigger] qr_spec(m)[i] == authority_of(
                m,
            )[i - pos_authority(m)],
        forall|i: int|
            pos_marker(m) <= i < pos_hex(m) ==> #[trigger] qr_spec(m)[i] == key_piece(m)[i
                - pos_marker(m)],
        forall|i: int|
            pos_hex(m) <= i < pos_web(m) ==> #[trigger] qr_spec(m)[i] == hex_spec(m.key)[i
                - pos_hex(m)],
        forall|i: int|
            pos_web(m) <= i < qr_spec(m).len() ==> #[trigger] qr_spec(m)[i] == web_piece(m)[i
                - pos_web(m)],
{
    lemma_literals();
    let t = qr_spec(m);
    let t1 = scheme_of(m) + "://"@;
    let t2 = t1 + authority_of(m);
    let t3 = t2 + key_piece(m);
    let t4 = t3 + hex_spec(m.key);
    assert(t =~= t4 + web_piece(m));
    let sl = scheme_of(m).len() as int;
    assert forall|i: int| 0 <= i < sl implies #[trigger] t[i] == scheme_of(m)[i] by {
        assert(t[i] == t4[i] && t4[i] == t3[i] && t3[i] == t2[i] && t2[i] == t1[i]);
    }
    assert(t[sl] == t1[sl]);
    assert(t[sl + 1] == t1[sl + 1]);
    assert(t[sl + 2] == t1[sl + 2]);
    assert forall|i: int| pos_authority(m) <= i < pos_marker(m) implies #[trigger] t[i]
        == authority_of(m)[i - pos_authority(m)] by {
        assert(t[i] == t4[i] && t4[i] == t3[i] && t3[i] == t2[i]);
    }
    assert forall|i: int| pos_marker(m) <= i < pos_hex(m) implies #[trigger] t[i] == key_piece(
        m,
    )[i - pos_marker(m)] by {
        assert(t[i] == t4[i] && t4[i] == t3[i]);
    }
    assert forall|i: int| pos_hex(m) <= i < pos_web(m) implies #[trigger] t[i] == hex_spec(
        m.key,
    )[i - pos_hex(m)] by {
        assert(t[i] == t4[i]);
    }
}

/// The character classes of the pieces of a link text.
proof fn lemma_text_chars(m: LinkModel)
    requires
        qr_roundtrips(m),
    ensures
        forall|i: int|
            0 <= i < pos_authority(m) ==> {
                let c = #[trigger] qr_spec(m)[i];
                !is_sep(c) && c != '=' && c != '[' && ascii_lower(c) == c
            },
        forall|i: int|
            pos_authority(m) <= i < pos_marker(m) ==> {
                let c = #[trigger] qr_spec(m)[i];
                c != '/' && c != '#' && c != '?' && c != '&' && c != '='
            },
        forall|i: int|
            pos_hex(m) <= i < pos_web(m) ==> {
                let c = #[trigger] qr_spec(m)[i];
                !is_sep(c) && c != '=' && c != '/' && !is_ws(c)
            },
        web_piece(m).len() > 0 ==> web_piece(m) == "&web="@ + web_host_or_empty(m)
            && m.web_host is Some,
        web_piece(m).len() == 0 || web_piece(m).len() > 5,
        forall|i: int|
            pos_web(m) + 5 <= i < qr_spec(m).len() ==> web_char_ok(#[trigger] qr_spec(m)[i]),
        !is_ws(qr_spec(m)[0]),
        !is_ws(qr_spec(m)[qr_spec(m).len() - 1]),
{
    lemma_literals();
    lemma_layout(m);
    lemma_scheme_chars(m);
    lemma_authority_chars(m);
    let t = qr_spec(m);
    let sl = scheme_of(m).len() as int;
    assert forall|i: int| 0 <= i < pos_authority(m) implies {
        let c = #[trigger] t[i];
        !is_sep(c) && c != '=' && c != '[' && ascii_lower(c) == c
    } by {
        if i < sl {
            assert(t[i] == scheme_of(m)[i]);
        }
    }
    assert forall|i: int| pos_authority(m) <= i < pos_marker(m) implies {
        let c = #[trigger] t[i];
        c != '/' && c != '#' && c != '?' && c != '&' && c != '='
    } by {
        assert(t[i] == authority_of(m)[i - pos_authority(m)]);
    }
    assert forall|i: int| pos_hex(m) <= i < pos_web(m) implies {
        let c = #[trigger] t[i];
        !is_sep(c) && c != '=' && c != '/' && !is_ws(c)
    } by {
        lemma_hex_chars(m.key, i - pos_hex(m));
    }
    let wh = web_host_or_empty(m);
    let w = web_piece(m);
    assert(w.len() > 0 ==> w =~= "&web="@ + wh && m.web_host is Some);
    assert forall|i: int| pos_web(m) + 5 <= i < t.len() implies web_char_ok(#[trigger] t[i]) by {
        assert(t[i] == w[i - pos_web(m)]);
        assert(w[i - pos_web(m)] == wh[i - pos_web(m) - 5]);
    }
    lemma_hex_chars(m.key, 39);
    assert(t[pos_hex(m) + 39] == hex_spec(m.key)[39]);
    assert(!is_ws(t[t.len() - 1])) by {
        if w.len() > 0 {
            assert(web_char_ok(t[t.len() - 1]));
        }
    }
    assert(t[0] == scheme_of(m)[0]);
}

/// A link text needs no trimming, and its scheme is read back.
proof fn lemma_text_scheme(m: LinkModel)
    requires
        qr_roundtrips(m),
    ensures
        trim(qr_spec(m)) == qr_spec(m),
        scheme_split(qr_spec(m)) == (pos_authority(m), m.http_mode, m.tls),
{
    lemma_literals();
    lemma_layout(m);
    lemma_text_chars(m);
    let t = qr_spec(m);
    lemma_trim_noop(t);
    let l = lower(t);
    assert forall|i: int| 0 <= i < pos_authority(m) implies l[i] == t[i] by {}
    let sc = scheme_of(m);
    assert forall|i: int| 0 <= i < sc.len() implies t[i] == sc[i] by {}
    if m.http_mode && m.tls {
        lemma_not_prefix(l, "dsh-link-wss://"@, 0);
        lemma_not_prefix(l, "dsh-link://"@, 0);
        lemma_prefix(l, "https://"@);
    } else if m.http_mode {
        lemma_not_prefix(l, "dsh-link-wss://"@, 0);
        lemma_not_prefix(l, "dsh-link://"@, 0);
        lemma_not_prefix(l, "https://"@, 4);
        lemma_prefix(l, "http://"@);
    } else if m.tls {
        lemma_prefix(l, "dsh-link-wss://"@);
    } else {
        lemma_not_prefix(l, "dsh-link-wss://"@, 8);
        lemma_prefix(l, "dsh-link://"@);
    }
}

/// The authority of a link text runs to the first `/` after the scheme.
proof fn lemma_text_authority(m: LinkModel)
    requires
        qr_roundtrips(m),
    ensures
        index_of_from(qr_spec(m), '/', pos_authority(m)) == Some(pos_marker(m)),
        qr_spec(m).subrange(pos_authority(m), pos_marker(m)) == authority_of(m),
{
    lemma_literals();
    lemma_layout(m);
    lemma_text_chars(m);
    let t = qr_spec(m);
    assert(t[pos_marker(m)] == key_piece(m)[0]);
    lemma_index_of_first(t, '/', pos_authority(m), pos_marker(m));
    assert(t.subrange(pos_authority(m), pos_marker(m)) =~= authority_of(m));
}

/// The key of a link text is read back.
#[verifier::rlimit(80)]
#[verifier::spinoff_prover]
proof fn lemma_text_key(m: LinkModel)
    requires
        qr_roundtrips(m),
    ensures
        extract_key_spec(qr_spec(m)) == Some(m.key),
{
    lemma_literals();
    lemma_layout(m);
    lemma_text_chars(m);
    let t = qr_spec(m);
    let h0 = pos_hex(m);
    let w0 = pos_web(m);
    let p0 = pos_marker(m);
    assert(sep_end(t, h0) == w0) by {
        if web_piece(m).len() > 0 {
            assert(t[w0] == '&');
        }
        lemma_sep_end_at(t, h0, w0);
    }
    assert(t.subrange(h0, w0) =~= hex_spec(m.key));
    law_key_hex_roundtrip(m.key);
    if m.http_mode {
        assert forall|i: int| 0 <= i < t.len() implies t[i] != '#' by {
            if pos_web(m) <= i < pos_web(m) + 5 {
                assert(t[i] == web_piece(m)[i - pos_web(m)]);
            }
        }
        lemma_find_absent(t, "#key="@);
        assert forall|i: int| 0 <= i < p0 + 5 implies t[i] != '?' by {}
        lemma_match_here(t, "?key="@, p0 + 5);
        lemma_find_at(t, "?key="@, p0 + 5);
        assert(marker_value(t, "?key="@) == Some(hex_spec(m.key)));
    } else {
        assert forall|i: int| 0 <= i < p0 + 1 implies t[i] != '#' by {}
        lemma_match_here(t, "#key="@, p0 + 1);
        lemma_find_at(t, "#key="@, p0 + 1);
        assert(marker_value(t, "#key="@) == Some(hex_spec(m.key)));
    }
}

/// A plain link text does not ask for TLS.
proof fn lemma_text_no_tls_mark(m: LinkModel)
    requires
        qr_roundtrips(m),
        !m.tls,
    ensures
        !contains(qr_spec(m), "tls=1"@),
{
    lemma_literals();
    lemma_layout(m);
    lemma_text_chars(m);
    let t = qr_spec(m);
    let k = pos_authority(m);
    let p0 = pos_marker(m);
    let h0 = pos_hex(m);
    let w0 = pos_web(m);
    assert forall|i: int| 0 <= i implies !matches_at(t, "tls=1"@, i) by {
        if matches_at(t, "tls=1"@, i) {
            lemma_match_first(t, "tls=1"@, i);
            let j = i + 3;
            assert(t[j] == '=');
            if j < k {
            } else if j < p0 {
            } else if j < h0 {
                assert(j == h0 - 1);
                assert(t[i + 2] == key_piece(m)[j - 2 - p0]);
            } else if j < w0 {
            } else if j < w0 + 5 {
                assert(t[j] == web_piece(m)[j - w0]);
                assert(j == w0 + 4);
                assert(t[i + 2] == web_piece(m)[j - 2 - w0]);
            } else {
                assert(web_char_ok(t[j]));
            }
        }
    }
    lemma_find_from_none(t, "tls=1"@, 0);
}

/// The web host of a link text is read back.
proof fn lemma_text_web(m: LinkModel)
    requires
        qr_roundtrips(m),
    ensures
        extract_web_spec(qr_spec(m)) == m.web_host,
{
    lemma_literals();
    lemma_layout(m);
    lemma_text_chars(m);
    let t = qr_spec(m);
    let p0 = pos_marker(m);
    let h0 = pos_hex(m);
    let w0 = pos_web(m);
    let n = t.len() as int;
    let wh = web_host_or_empty(m);
    if web_piece(m).len() > 0 {
        assert forall|i: int| 0 <= i < w0 implies t[i] != '&' by {}
        assert forall|i: int| 0 <= i < 5 implies t[w0 + i] == "&web="@[i] by {
            assert(t[w0 + i] == web_piece(m)[i]);
        }
        lemma_match_here(t, "&web="@, w0);
        lemma_find_at(t, "&web="@, w0);
        assert forall|i: int| w0 + 5 <= i < n implies !is_sep(#[trigger] t[i]) by {
            assert(web_char_ok(t[i]));
        }
        lemma_sep_end_at(t, w0 + 5, n);
        assert forall|i: int| 0 <= i < wh.len() implies t[w0 + 5 + i] == wh[i] by {
            assert(t[w0 + 5 + i] == web_piece(m)[5 + i]);
        }
        assert(t.subrange(w0 + 5, n) =~= wh);
        assert(web_char_ok(t[w0 + 5]) && web_char_ok(t[n - 1]));
        lemma_trim_noop(wh);
        assert(web_after(t, "&web="@) == Some(wh));
    } else {
        assert forall|i: int| 0 <= i < t.len() implies t[i] != '&' by {}
        lemma_find_absent(t, "&web="@);
        assert forall|i: int| 0 <= i < t.len() - 1 && #[trigger] t[i] == '?' implies t[i + 1]
            != 'w' by {
            assert(p0 <= i < h0);
            assert(t[i] == key_piece(m)[i - p0]);
            assert(t[i + 1] == key_piece(m)[i + 1 - p0]);
        }
        lemma_find_absent2(t, "?web="@);
        assert forall|i: int| 0 <= i < t.len() - 1 && #[trigger] t[i] == '#' implies t[i + 1]
            != 'w' by {
            assert(p0 <= i < h0);
            assert(t[i] == key_piece(m)[i - p0]);
            assert(t[i + 1] == key_piece(m)[i + 1 - p0]);
        }
        lemma_find_absent2(t, "#web="@);
    }
}

/// Law: the text of a link parses back to the same link, for every link whose host and
/// web host fit in a link text (see [`qr_roundtrips`]).
pub proof fn law_link_qr_roundtrip(m: LinkModel)
    requires
        qr_roundtrips(m),
    ensures
        parse_spec(qr_spec(m)) == Some(m),
{
    lemma_text_scheme(m);
    lemma_text_authority(m);
    lemma_text_key(m);
    lemma_text_web(m);
    lemma_split_authority(m);
    lemma_layout(m);
    if !m.tls {
        lemma_text_no_tls_mark(m);
    }
    let t = qr_spec(m);
    assert(t.len() > 0);
    assert(authority_of(m).len() > 0) by {
        lemma_authority_chars(m);
    }
}

// ------------------------------------------------------------------ links without a scheme

/// A link written without a scheme: `host:port/#key=<hex>`.
pub open spec fn bare_text(m: LinkModel) -> Seq<char> {
    authority_of(m) + "/#key="@ + hex_spec(m.key)
}

/// The plain links that a text without a scheme denotes: a non-empty host without
/// `/ # ? & : [ =` that does not start with whitespace, a 20-byte key, no TLS, no http
/// form and no web host.
pub open spec fn bare_form(m: LinkModel) -> bool {
    &&& qr_roundtrips(m)
    &&& !m.http_mode
    &&& !m.tls
    &&& m.web_host is None
    &&& !is_ws(m.host[0])
}

/// Where each piece of a text without a scheme stands.
proof fn lemma_bare_layout(m: LinkModel)
    requires
        bare_form(m),
    ensures
        authority_of(m).len() == m.host.len() + 1 + dec(m.port as nat).len(),
        dec(m.port as nat).len() > 0,
        bare_text(m).len() == authority_of(m).len() + 46,
        forall|i: int| 0 <= i < m.host.len() ==> #[trigger] bare_text(m)[i] == m.host[i],
        bare_text(m)[m.host.len() as int] == ':',
        forall|i: int|
            m.host.len() < i < authority_of(m).len() ==> is_digit(#[trigger] bare_text(m)[i]),
        bare_text(m)[authority_of(m).len() as int] == '/',
        bare_text(m)[authority_of(m).len() as int + 1] == '#',
        bare_text(m)[authority_of(m).len() as int + 2] == 'k',
        bare_text(m)[authority_of(m).len() as int + 3] == 'e',
        bare_text(m)[authority_of(m).len() as int + 4] == 'y',
        bare_text(m)[authority_of(m).len() as int + 5] == '=',
        forall|i: int|
            authority_of(m).len() + 6 <= i < bare_text(m).len() ==> #[trigger] bare_text(m)[i]
                == hex_spec(m.key)[i - authority_of(m).len() - 6],
{
    lemma_literals();
    lemma_dec(m.port as nat);
    let d = dec(m.port as nat);
    let h = m.host;
    let a = authority_of(m);
    let b = bare_text(m);
    let al = a.len() as int;
    assert(a =~= h + seq![':'] + d);
    let t1 = a + "/#key="@;
    assert(b =~= t1 + hex_spec(m.key));
    assert forall|i: int| 0 <= i < h.len() implies #[trigger] b[i] == h[i] by {
        assert(b[i] == t1[i] && t1[i] == a[i]);
    }
    assert(b[h.len() as int] == t1[h.len() as int]);
    assert forall|i: int| h.len() < i < al implies is_digit(#[trigger] b[i]) by {
        assert(b[i] == t1[i] && t1[i] == a[i] && a[i] == d[i - h.len() - 1]);
    }
    assert(b[al] == t1[al]);
    assert(b[al + 1] == t1[al + 1]);
    assert(b[al + 2] == t1[al + 2]);
    assert(b[al + 3] == t1[al + 3]);
    assert(b[al + 4] == t1[al + 4]);
    assert(b[al + 5] == t1[al + 5]);
}

/// The characters of a text without a scheme: `:` only after the host, no `/` before the
/// key marker, and none of `# ? & =` outside the marker.
proof fn lemma_bare_chars(m: LinkModel)
    requires
        bare_form(m),
    ensures
        forall|i: int| 0 <= i < bare_text(m).len() && #[trigger] bare_text(m)[i] == ':' ==> i
            == m.host.len(),
        forall|i: int| 0 <= i < authority_of(m).len() ==> #[trigger] bare_text(m)[i] != '/',
        forall|i: int|
            0 <= i < bare_text(m).len() ==> #[trigger] bare_text(m)[i] != '&' && bare_text(m)[i]
                != '?',
        forall|i: int|
            0 <= i < bare_text(m).len() && #[trigger] bare_text(m)[i] == '#' ==> i
                == authority_of(m).len() + 1,
        forall|i: int|
            0 <= i < bare_text(m).len() && #[trigger] bare_text(m)[i] == '=' ==> i
                == authority_of(m).len() + 5,
        forall|i: int| authority_of(m).len() + 6 <= i < bare_text(m).len() ==> !is_sep(#[trigger] bare_text(m)[i]),
{
    lemma_bare_layout(m);
    let b = bare_text(m);
    let h = m.host.len() as int;
    let al = authority_of(m).len() as int;
    assert forall|i: int| 0 <= i < b.len() implies {
        let c = #[trigger] b[i];
        &&& (c == ':' ==> i == h)
        &&& (i < al ==> c != '/')
        &&& c != '&' && c != '?'
        &&& (c == '#' ==> i == al + 1)
        &&& (c == '=' ==> i == al + 5)
        &&& (al + 6 <= i ==> !is_sep(c))
    } by {
        if i < h {
            assert(host_char_ok(m.host[i]));
        } else if i == h {
        } else if i < al {
            assert(is_digit(b[i]));
        } else if i < al + 6 {
        } else {
            lemma_hex_chars(m.key, i - al - 6);
        }
    }
}

/// A text without a scheme is read as having none.
proof fn lemma_bare_scheme(m: LinkModel)
    requires
        bare_form(m),
    ensures
        trim(bare_text(m)) == bare_text(m),
        scheme_split(bare_text(m)) == (0int, false, false),
{
    lemma_literals();
    lemma_bare_layout(m);
    lemma_bare_chars(m);
    let b = bare_text(m);
    let h = m.host.len() as int;
    lemma_hex_chars(m.key, 39);
    assert(b[b.len() - 1] == hex_spec(m.key)[39]);
    lemma_trim_noop(b);
    let l = lower(b);
    assert forall|i: int| 0 <= i < b.len() implies (#[trigger] l[i] == ':') == (b[i] == ':') && (l[i]
        == '/') == (b[i] == '/') by {}
    assert(is_digit(b[h + 1]));
    // each scheme has `:` then `/` at its end; the text's only `:` is followed by a digit
    let schemes = seq!["dsh-link-wss://"@, "dsh-link://"@, "https://"@, "http://"@];
    assert forall|k: int| 0 <= k < 4 implies !starts_with(l, #[trigger] schemes[k]) by {
        let p = schemes[k];
        let j = p.len() - 3;
        assert(p[j] == ':' && p[j + 1] == '/');
        if b[j] == ':' {
            assert(j == h);
            lemma_not_prefix(l, p, j + 1);
        } else {
            lemma_not_prefix(l, p, j);
        }
    }
    assert(!starts_with(l, schemes[0]));
    assert(!starts_with(l, schemes[1]));
    assert(!starts_with(l, schemes[2]));
    assert(!starts_with(l, schemes[3]));
}

/// The key of a text without a scheme is read back, and nothing else is found in it.
proof fn lemma_bare_params(m: LinkModel)
    requires
        bare_form(m),
    ensures
        extract_key_spec(bare_text(m)) == Some(m.key),
        !contains(bare_text(m), "tls=1"@),
        extract_web_spec(bare_text(m)) is None,
{
    lemma_literals();
    lemma_bare_layout(m);
    lemma_bare_chars(m);
    let b = bare_text(m);
    let al = authority_of(m).len() as int;
    let n = b.len() as int;
    lemma_match_here(b, "#key="@, al + 1);
    lemma_find_at(b, "#key="@, al + 1);
    lemma_sep_end_at(b, al + 6, n);
    assert(b.subrange(al + 6, n) =~= hex_spec(m.key));
    law_key_hex_roundtrip(m.key);
    assert(marker_value(b, "#key="@) == Some(hex_spec(m.key)));
    assert forall|i: int| 0 <= i implies !matches_at(b, "tls=1"@, i) by {
        if matches_at(b, "tls=1"@, i) {
            lemma_match_first(b, "tls=1"@, i);
            assert(b[i + 3] == '=');
            assert(i + 3 == al + 5);
        }
    }
    lemma_find_from_none(b, "tls=1"@, 0);
    lemma_find_absent(b, "&web="@);
    lemma_find_absent(b, "?web="@);
    assert forall|i: int| 0 <= i < b.len() - 1 && #[trigger] b[i] == '#' implies b[i + 1] != 'w' by {
        assert(i == al + 1);
    }
    lemma_find_absent2(b, "#web="@);
}

/// Law: a link written without a scheme, `host:port/#key=<40 hex digits>`, is read as the
/// plain link with that host, that port and that key: no TLS, not the http form, and no
/// web host.
pub proof fn law_bare_link_parses(m: LinkModel)
    requires
        bare_form(m),
    ensures
        parse_spec(bare_text(m)) == Some(m),
{
    lemma_bare_layout(m);
    lemma_bare_chars(m);
    lemma_bare_scheme(m);
    lemma_bare_params(m);
    lemma_split_authority(m);
    let b = bare_text(m);
    let al = authority_of(m).len() as int;
    lemma_index_of_first(b, '/', 0, al);
    assert(b.subrange(0, al) =~= authority_of(m)) by {
        assert forall|i: int| 0 <= i < al implies b.subrange(0, al)[i] == authority_of(m)[i] by {
            lemma_literals();
            assert(authority_of(m) + "/#key="@ + hex_spec(m.key) =~= b);
        }
    }
}

} // verus!
