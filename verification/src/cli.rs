//! Command-line options of the daemons, and the endpoints they are given.

use vstd::prelude::*;

use crate::text::string_views;

use crate::link::{
    split_host_port, split_host_port_spec, starts_with_lower, sub_vec, DEFAULT_LINK_PORT,
};
use crate::text::{
    before, chars_of, index_of_char, lemma_index_of_found, lower, starts_with, string_of, trim,
    trim_bounds,
};

verus! {

/// The value of option `name` from position `i` on: the argument after its first
/// occurrence, or `default` when it does not occur or is last.
pub open spec fn flag_from(args: Seq<Seq<char>>, name: Seq<char>, default: Seq<char>, i: int) -> Seq<
    char,
>
    decreases args.len() - i,
{
    if i < 0 || i >= args.len() {
        default
    } else if args[i] == name {
        if i + 1 < args.len() {
            args[i + 1]
        } else {
            default
        }
    } else {
        flag_from(args, name, default, i + 1)
    }
}

/// Whether two string slices hold the same characters.
pub fn same_str(a: &str, b: &str) -> (r: bool)
    ensures
        r == (a@ == b@),
{
    let va = chars_of(a);
    let vb = chars_of(b);
    if va.len() != vb.len() {
        return false;
    }
    let mut i: usize = 0;
    while i < va.len()
        invariant
            va@ == a@,
            vb@ == b@,
            va@.len() == vb@.len(),
            i <= va@.len(),
            forall|k: int| 0 <= k < i ==> va@[k] == vb@[k],
        decreases va@.len() - i,
    {
        if va[i] != vb[i] {
            return false;
        }
        i = i + 1;
    }
    assert(va@ =~= vb@);
    true
}

/// The value of option `name`: the argument after its first occurrence, or `default`.
pub fn flag(args: &[String], name: &str, default: &str) -> (r: String)
    ensures
        r@ == flag_from(string_views(args@), name@, default@, 0),
{
    let ghost v = string_views(args@);
    let mut i: usize = 0;
    while i < args.len()
        invariant
            i <= args@.len(),
            v == string_views(args@),
            flag_from(v, name@, default@, 0) == flag_from(v, name@, default@, i as int),
        decreases args@.len() - i,
    {
        if same_str(args[i].as_str(), name) {
            if i + 1 < args.len() {
                return args[i + 1].clone();
            }
            return default.to_owned();
        }
        i = i + 1;
    }
    default.to_owned()
}

/// Whether `name` is among the arguments.
pub fn has(args: &[String], name: &str) -> (r: bool)
    ensures
        r == string_views(args@).contains(name@),
{
    let ghost v = string_views(args@);
    let mut i: usize = 0;
    while i < args.len()
        invariant
            i <= args@.len(),
            v == string_views(args@),
            forall|k: int| 0 <= k < i ==> v[k] != name@,
        decreases args@.len() - i,
    {
        if same_str(args[i].as_str(), name) {
            assert(v[i as int] == name@);
            return true;
        }
        i = i + 1;
    }
    false
}

/// `host:port` (or `[v6]:port`) with surrounding whitespace ignored; the port is required.
pub open spec fn parse_endpoint_spec(s: Seq<char>) -> Option<(Seq<char>, u16)> {
    let t = trim(s);
    if t.len() == 0 {
        None
    } else {
        match split_host_port_spec(t) {
            Some((h, Some(p))) => Some((h, p)),
            _ => None,
        }
    }
}

/// Parses `host:port` (IPv6 as `[::1]:port`); `None` without a port.
pub fn parse_endpoint(s: &str) -> (r: Option<(String, u16)>)
    ensures
        r is Some <==> parse_endpoint_spec(s@) is Some,
        r matches Some((h, p)) ==> parse_endpoint_spec(s@) == Some((h@, p)),
{
    let v = chars_of(s);
    assert(v@.subrange(0, v@.len() as int) =~= s@);
    endpoint_in(&v, 0, v.len())
}

/// [`parse_endpoint`] on `v[lo..hi]`.
fn endpoint_in(v: &Vec<char>, lo: usize, hi: usize) -> (r: Option<(String, u16)>)
    requires
        lo <= hi <= v@.len(),
    ensures
        r is Some <==> parse_endpoint_spec(v@.subrange(lo as int, hi as int)) is Some,
        r matches Some((h, p)) ==> parse_endpoint_spec(v@.subrange(lo as int, hi as int)) == Some(
            (h@, p),
        ),
{
    let (a, b) = trim_bounds(v, lo, hi);
    if a == b {
        return None;
    }
    let t = sub_vec(v, a, b);
    match split_host_port(&t) {
        Some((h, Some(p))) => Some((h, p)),
        _ => None,
    }
}

/// Scheme prefix of an advertised address: its length and whether it means TLS.
pub open spec fn advertise_scheme(t: Seq<char>) -> (int, bool) {
    if starts_with(lower(t), "wss://"@) {
        (6, true)
    } else if starts_with(lower(t), "https://"@) {
        (8, true)
    } else if starts_with(lower(t), "ws://"@) {
        (5, false)
    } else if starts_with(lower(t), "http://"@) {
        (7, false)
    } else {
        (0, false)
    }
}

/// `--advertise`: `host`, `host:port`, or either behind `wss://`, `https://`, `ws://`,
/// `http://` (any case); a path is dropped; without a port, 443 under TLS and the link
/// port otherwise.
pub open spec fn parse_advertise_spec(s: Seq<char>) -> Option<(Seq<char>, u16, bool)> {
    let t = trim(s);
    if t.len() == 0 {
        None
    } else {
        let (k, tls) = advertise_scheme(t);
        let rest = before(t.skip(k), '/');
        let (host, port) = match parse_endpoint_spec(rest) {
            Some((h, p)) => (h, p),
            None => (rest, 0u16),
        };
        let port = if port != 0 {
            port
        } else if tls {
            443u16
        } else {
            DEFAULT_LINK_PORT
        };
        Some((host, port, tls))
    }
}

/// Parses an `--advertise` address into `(host, port, tls)`.
pub fn parse_advertise(s: &str) -> (r: Option<(String, u16, bool)>)
    ensures
        r is Some <==> parse_advertise_spec(s@) is Some,
        r matches Some((h, p, t)) ==> parse_advertise_spec(s@) == Some((h@, p, t)),
{
    let v = chars_of(s);
    assert(v@.subrange(0, v@.len() as int) =~= s@);
    let (a, b) = trim_bounds(&v, 0, v.len());
    if a == b {
        return None;
    }
    let t = sub_vec(&v, a, b);
    proof {
        reveal_strlit("wss://");
        reveal_strlit("https://");
        reveal_strlit("ws://");
        reveal_strlit("http://");
    }
    let (k, tls): (usize, bool) = if starts_with_lower(&t, &chars_of("wss://")) {
        (6, true)
    } else if starts_with_lower(&t, &chars_of("https://")) {
        (8, true)
    } else if starts_with_lower(&t, &chars_of("ws://")) {
        (5, false)
    } else if starts_with_lower(&t, &chars_of("http://")) {
        (7, false)
    } else {
        (0, false)
    };
    assert(k as int == advertise_scheme(t@).0 && tls == advertise_scheme(t@).1);
    let end = match index_of_char(&t, '/', k) {
        Some(j) => j,
        None => t.len(),
    };
    proof {
        let r = t@.skip(k as int);
        lemma_index_of_found(t@, '/', k as int);
        crate::text::lemma_index_of_found(r, '/', 0);
        if end < t@.len() {
            assert forall|m: int| 0 <= m < end - k implies r[m] != '/' by {
                assert(r[m] == t@[k + m]);
            }
            crate::text::lemma_index_of_first(r, '/', 0, end - k);
            assert(r.take(end - k) =~= t@.subrange(k as int, end as int));
        } else {
            if crate::text::index_of(r, '/') is Some {
                let m = crate::text::index_of(r, '/')->0;
                assert(r[m] == t@[k + m]);
            }
            assert(r =~= t@.subrange(k as int, end as int));
        }
        assert(before(r, '/') == t@.subrange(k as int, end as int));
    }
    let (host, port) = match endpoint_in(&t, k, end) {
        Some((h, p)) => (h, p),
        None => (string_of(&t, k, end), 0u16),
    };
    let port = if port != 0 {
        port
    } else if tls {
        443
    } else {
        DEFAULT_LINK_PORT
    };
    Some((host, port, tls))
}

} // verus!
