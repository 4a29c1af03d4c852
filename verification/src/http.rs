//! The small HTTP layer of the pairing service and the relay: splitting a request head
//! into lines, reading header values, the request target and its query.

use vstd::prelude::*;

use crate::text::{
    before, ascii_lower, chars_of, index_of, index_of_char, index_of_from, is_whitespace, is_ws,
    lemma_index_of_found, lower, string_of, to_ascii_lower, trim, trim_bounds,
};

verus! {

// ------------------------------------------------------------------ request head

/// Where a request head ends: the first `\r\n\r\n`, if any (`find_double_crlf`).
pub open spec fn crlf2_from(b: Seq<u8>, i: int) -> Option<int>
    decreases b.len() - i,
{
    if i < 0 || i + 4 > b.len() {
        None
    } else if b[i] == 13u8 && b[i + 1] == 10u8 && b[i + 2] == 13u8 && b[i + 3] == 10u8 {
        Some(i)
    } else {
        crlf2_from(b, i + 1)
    }
}

/// Position of the first `\r\n\r\n` in `buf`.
pub fn find_double_crlf(buf: &[u8]) -> (r: Option<usize>)
    ensures
        r matches Some(i) ==> crlf2_from(buf@, 0) == Some(i as int),
        r is None ==> crlf2_from(buf@, 0) is None,
{
    if buf.len() < 4 {
        return None;
    }
    let mut i: usize = 0;
    while i < buf.len() - 3
        invariant
            buf@.len() >= 4,
            i + 3 <= buf@.len(),
            crlf2_from(buf@, 0) == crlf2_from(buf@, i as int),
        decreases buf@.len() - i,
    {
        if buf[i] == 13u8 && buf[i + 1] == 10u8 && buf[i + 2] == 13u8 && buf[i + 3] == 10u8 {
            return Some(i);
        }
        i = i + 1;
    }
    None
}

/// `line` without one trailing carriage return.
pub open spec fn strip_cr(x: Seq<char>) -> Seq<char> {
    if x.len() > 0 && x.last() == '\r' {
        x.drop_last()
    } else {
        x
    }
}

/// The lines of `s` (`str::lines`): split at `\n`, a `\r` before the `\n` dropped, and no
/// empty last line after a final `\n`.
pub open spec fn lines_spec(s: Seq<char>) -> Seq<Seq<char>>
    decreases s.len(),
{
    if s.len() == 0 {
        Seq::<Seq<char>>::empty()
    } else {
        match index_of(s, '\n') {
            Some(i) => {
                proof {
                    lemma_index_of_found(s, '\n', 0);
                }
                seq![strip_cr(s.take(i))] + lines_spec(s.skip(i + 1))
            },
            None => seq![s],
        }
    }
}

/// Bounds `(start, end)` of each line of `v[from..]`, as `str::lines` splits it.
pub(crate) fn line_bounds(v: &Vec<char>) -> (r: Vec<(usize, usize)>)
    ensures
        r@.len() == lines_spec(v@).len(),
        forall|j: int|
            #![trigger r@[j]]
            0 <= j < r@.len() ==> r@[j].0 <= r@[j].1 && r@[j].1 <= v@.len() && v@.subrange(
                r@[j].0 as int,
                r@[j].1 as int,
            ) == lines_spec(v@)[j],
{
    let mut out: Vec<(usize, usize)> = Vec::new();
    let mut pos: usize = 0;
    let n = v.len();
    let ghost done: Seq<Seq<char>> = Seq::empty();
    assert(v@.skip(0) =~= v@);
    while pos < n
        invariant
            n == v@.len(),
            pos <= n,
            out@.len() == done.len(),
            done + lines_spec(v@.skip(pos as int)) == lines_spec(v@),
            forall|j: int|
                #![trigger out@[j]]
                0 <= j < out@.len() ==> out@[j].0 <= out@[j].1 && out@[j].1 <= v@.len() && v@.subrange(
                    out@[j].0 as int,
                    out@[j].1 as int,
                ) == done[j],
        decreases n - pos,
    {
        let ghost rest = v@.skip(pos as int);
        match index_of_char(v, '\n', pos) {
            Some(i) => {
                proof {
                    lemma_index_of_found(v@, '\n', pos as int);
                    assert forall|k: int| 0 <= k < i - pos implies rest[k] != '\n' by {
                        assert(rest[k] == v@[pos + k]);
                    }
                    crate::text::lemma_index_of_first(rest, '\n', 0, i - pos);
                    assert(rest.take(i - pos) =~= v@.subrange(pos as int, i as int));
                    assert(rest.skip(i - pos + 1) =~= v@.skip(i + 1));
                }
                let end = if i > pos && v[i - 1] == '\r' {
                    i - 1
                } else {
                    i
                };
                let ghost old_done = done;
                let ghost old_out = out@;
                proof {
                    let line = v@.subrange(pos as int, i as int);
                    assert(v@.subrange(pos as int, end as int) =~= strip_cr(line));
                    done = done.push(strip_cr(line));
                    assert(lines_spec(rest) == seq![strip_cr(line)] + lines_spec(v@.skip(i + 1)));
                    assert(done + lines_spec(v@.skip(i + 1)) =~= lines_spec(v@));
                }
                out.push((pos, end));
                proof {
                    assert forall|j: int| 0 <= j < out@.len() implies #[trigger] out@[j].0 <= out@[j].1
                        && out@[j].1 <= v@.len() && v@.subrange(out@[j].0 as int, out@[j].1 as int)
                        == done[j] by {
                        if j < old_out.len() {
                            assert(out@[j] == old_out[j]);
                            assert(done[j] == old_done[j]);
                        }
                    }
                }
                assert(pos <= end);
                assert(end <= n);
                assert(out@[out@.len() - 1] == (pos, end));
                assert(out@[out@.len() - 1].0 <= out@[out@.len() - 1].1);
                pos = i + 1;
            },
            None => {
                proof {
                    lemma_index_of_found(v@, '\n', pos as int);
                    assert(index_of_from(v@, '\n', pos as int) is None);
                    assert(pos < n);
                    if index_of(rest, '\n') is Some {
                        lemma_index_of_found(rest, '\n', 0);
                        let k = index_of(rest, '\n')->0;
                        assert(rest[k] == v@[pos + k]);
                    }
                    assert(rest =~= v@.subrange(pos as int, n as int));
                }
                let ghost old_done = done;
                let ghost old_out = out@;
                proof {
                    done = done.push(rest);
                    assert(v@.skip(n as int) =~= Seq::<char>::empty());
                    assert(done + lines_spec(v@.skip(n as int)) =~= lines_spec(v@));
                }
                out.push((pos, n));
                assert(out@[out@.len() - 1].0 <= out@[out@.len() - 1].1);
                proof {
                    assert forall|j: int| 0 <= j < out@.len() implies #[trigger] out@[j].0 <= out@[j].1
                        && out@[j].1 <= v@.len() && v@.subrange(out@[j].0 as int, out@[j].1 as int)
                        == done[j] by {
                        if j < old_out.len() {
                            assert(out@[j] == old_out[j]);
                            assert(done[j] == old_done[j]);
                        }
                    }
                }
                pos = n;
            },
        }
    }
    assert(v@.skip(n as int) =~= Seq::<char>::empty());
    assert(done =~= lines_spec(v@));
    assert forall|j: int| 0 <= j < out@.len() implies #[trigger] out@[j].0 <= out@[j].1 && out@[j].1 <= v@.len()
        && v@.subrange(out@[j].0 as int, out@[j].1 as int) == lines_spec(v@)[j] by {
        assert(done[j] == lines_spec(v@)[j]);
    }
    out
}

/// Whether two character sequences are equal up to ASCII case (`eq_ignore_ascii_case`).
pub open spec fn eq_ignore_case(a: Seq<char>, b: Seq<char>) -> bool {
    lower(a) == lower(b)
}

/// Whether `v[lo..hi]` equals `name` up to ASCII case.
fn eq_ignore_case_at(v: &Vec<char>, lo: usize, hi: usize, name: &Vec<char>) -> (b: bool)
    requires
        lo <= hi <= v@.len(),
    ensures
        b == eq_ignore_case(v@.subrange(lo as int, hi as int), name@),
{
    let ghost a = v@.subrange(lo as int, hi as int);
    if hi - lo != name.len() {
        assert(lower(a).len() != lower(name@).len());
        return false;
    }
    let mut i: usize = 0;
    while i < name.len()
        invariant
            lo <= hi <= v@.len(),
            hi - lo == name@.len(),
            a == v@.subrange(lo as int, hi as int),
            i <= name@.len(),
            forall|k: int| 0 <= k < i ==> ascii_lower(a[k]) == ascii_lower(name@[k]),
        decreases name@.len() - i,
    {
        if to_ascii_lower(v[lo + i]) != to_ascii_lower(name[i]) {
            assert(lower(a)[i as int] != lower(name@)[i as int]);
            return false;
        }
        i = i + 1;
    }
    assert(lower(a) =~= lower(name@));
    true
}

/// `str::eq_ignore_ascii_case`.
pub fn eq_ignore_ascii_case(a: &str, b: &str) -> (r: bool)
    ensures
        r == eq_ignore_case(a@, b@),
{
    let va = chars_of(a);
    let vb = chars_of(b);
    assert(va@.subrange(0, va@.len() as int) =~= a@);
    eq_ignore_case_at(&va, 0, va.len(), &vb)
}

/// The value of the first header line (after the request line) named `name`.
pub open spec fn header_from(ls: Seq<Seq<char>>, name: Seq<char>, j: int) -> Option<Seq<char>>
    decreases ls.len() - j,
{
    if j < 0 || j >= ls.len() {
        None
    } else {
        match index_of(ls[j], ':') {
            Some(c) => if eq_ignore_case(trim(ls[j].take(c)), name) {
                Some(trim(ls[j].skip(c + 1)))
            } else {
                header_from(ls, name, j + 1)
            },
            None => header_from(ls, name, j + 1),
        }
    }
}

/// The value of header `name` in a request head (`header_val`).
pub open spec fn header_val_spec(head: Seq<char>, name: Seq<char>) -> Option<Seq<char>> {
    header_from(lines_spec(head), name, 1)
}

/// The value of header `name` in a request head: the first line after the request line
/// whose part before the first `:` equals `name` up to ASCII case, trimmed.
pub fn header_val(head: &str, name: &str) -> (r: Option<String>)
    ensures
        r matches Some(v) ==> header_val_spec(head@, name@) == Some(v@),
        r is None ==> header_val_spec(head@, name@) is None,
{
    let v = chars_of(head);
    let nm = chars_of(name);
    let bounds = line_bounds(&v);
    let ghost ls = lines_spec(v@);
    let mut j: usize = 1;
    while j < bounds.len()
        invariant
            1 <= j,
            v@ == head@,
            nm@ == name@,
            ls == lines_spec(v@),
            bounds@.len() == lines_spec(v@).len(),
            forall|q: int|
                #![trigger bounds@[q]]
                0 <= q < bounds@.len() ==> bounds@[q].0 <= bounds@[q].1 && bounds@[q].1 <= v@.len() && v@.subrange(
                    bounds@[q].0 as int,
                    bounds@[q].1 as int,
                ) == lines_spec(v@)[q],
            header_from(ls, nm@, 1) == header_from(ls, nm@, j as int),
        decreases bounds@.len() - j,
    {
        let (a, b) = bounds[j];
        let ghost line = ls[j as int];
        assert(v@.subrange(a as int, b as int) == line);
        match index_of_char(&v, ':', a) {
            Some(c) if c < b => {
                proof {
                    lemma_index_of_found(v@, ':', a as int);
                    assert forall|k: int| 0 <= k < c - a implies line[k] != ':' by {
                        assert(line[k] == v@[a + k]);
                    }
                    crate::text::lemma_index_of_first(line, ':', 0, c - a);
                    assert(line.take(c - a) =~= v@.subrange(a as int, c as int));
                    assert(line.skip(c - a + 1) =~= v@.subrange(c + 1, b as int));
                }
                let (x, y) = trim_bounds(&v, a, c);
                if eq_ignore_case_at(&v, x, y, &nm) {
                    let (p, q) = trim_bounds(&v, c + 1, b);
                    return Some(string_of(&v, p, q));
                }
            },
            _ => {
                proof {
                    lemma_index_of_found(v@, ':', a as int);
                    if index_of(line, ':') is Some {
                        lemma_index_of_found(line, ':', 0);
                        let k = index_of(line, ':')->0;
                        assert(line[k] == v@[a + k]);
                    }
                }
            },
        }
        j = j + 1;
    }
    None
}

/// The request line of a head: its first line, trimmed.
pub open spec fn request_line_spec(head: Seq<char>) -> Option<Seq<char>> {
    if lines_spec(head).len() > 0 {
        Some(trim(lines_spec(head)[0]))
    } else {
        None
    }
}

/// The request line of a head: its first line, trimmed.
pub fn request_line(head: &str) -> (r: Option<String>)
    ensures
        r matches Some(v) ==> request_line_spec(head@) == Some(v@),
        r is None ==> request_line_spec(head@) is None,
{
    let v = chars_of(head);
    let bounds = line_bounds(&v);
    if bounds.len() == 0 {
        return None;
    }
    let (a, b) = bounds[0];
    let (x, y) = trim_bounds(&v, a, b);
    Some(string_of(&v, x, y))
}

// ------------------------------------------------------------------ words and queries

/// First position at or after `i` whose whitespace-ness is `want`, or the length.
pub open spec fn scan_ws(s: Seq<char>, i: int, want: bool) -> int
    decreases s.len() - i,
{
    if i < 0 || i >= s.len() {
        s.len() as int
    } else if is_ws(s[i]) == want {
        i
    } else {
        scan_ws(s, i + 1, want)
    }
}

/// Bounds of a scan.
pub proof fn lemma_scan_ws(s: Seq<char>, i: int, want: bool)
    requires
        0 <= i <= s.len(),
    ensures
        i <= scan_ws(s, i, want) <= s.len(),
        forall|k: int| i <= k < scan_ws(s, i, want) ==> is_ws(#[trigger] s[k]) != want,
        scan_ws(s, i, want) < s.len() ==> is_ws(s[scan_ws(s, i, want)]) == want,
    decreases s.len() - i,
{
    if i < s.len() && is_ws(s[i]) != want {
        lemma_scan_ws(s, i + 1, want);
    }
}

/// See [`scan_ws`].
pub(crate) fn scan_ws_exec(v: &Vec<char>, from: usize, want: bool) -> (r: usize)
    requires
        from <= v@.len(),
    ensures
        r as int == scan_ws(v@, from as int, want),
{
    let mut i = from;
    while i < v.len()
        invariant
            from <= i <= v@.len(),
            scan_ws(v@, from as int, want) == scan_ws(v@, i as int, want),
        decreases v@.len() - i,
    {
        if is_whitespace(v[i]) == want {
            return i;
        }
        i = i + 1;
    }
    i
}

/// The first and second whitespace-separated words of `s`, as bounds.
pub open spec fn word_bounds(s: Seq<char>) -> (int, int, int, int) {
    let a0 = scan_ws(s, 0, false);
    let b0 = scan_ws(s, a0, true);
    let a1 = scan_ws(s, b0, false);
    let b1 = scan_ws(s, a1, true);
    (a0, b0, a1, b1)
}

/// The first two words of `s` (`split_whitespace().nth(0)` and `.nth(1)`), if `s` has two.
pub open spec fn two_words(s: Seq<char>) -> Option<(Seq<char>, Seq<char>)> {
    let (a0, b0, a1, b1) = word_bounds(s);
    if a1 < s.len() {
        Some((s.subrange(a0, b0), s.subrange(a1, b1)))
    } else {
        None
    }
}

/// See [`word_bounds`].
fn word_bounds_exec(v: &Vec<char>) -> (r: (usize, usize, usize, usize))
    ensures
        (r.0 as int, r.1 as int, r.2 as int, r.3 as int) == word_bounds(v@),
        r.0 <= r.1 <= r.2 <= r.3 <= v@.len(),
{
    proof {
        let (a0, b0, a1, b1) = word_bounds(v@);
        lemma_scan_ws(v@, 0, false);
        lemma_scan_ws(v@, a0, true);
        lemma_scan_ws(v@, b0, false);
        lemma_scan_ws(v@, a1, true);
    }
    let a0 = scan_ws_exec(v, 0, false);
    let b0 = scan_ws_exec(v, a0, true);
    let a1 = scan_ws_exec(v, b0, false);
    let b1 = scan_ws_exec(v, a1, true);
    (a0, b0, a1, b1)
}

/// The first line of a head (`head.lines().next()`, empty for an empty head).
pub open spec fn first_line(head: Seq<char>) -> Seq<char> {
    if lines_spec(head).len() > 0 {
        lines_spec(head)[0]
    } else {
        Seq::empty()
    }
}

/// The first two words of the first line of a head: the method and the target.
pub fn head_words(head: &str) -> (r: Option<(String, String)>)
    ensures
        r is Some <==> two_words(first_line(head@)) is Some,
        r matches Some((m, t)) ==> two_words(first_line(head@)) == Some((m@, t@)),
{
    let v = chars_of(head);
    let bounds = line_bounds(&v);
    let line = if bounds.len() == 0 {
        Vec::new()
    } else {
        let (a, b) = bounds[0];
        crate::link::sub_vec(&v, a, b)
    };
    assert(line@ == first_line(head@));
    let (a0, b0, a1, b1) = word_bounds_exec(&line);
    if a1 >= line.len() {
        return None;
    }
    Some((string_of(&line, a0, b0), string_of(&line, a1, b1)))
}

/// The path of a request target: the part before its first `?`.
pub fn target_path(target: &str) -> (r: String)
    ensures
        r@ == before(target@, '?'),
{
    let v = chars_of(target);
    match index_of_char(&v, '?', 0) {
        Some(i) => {
            proof {
                lemma_index_of_found(v@, '?', 0);
                assert(v@.take(i as int) =~= v@.subrange(0, i as int));
            }
            string_of(&v, 0, i)
        },
        None => {
            assert(v@.subrange(0, v@.len() as int) =~= v@);
            string_of(&v, 0, v.len())
        },
    }
}

/// The query of a request target, empty without one (`split('?').nth(1).unwrap_or("")`).
pub fn target_query(target: &str) -> (r: String)
    ensures
        r@ == (match query_of(target@) {
            Some(q) => q,
            None => Seq::empty(),
        }),
{
    let v = chars_of(target);
    assert(v@.subrange(0, v@.len() as int) =~= v@);
    match query_bounds(&v, 0, v.len()) {
        Some((a, b)) => string_of(&v, a, b),
        None => String::new(),
    }
}

/// The end of the `&`-separated segment of `q` that starts at `i`.
pub open spec fn seg_end(q: Seq<char>, i: int) -> int {
    match index_of_from(q, '&', i) {
        Some(j) => j,
        None => q.len() as int,
    }
}

/// The `key=value` split of a segment at its first `=`.
pub open spec fn split_pair(seg: Seq<char>) -> Option<(Seq<char>, Seq<char>)> {
    match index_of(seg, '=') {
        Some(x) => Some((seg.take(x), seg.skip(x + 1))),
        None => None,
    }
}

/// The segment end is within bounds.
pub proof fn lemma_seg_end(q: Seq<char>, i: int)
    requires
        0 <= i <= q.len(),
    ensures
        i <= seg_end(q, i) <= q.len(),
        seg_end(q, i) < q.len() ==> q[seg_end(q, i)] == '&',
        forall|k: int| i <= k < seg_end(q, i) ==> q[k] != '&',
{
    lemma_index_of_found(q, '&', i);
}

/// The first non-empty value of a `key` pair among the segments of `q` from `i` on.
pub open spec fn room_key_from(q: Seq<char>, i: int) -> Option<Seq<char>>
    decreases q.len() + 1 - i,
{
    if i < 0 || i > q.len() {
        None
    } else {
        let e = seg_end(q, i);
        let here = match split_pair(q.subrange(i, e)) {
            Some((k, v)) => if k == "key"@ && v.len() > 0 {
                Some(v)
            } else {
                None
            },
            None => None,
        };
        if here is Some {
            here
        } else if e >= q.len() {
            None
        } else {
            proof {
                lemma_seg_end(q, i);
            }
            room_key_from(q, e + 1)
        }
    }
}

/// The query of a request target: between its first and second `?` (`split('?').nth(1)`).
pub open spec fn query_of(target: Seq<char>) -> Option<Seq<char>> {
    match index_of(target, '?') {
        Some(i) => {
            let r = target.skip(i + 1);
            Some(
                match index_of(r, '?') {
                    Some(j) => r.take(j),
                    None => r,
                },
            )
        },
        None => None,
    }
}

/// The pairing key that a relay request line carries (`ws_key_from_query`).
pub open spec fn ws_key_from_query_spec(line: Seq<char>) -> Option<Seq<char>> {
    match two_words(line) {
        Some((_, path)) => match query_of(path) {
            Some(q) => room_key_from(q, 0),
            None => None,
        },
        None => None,
    }
}

/// Bounds of the query of `v[lo..hi]` (see [`query_of`]).
fn query_bounds(v: &Vec<char>, lo: usize, hi: usize) -> (r: Option<(usize, usize)>)
    requires
        lo <= hi <= v@.len(),
    ensures
        r is Some <==> query_of(v@.subrange(lo as int, hi as int)) is Some,
        r matches Some((a, b)) ==> lo <= a <= b <= hi && v@.subrange(a as int, b as int)
            == query_of(v@.subrange(lo as int, hi as int))->0,
{
    let ghost t = v@.subrange(lo as int, hi as int);
    match index_of_char(v, '?', lo) {
        Some(i) if i < hi => {
            proof {
                lemma_index_of_found(v@, '?', lo as int);
                assert forall|k: int| 0 <= k < i - lo implies t[k] != '?' by {
                    assert(t[k] == v@[lo + k]);
                }
                crate::text::lemma_index_of_first(t, '?', 0, i - lo);
            }
            let ghost r = t.skip(i - lo + 1);
            assert(r =~= v@.subrange(i + 1, hi as int));
            match index_of_char(v, '?', i + 1) {
                Some(j) if j < hi => {
                    proof {
                        lemma_index_of_found(v@, '?', i + 1);
                        assert forall|k: int| 0 <= k < j - i - 1 implies r[k] != '?' by {
                            assert(r[k] == v@[i + 1 + k]);
                        }
                        crate::text::lemma_index_of_first(r, '?', 0, j - i - 1);
                        assert(r.take(j - i - 1) =~= v@.subrange(i + 1, j as int));
                    }
                    Some((i + 1, j))
                },
                _ => {
                    proof {
                        lemma_index_of_found(v@, '?', i + 1);
                        if index_of(r, '?') is Some {
                            lemma_index_of_found(r, '?', 0);
                            let k = index_of(r, '?')->0;
                            assert(r[k] == v@[i + 1 + k]);
                        }
                    }
                    Some((i + 1, hi))
                },
            }
        },
        _ => {
            proof {
                lemma_index_of_found(v@, '?', lo as int);
                if index_of(t, '?') is Some {
                    lemma_index_of_found(t, '?', 0);
                    let k = index_of(t, '?')->0;
                    assert(t[k] == v@[lo + k]);
                }
            }
            None
        },
    }
}

/// The `key=value` bounds of the segment `v[a..e]`.
fn pair_bounds(v: &Vec<char>, a: usize, e: usize) -> (r: Option<usize>)
    requires
        a <= e <= v@.len(),
    ensures
        r is Some <==> split_pair(v@.subrange(a as int, e as int)) is Some,
        r matches Some(x) ==> a <= x < e && split_pair(v@.subrange(a as int, e as int)) == Some(
            (v@.subrange(a as int, x as int), v@.subrange(x + 1, e as int)),
        ),
{
    let ghost seg = v@.subrange(a as int, e as int);
    match index_of_char(v, '=', a) {
        Some(x) if x < e => {
            proof {
                lemma_index_of_found(v@, '=', a as int);
                assert forall|k: int| 0 <= k < x - a implies seg[k] != '=' by {
                    assert(seg[k] == v@[a + k]);
                }
                crate::text::lemma_index_of_first(seg, '=', 0, x - a);
                assert(seg.take(x - a) =~= v@.subrange(a as int, x as int));
                assert(seg.skip(x - a + 1) =~= v@.subrange(x + 1, e as int));
            }
            Some(x)
        },
        _ => {
            proof {
                lemma_index_of_found(v@, '=', a as int);
                if index_of(seg, '=') is Some {
                    lemma_index_of_found(seg, '=', 0);
                    let k = index_of(seg, '=')->0;
                    assert(seg[k] == v@[a + k]);
                }
            }
            None
        },
    }
}

/// The end of the `&`-separated segment starting at `v[i]` within `v[lo..hi]`.
fn seg_end_exec(v: &Vec<char>, lo: usize, hi: usize, i: usize) -> (e: usize)
    requires
        lo <= i <= hi <= v@.len(),
    ensures
        e as int == seg_end(v@.subrange(lo as int, hi as int), i - lo) + lo,
        i <= e <= hi,
{
    let ghost q = v@.subrange(lo as int, hi as int);
    proof {
        lemma_seg_end(q, i - lo);
    }
    let mut k = i;
    while k < hi
        invariant
            lo <= i <= k <= hi <= v@.len(),
            q == v@.subrange(lo as int, hi as int),
            forall|m: int| i <= m < k ==> v@[m] != '&',
        decreases hi - k,
    {
        if v[k] == '&' {
            proof {
                assert forall|m: int| i - lo <= m < k - lo implies q[m] != '&' by {
                    assert(q[m] == v@[lo + m]);
                }
                crate::text::lemma_index_of_first(q, '&', i - lo, k - lo);
            }
            return k;
        }
        k = k + 1;
    }
    proof {
        crate::text::lemma_index_of_none(q, '&', i - lo);
    }
    hi
}

/// The pairing key that a relay request line carries: the second word's query, its first
/// `key=<value>` pair with a non-empty value.
pub fn ws_key_from_query(request_line: &str) -> (r: Option<String>)
    ensures
        r matches Some(v) ==> ws_key_from_query_spec(request_line@) == Some(v@),
        r is None ==> ws_key_from_query_spec(request_line@) is None,
{
    let v = chars_of(request_line);
    let (a0, b0, a1, b1) = word_bounds_exec(&v);
    if a1 >= v.len() {
        return None;
    }
    let (qa, qb) = match query_bounds(&v, a1, b1) {
        Some(b) => b,
        None => return None,
    };
    let ghost q = v@.subrange(qa as int, qb as int);
    assert(ws_key_from_query_spec(request_line@) == room_key_from(q, 0));
    proof {
        reveal_strlit("key");
        assert("key"@ =~= seq!['k', 'e', 'y']);
    }
    let mut i = qa;
    while i <= qb
        invariant
            qa <= i <= qb,
            qb <= v@.len(),
            q == v@.subrange(qa as int, qb as int),
            "key"@ == seq!['k', 'e', 'y'],
            ws_key_from_query_spec(request_line@) == room_key_from(q, i - qa),
        decreases qb + 1 - i,
    {
        let e = seg_end_exec(&v, qa, qb, i);
        assert(q.subrange(i - qa, e - qa) =~= v@.subrange(i as int, e as int));
        match pair_bounds(&v, i, e) {
            Some(x) => {
                if x - i == 3 && v[i] == 'k' && v[i + 1] == 'e' && v[i + 2] == 'y' && x + 1 < e {
                    assert(v@.subrange(i as int, x as int) =~= "key"@);
                    return Some(string_of(&v, x + 1, e));
                }
                proof {
                    if v@.subrange(i as int, x as int) == "key"@ {
                        assert(x - i == 3);
                        assert(v@.subrange(i as int, x as int)[0] == v@[i as int]);
                        assert(v@.subrange(i as int, x as int)[1] == v@[i + 1]);
                        assert(v@.subrange(i as int, x as int)[2] == v@[i + 2]);
                    }
                }
            },
            None => {},
        }
        if e >= qb {
            return None;
        }
        i = e + 1;
    }
    None
}

/// The value of the last `name=value` pair among the `&`-separated segments of `q` from
/// `i` on (later pairs override earlier ones).
pub open spec fn query_value_from(q: Seq<char>, name: Seq<char>, i: int) -> Option<Seq<char>>
    decreases q.len() + 1 - i,
{
    if i < 0 || i > q.len() {
        None
    } else {
        let e = seg_end(q, i);
        let here = match split_pair(q.subrange(i, e)) {
            Some((k, v)) => if k == name {
                Some(v)
            } else {
                None
            },
            None => None,
        };
        let later = if e >= q.len() {
            None
        } else {
            proof {
                lemma_seg_end(q, i);
            }
            query_value_from(q, name, e + 1)
        };
        if later is Some {
            later
        } else {
            here
        }
    }
}

/// The value of the last `name=value` pair of a query string.
pub fn query_value(query: &str, name: &str) -> (r: Option<String>)
    ensures
        r matches Some(v) ==> query_value_from(query@, name@, 0) == Some(v@),
        r is None ==> query_value_from(query@, name@, 0) is None,
{
    let v = chars_of(query);
    let nm = chars_of(name);
    let n = v.len();
    assert(v@.subrange(0, n as int) =~= v@);
    let mut found: Option<(usize, usize)> = None;
    let mut i: usize = 0;
    let mut more = true;
    let ghost mut hist: Option<Seq<char>> = None;
    while more
        invariant
            i <= n,
            n == v@.len(),
            v@.subrange(0, n as int) == v@,
            nm@ == name@,
            found matches Some((a, b)) ==> a <= b <= n && hist == Some(
                v@.subrange(a as int, b as int),
            ),
            found is None ==> hist is None,
            more ==> query_value_from(v@, nm@, 0) == (if query_value_from(v@, nm@, i as int) is Some {
                query_value_from(v@, nm@, i as int)
            } else {
                hist
            }),
            !more ==> query_value_from(v@, nm@, 0) == hist,
        decreases n + 1 - i, (if more { 1int } else { 0int }),
    {
        let e = seg_end_exec(&v, 0, n, i);
        let ghost seg = v@.subrange(i as int, e as int);
        assert(v@.subrange(0, n as int).subrange(i as int, e as int) =~= seg);
        let ghost later = if e >= n {
            None
        } else {
            query_value_from(v@, nm@, e + 1)
        };
        assert(query_value_from(v@, nm@, i as int) == (if later is Some {
            later
        } else {
            match split_pair(seg) {
                Some((k, val)) => if k == nm@ {
                    Some(val)
                } else {
                    None
                },
                None => None,
            }
        }));
        match pair_bounds(&v, i, e) {
            Some(x) => {
                let same = x - i == nm.len() && same_chars(&v, i, &nm);
                proof {
                    if x - i == nm@.len() {
                        assert(v@.subrange(i as int, x as int) =~= v@.subrange(i as int, i + nm@.len()));
                    } else {
                        assert(v@.subrange(i as int, x as int).len() != nm@.len());
                    }
                }
                if same {
                    found = Some((x + 1, e));
                    proof {
                        hist = Some(v@.subrange(x + 1, e as int));
                    }
                }
            },
            None => {},
        }
        if e >= n {
            more = false;
        } else {
            i = e + 1;
        }
    }
    match found {
        Some((a, b)) => Some(string_of(&v, a, b)),
        None => None,
    }
}

/// Whether `v[i..i + w.len()]` equals `w`.
fn same_chars(v: &Vec<char>, i: usize, w: &Vec<char>) -> (b: bool)
    requires
        i + w@.len() <= v@.len(),
    ensures
        b == (v@.subrange(i as int, i + w@.len()) == w@),
{
    let mut k: usize = 0;
    while k < w.len()
        invariant
            i + w@.len() <= v@.len(),
            v@.len() == v.len(),
            k <= w@.len(),
            forall|m: int| 0 <= m < k ==> v@[i + m] == w@[m],
        decreases w@.len() - k,
    {
        if v[i + k] != w[k] {
            assert(v@.subrange(i as int, i + w@.len())[k as int] != w@[k as int]);
            return false;
        }
        k = k + 1;
    }
    assert(v@.subrange(i as int, i + w@.len()) =~= w@);
    true
}

} // verus!
