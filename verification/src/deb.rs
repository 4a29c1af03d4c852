//! Debian packages from the Termux repository: the `Packages` index, the `ar` container
//! of a `.deb`, and its `data.tar.xz` member.

use vstd::prelude::*;

use crate::http::{line_bounds, lines_spec};
use crate::link::sub_vec;
use crate::text::{
    chars_of, find_from, find_in, lemma_find_from_found, matches_at, parse_u64,
    parse_u64_spec, starts_with, string_of, trim, trim_bounds, trim_char, trim_char_bounds,
    trim_end_char, trim_end_char_bounds,
};

verus! {

/// The Termux package repository.
pub const TERMUX_REPO: &'static str = "https://packages.termux.dev/apt/termux-main";

/// The binary package index for aarch64.
pub const TERMUX_INDEX: &'static str = "https://packages.termux.dev/apt/termux-main/dists/stable/main/binary-aarch64/Packages";

// ------------------------------------------------------------------ bytes as text

/// `String::from_utf8_lossy`: the text of `b`, each invalid UTF-8 sequence replaced by
/// U+FFFD.
pub uninterp spec fn utf8_lossy(b: Seq<u8>) -> Seq<char>;

/// The text of `b` by `String::from_utf8_lossy`; as its documentation says, each invalid
/// sequence becomes one replacement character, so the text is empty exactly when `b` is,
/// and valid UTF-8 is read as it is.
#[verifier::external_body]
pub(crate) fn lossy(b: &[u8]) -> (s: String)
    ensures
        s@ == utf8_lossy(b@),
        (s@.len() == 0) == (b@.len() == 0),
        vstd::utf8::valid_utf8(b@) ==> s@ == vstd::utf8::decode_utf8(b@),
{
    String::from_utf8_lossy(b).to_string()
}

// ------------------------------------------------------------------ ar archives

/// The global header of an `ar` archive: `!<arch>\n`.
pub open spec fn ar_magic() -> Seq<u8> {
    seq![0x21u8, 0x3cu8, 0x61u8, 0x72u8, 0x63u8, 0x68u8, 0x3eu8, 0x0au8]
}

/// `str::parse::<usize>`.
pub open spec fn parse_usize_spec(s: Seq<char>) -> Option<usize> {
    match parse_u64_spec(s) {
        Some(v) => if v <= usize::MAX {
            Some(v as usize)
        } else {
            None
        },
        None => None,
    }
}

/// The name of a member from its 60-byte header: the first 16 bytes as text, without
/// spaces and then `/` at either end.
pub open spec fn member_name(hdr: Seq<u8>) -> Seq<char> {
    trim_char(trim_char(utf8_lossy(hdr.subrange(0, 16)), ' '), '/')
}

/// The size of a member from its header: bytes 48..58 as a trimmed decimal, 0 when that
/// does not parse.
pub open spec fn member_size(hdr: Seq<u8>) -> nat {
    match parse_usize_spec(trim(utf8_lossy(hdr.subrange(48, 58)))) {
        Some(v) => v as nat,
        None => 0,
    }
}

/// The data of the first member named `want` at or after offset `i`: the bytes after its
/// header, cut at the end of the archive; members are padded to an even size.
pub open spec fn ar_from(data: Seq<u8>, want: Seq<char>, i: int) -> Option<Seq<u8>>
    decreases data.len() - i,
{
    if i < 0 || i + 60 > data.len() {
        None
    } else {
        let hdr = data.subrange(i, i + 60);
        let sz = member_size(hdr) as int;
        let bs = i + 60;
        let be = if bs + sz < data.len() {
            bs + sz
        } else {
            data.len() as int
        };
        if member_name(hdr) == want {
            Some(data.subrange(bs, be))
        } else if bs + sz + sz % 2 > data.len() {
            None
        } else {
            ar_from(data, want, bs + sz + sz % 2)
        }
    }
}

/// The data of member `name` (its trailing `/` optional) of an `ar` archive.
pub open spec fn ar_extract_spec(data: Seq<u8>, name: Seq<char>) -> Option<Seq<u8>> {
    if data.len() < 8 || data.take(8) != ar_magic() {
        None
    } else {
        ar_from(data, trim_char(name, '/'), 8)
    }
}

/// `v[lo..hi]` of a byte slice as a vector.
pub fn bytes_of(v: &[u8], lo: usize, hi: usize) -> (out: Vec<u8>)
    requires
        lo <= hi <= v@.len(),
    ensures
        out@ == v@.subrange(lo as int, hi as int),
{
    let mut out: Vec<u8> = Vec::new();
    let mut i = lo;
    while i < hi
        invariant
            lo <= i <= hi <= v@.len(),
            out@ == v@.subrange(lo as int, i as int),
        decreases hi - i,
    {
        out.push(v[i]);
        i = i + 1;
        assert(out@ =~= v@.subrange(lo as int, i as int));
    }
    out
}

/// The name of the member whose header starts at `i`.
fn header_name(data: &[u8], i: usize) -> (n: Vec<char>)
    requires
        i + 60 <= data@.len(),
    ensures
        n@ == member_name(data@.subrange(i as int, i + 60)),
{
    let _len = data.len();
    let raw = bytes_of(data, i, i + 16);
    assert(raw@ =~= data@.subrange(i as int, i + 60).subrange(0, 16));
    let s = lossy(raw.as_slice());
    let v = chars_of(s.as_str());
    let (a, b) = trim_char_bounds(&v, 0, v.len(), ' ');
    assert(v@.subrange(0, v@.len() as int) =~= v@);
    let (c, d) = trim_char_bounds(&v, a, b, '/');
    sub_vec(&v, c, d)
}

/// The size of the member whose header starts at `i`.
fn header_size(data: &[u8], i: usize) -> (sz: usize)
    requires
        i + 60 <= data@.len(),
    ensures
        sz as nat == member_size(data@.subrange(i as int, i + 60)),
{
    let _len = data.len();
    let raw = bytes_of(data, i + 48, i + 58);
    assert(raw@ =~= data@.subrange(i as int, i + 60).subrange(48, 58));
    let s = lossy(raw.as_slice());
    let v = chars_of(s.as_str());
    assert(v@.subrange(0, v@.len() as int) =~= v@);
    let (a, b) = trim_bounds(&v, 0, v.len());
    match parse_u64(&v, a, b) {
        Some(x) => if x <= usize::MAX as u64 {
            x as usize
        } else {
            0
        },
        None => 0,
    }
}

/// Whether two character vectors are equal.
fn same_chars(a: &Vec<char>, b: &Vec<char>) -> (r: bool)
    ensures
        r == (a@ == b@),
{
    if a.len() != b.len() {
        return false;
    }
    let mut i: usize = 0;
    while i < a.len()
        invariant
            a@.len() == b@.len(),
            i <= a@.len(),
            forall|k: int| 0 <= k < i ==> a@[k] == b@[k],
        decreases a@.len() - i,
    {
        if a[i] != b[i] {
            return false;
        }
        i = i + 1;
    }
    assert(a@ =~= b@);
    true
}

/// The data of member `name` of an `ar` archive (a trailing `/` in names is ignored);
/// the data is cut at the end of the archive.
pub fn ar_extract(data: &[u8], name: &str) -> (r: Option<Vec<u8>>)
    ensures
        r is Some <==> ar_extract_spec(data@, name@) is Some,
        r matches Some(v) ==> ar_extract_spec(data@, name@) == Some(v@),
{
    let n = data.len();
    if n < 8 {
        return None;
    }
    let magic: [u8; 8] = [0x21u8, 0x3cu8, 0x61u8, 0x72u8, 0x63u8, 0x68u8, 0x3eu8, 0x0au8];
    let mut k: usize = 0;
    while k < 8
        invariant
            8 <= n == data@.len(),
            k <= 8,
            magic@ == ar_magic(),
            forall|j: int| 0 <= j < k ==> data@[j] == magic@[j],
        decreases 8 - k,
    {
        if data[k] != magic[k] {
            assert(data@.take(8)[k as int] != ar_magic()[k as int]);
            return None;
        }
        k = k + 1;
    }
    assert(data@.take(8) =~= ar_magic());
    let nv = chars_of(name);
    assert(nv@.subrange(0, nv@.len() as int) =~= nv@);
    let (a, b) = trim_char_bounds(&nv, 0, nv.len(), '/');
    let want = sub_vec(&nv, a, b);
    let mut i: usize = 8;
    while i <= n && n - i >= 60
        invariant
            n == data@.len(),
            want@ == trim_char(name@, '/'),
            ar_extract_spec(data@, name@) == ar_from(data@, want@, i as int),
        decreases n - i,
    {
        let ghost hdr = data@.subrange(i as int, i + 60);
        let mname = header_name(data, i);
        let sz = header_size(data, i);
        let bs = i + 60;
        let be = if sz < n - bs {
            bs + sz
        } else {
            n
        };
        if same_chars(&mname, &want) {
            return Some(bytes_of(data, bs, be));
        }
        let next = match bs.checked_add(sz) {
            Some(x) => x.checked_add(sz % 2),
            None => None,
        };
        match next {
            Some(x) => {
                if x > n {
                    return None;
                }
                i = x;
            },
            None => {
                assert(ar_from(data@, want@, bs + sz + sz % 2) is None);
                return None;
            },
        }
    }
    None
}

// ------------------------------------------------------------------ the Packages index

/// One record of the `Packages` index.
pub struct PkgInfo {
    pub version: String,
    pub filename: String,
    pub size: u64,
}

/// What a record of the index says of a package.
pub struct PkgModel {
    pub version: Seq<char>,
    pub filename: Seq<char>,
    pub size: u64,
}

/// The model of a record.
pub open spec fn pkg_model(p: PkgInfo) -> PkgModel {
    PkgModel { version: p.version@, filename: p.filename@, size: p.size }
}

/// The fields read so far from one paragraph of the index.
pub struct Fields {
    pub pkg: Option<Seq<char>>,
    pub version: Seq<char>,
    pub filename: Seq<char>,
    pub size: u64,
}

/// A paragraph with no field read yet.
pub open spec fn no_fields() -> Fields {
    Fields { pkg: None, version: Seq::empty(), filename: Seq::empty(), size: 0 }
}

/// The value after `prefix` at the start of `line`, trimmed.
pub open spec fn field_value(line: Seq<char>, prefix: Seq<char>) -> Option<Seq<char>> {
    if starts_with(line, prefix) {
        Some(trim(line.skip(prefix.len() as int)))
    } else {
        None
    }
}

/// Reading one line of a paragraph (trailing `\r`s already removed): `Package: `,
/// `Version: `, `Filename: ` and `Size: ` set their field (a size that does not parse is 0);
/// other lines change nothing.
pub open spec fn read_line(f: Fields, line: Seq<char>) -> Fields {
    match field_value(line, "Package: "@) {
        Some(v) => Fields { pkg: Some(v), ..f },
        None => match field_value(line, "Version: "@) {
            Some(v) => Fields { version: v, ..f },
            None => match field_value(line, "Filename: "@) {
                Some(v) => Fields { filename: v, ..f },
                None => match field_value(line, "Size: "@) {
                    Some(v) => Fields {
                        size: match parse_u64_spec(v) {
                            Some(x) => x,
                            None => 0,
                        },
                        ..f
                    },
                    None => f,
                },
            },
        },
    }
}

/// The fields of a paragraph after reading its lines in order.
pub open spec fn read_lines(ls: Seq<Seq<char>>) -> Fields
    decreases ls.len(),
{
    if ls.len() == 0 {
        no_fields()
    } else {
        read_line(read_lines(ls.drop_last()), trim_end_char(ls.last(), '\r'))
    }
}

/// The record of a paragraph: its package name and fields, when it names a package and a
/// file.
pub open spec fn paragraph_record(p: Seq<char>) -> Option<(Seq<char>, PkgModel)> {
    let f = read_lines(lines_spec(p));
    match f.pkg {
        Some(name) => if f.filename.len() > 0 {
            Some((name, PkgModel { version: f.version, filename: f.filename, size: f.size }))
        } else {
            None
        },
        None => None,
    }
}

/// `text.split("\n\n")` from position `i` on.
pub open spec fn paragraphs_from(text: Seq<char>, i: int) -> Seq<Seq<char>>
    decreases text.len() - i,
{
    if i < 0 || i > text.len() {
        Seq::empty()
    } else {
        match find_from(text, "\n\n"@, i) {
            Some(j) => {
                proof {
                    lemma_find_from_found(text, "\n\n"@, i);
                    reveal_strlit("\n\n");
                }
                seq![text.subrange(i, j)] + paragraphs_from(text, j + 2)
            },
            None => seq![text.subrange(i, text.len() as int)],
        }
    }
}

/// The index: each paragraph's record, a later one replacing an earlier one of the same
/// package.
pub open spec fn index_of_paragraphs(ps: Seq<Seq<char>>) -> Map<Seq<char>, PkgModel>
    decreases ps.len(),
{
    if ps.len() == 0 {
        Map::empty()
    } else {
        let m = index_of_paragraphs(ps.drop_last());
        match paragraph_record(ps.last()) {
            Some((n, p)) => m.insert(n, p),
            None => m,
        }
    }
}

/// The index that a `Packages` text describes.
pub open spec fn index_spec(text: Seq<char>) -> Map<Seq<char>, PkgModel> {
    index_of_paragraphs(paragraphs_from(text, 0))
}

/// Whether a list of records holds exactly the map `m`, each package once.
pub open spec fn holds_index(v: Seq<(String, PkgInfo)>, m: Map<Seq<char>, PkgModel>) -> bool {
    &&& forall|i: int, j: int| 0 <= i < j < v.len() ==> (#[trigger] v[i]).0@ != (#[trigger] v[j]).0@
    &&& forall|i: int|
        0 <= i < v.len() ==> m.contains_key((#[trigger] v[i]).0@) && m[v[i].0@] == pkg_model(v[i].1)
    &&& forall|k: Seq<char>| #[trigger] m.contains_key(k) ==> exists|i: int| 0 <= i < v.len() && (#[trigger] v[i]).0@ == k
}

/// The fields of one line, from the fields before it.
fn read_field_line(f: &mut (Option<String>, String, String, u64), v: &Vec<char>, a: usize, b: usize)
    requires
        a <= b <= v@.len(),
    ensures
        field_model(*final(f)) == read_line(field_model(*old(f)), v@.subrange(a as int, b as int)),
{
    let ghost line = v@.subrange(a as int, b as int);
    proof {
        reveal_strlit("Package: ");
        reveal_strlit("Version: ");
        reveal_strlit("Filename: ");
        reveal_strlit("Size: ");
    }
    let pk = chars_of("Package: ");
    let ve = chars_of("Version: ");
    let fi = chars_of("Filename: ");
    let si = chars_of("Size: ");
    let sub = sub_vec(v, a, b);
    if crate::text::matches_here(&sub, &pk, 0) {
        let (x, y) = trim_bounds(&sub, pk.len(), sub.len());
        assert(sub@.subrange(pk@.len() as int, sub@.len() as int) =~= line.skip(pk@.len() as int));
        f.0 = Some(string_of(&sub, x, y));
    } else if crate::text::matches_here(&sub, &ve, 0) {
        let (x, y) = trim_bounds(&sub, ve.len(), sub.len());
        assert(sub@.subrange(ve@.len() as int, sub@.len() as int) =~= line.skip(ve@.len() as int));
        f.1 = string_of(&sub, x, y);
    } else if crate::text::matches_here(&sub, &fi, 0) {
        let (x, y) = trim_bounds(&sub, fi.len(), sub.len());
        assert(sub@.subrange(fi@.len() as int, sub@.len() as int) =~= line.skip(fi@.len() as int));
        f.2 = string_of(&sub, x, y);
    } else if crate::text::matches_here(&sub, &si, 0) {
        let (x, y) = trim_bounds(&sub, si.len(), sub.len());
        assert(sub@.subrange(si@.len() as int, sub@.len() as int) =~= line.skip(si@.len() as int));
        f.3 = match parse_u64(&sub, x, y) {
            Some(n) => n,
            None => 0,
        };
    }
}

/// The model of the fields read so far.
pub open spec fn field_model(f: (Option<String>, String, String, u64)) -> Fields {
    Fields {
        pkg: match f.0 {
            Some(s) => Some(s@),
            None => None,
        },
        version: f.1@,
        filename: f.2@,
        size: f.3,
    }
}

/// The record of the paragraph `v[lo..hi]`.
fn read_paragraph(v: &Vec<char>, lo: usize, hi: usize) -> (r: Option<(String, PkgInfo)>)
    requires
        lo <= hi <= v@.len(),
    ensures
        r is Some <==> paragraph_record(v@.subrange(lo as int, hi as int)) is Some,
        r matches Some((n, p)) ==> paragraph_record(v@.subrange(lo as int, hi as int)) == Some(
            (n@, pkg_model(p)),
        ),
{
    let p = sub_vec(v, lo, hi);
    let bounds = line_bounds(&p);
    let ghost ls = lines_spec(p@);
    let mut f: (Option<String>, String, String, u64) = (None, String::new(), String::new(), 0);
    let mut j: usize = 0;
    while j < bounds.len()
        invariant
            j <= bounds@.len(),
            bounds@.len() == ls.len(),
            ls == lines_spec(p@),
            forall|q: int|
                #![trigger bounds@[q]]
                0 <= q < bounds@.len() ==> bounds@[q].0 <= bounds@[q].1 && bounds@[q].1
                    <= p@.len() && p@.subrange(bounds@[q].0 as int, bounds@[q].1 as int) == ls[q],
            field_model(f) == read_lines(ls.take(j as int)),
        decreases bounds@.len() - j,
    {
        let (a, b) = bounds[j];
        let e = trim_end_char_bounds(&p, a, b, '\r');
        read_field_line(&mut f, &p, a, e);
        proof {
            assert(ls.take(j + 1).drop_last() =~= ls.take(j as int));
            assert(ls.take(j + 1).last() == ls[j as int]);
        }
        j = j + 1;
    }
    assert(ls.take(bounds@.len() as int) =~= ls);
    let (pkg, version, filename, size) = f;
    match pkg {
        Some(name) => {
            if filename.as_str().is_empty() {
                None
            } else {
                Some((name, PkgInfo { version, filename, size }))
            }
        },
        None => None,
    }
}

/// Adds a record to a list that holds `m`: the list then holds `m` with the record
/// inserted (replacing an earlier record of the same package).
fn add_record(out: &mut Vec<(String, PkgInfo)>, name: String, info: PkgInfo, Ghost(m): Ghost<
    Map<Seq<char>, PkgModel>,
>)
    requires
        holds_index(old(out)@, m),
    ensures
        holds_index(final(out)@, m.insert(name@, pkg_model(info))),
{
    let ghost key = name@;
    let ghost m2 = m.insert(key, pkg_model(info));
    let mut i: usize = 0;
    while i < out.len()
        invariant
            i <= out@.len(),
            key == name@,
            m2 == m.insert(key, pkg_model(info)),
            holds_index(out@, m),
            forall|k: int| 0 <= k < i ==> (#[trigger] out@[k]).0@ != key,
        decreases out@.len() - i,
    {
        let same = crate::cli::same_str(out[i].0.as_str(), name.as_str());
        if same {
            let ghost before = out@;
            out.set(i, (name, info));
            proof {
                assert forall|a: int, b: int| 0 <= a < b < out@.len() implies (#[trigger] out@[a]).0@
                    != (#[trigger] out@[b]).0@ by {
                    if a != i && b != i {
                        assert(out@[a] == before[a] && out@[b] == before[b]);
                    } else if a == i {
                        assert(out@[b] == before[b]);
                        assert(before[a].0@ == key);
                    } else {
                        assert(out@[a] == before[a]);
                        assert(before[b].0@ == key);
                    }
                }
                assert forall|a: int| 0 <= a < out@.len() implies m2.contains_key(
                    (#[trigger] out@[a]).0@,
                ) && m2[out@[a].0@] == pkg_model(out@[a].1) by {
                    if a != i {
                        assert(out@[a] == before[a]);
                        assert(before[a].0@ != before[i as int].0@);
                    }
                }
                assert forall|k: Seq<char>| #[trigger] m2.contains_key(k) implies exists|a: int|
                    0 <= a < out@.len() && (#[trigger] out@[a]).0@ == k by {
                    if k == key {
                        assert(out@[i as int].0@ == k);
                    } else {
                        assert(m.contains_key(k));
                        let a = choose|a: int| 0 <= a < before.len() && (#[trigger] before[a]).0@ == k;
                        assert(a != i);
                        assert(out@[a] == before[a]);
                    }
                }
            }
            return;
        }
        i = i + 1;
    }
    let ghost before = out@;
    out.push((name, info));
    proof {
        assert forall|a: int, b: int| 0 <= a < b < out@.len() implies (#[trigger] out@[a]).0@ != (
        #[trigger] out@[b]).0@ by {
            assert(out@[a] == before[a]);
            if b < before.len() {
                assert(out@[b] == before[b]);
            }
        }
        assert forall|a: int| 0 <= a < out@.len() implies m2.contains_key((#[trigger] out@[a]).0@)
            && m2[out@[a].0@] == pkg_model(out@[a].1) by {
            if a < before.len() {
                assert(out@[a] == before[a]);
            }
        }
        assert forall|k: Seq<char>| #[trigger] m2.contains_key(k) implies exists|a: int|
            0 <= a < out@.len() && (#[trigger] out@[a]).0@ == k by {
            if k == key {
                assert(out@[before.len() as int].0@ == k);
            } else {
                let a = choose|a: int| 0 <= a < before.len() && (#[trigger] before[a]).0@ == k;
                assert(out@[a] == before[a]);
            }
        }
    }
}

/// Parses a `Packages` index: paragraphs separated by a blank line, each record keyed by
/// its package name, a later record of a package replacing an earlier one; paragraphs
/// without a package name or a file are left out.
pub fn parse_index(text: &str) -> (out: Vec<(String, PkgInfo)>)
    ensures
        holds_index(out@, index_spec(text@)),
{
    let v = chars_of(text);
    let sep = chars_of("\n\n");
    proof {
        reveal_strlit("\n\n");
    }
    let n = v.len();
    let mut out: Vec<(String, PkgInfo)> = Vec::new();
    let ghost mut done: Seq<Seq<char>> = Seq::empty();
    let mut pos: usize = 0;
    let mut more = true;
    assert(holds_index(out@, Map::empty()));
    while more
        invariant
            v@ == text@,
            sep@ == "\n\n"@,
            n == v@.len(),
            pos <= n,
            more ==> done + paragraphs_from(v@, pos as int) == paragraphs_from(v@, 0),
            !more ==> done == paragraphs_from(v@, 0),
            holds_index(out@, index_of_paragraphs(done)),
        decreases n - pos, (if more { 1int } else { 0int }),
    {
        let ghost old_done = done;
        match find_in(&v, &sep, pos) {
            Some(j) => {
                proof {
                    reveal_strlit("\n\n");
                    lemma_find_from_found(v@, sep@, pos as int);
                    assert(j + 2 <= n);
                }
                let rec = read_paragraph(&v, pos, j);
                proof {
                    done = done.push(v@.subrange(pos as int, j as int));
                    assert(done.drop_last() =~= old_done);
                    assert(paragraphs_from(v@, pos as int) == seq![v@.subrange(pos as int, j as int)]
                        + paragraphs_from(v@, j + 2));
                    assert(done + paragraphs_from(v@, j + 2) =~= old_done + paragraphs_from(
                        v@,
                        pos as int,
                    ));
                }
                match rec {
                    Some((name, info)) => {
                        add_record(&mut out, name, info, Ghost(index_of_paragraphs(old_done)));
                    },
                    None => {},
                }
                pos = j + 2;
            },
            None => {
                let rec = read_paragraph(&v, pos, n);
                proof {
                    done = done.push(v@.subrange(pos as int, n as int));
                    assert(done.drop_last() =~= old_done);
                    assert(paragraphs_from(v@, pos as int) == seq![v@.subrange(pos as int, n as int)]);
                    assert(done =~= old_done + paragraphs_from(v@, pos as int));
                }
                match rec {
                    Some((name, info)) => {
                        add_record(&mut out, name, info, Ghost(index_of_paragraphs(old_done)));
                    },
                    None => {},
                }
                more = false;
            },
        }
    }
    out
}

/// Where package `name` is in a parsed index.
pub fn find_pkg(index: &Vec<(String, PkgInfo)>, name: &str) -> (r: Option<usize>)
    ensures
        r matches Some(i) ==> i < index@.len() && index@[i as int].0@ == name@,
        r is None ==> forall|i: int| 0 <= i < index@.len() ==> (#[trigger] index@[i]).0@ != name@,
{
    let mut i: usize = 0;
    while i < index.len()
        invariant
            i <= index@.len(),
            forall|k: int| 0 <= k < i ==> (#[trigger] index@[k]).0@ != name@,
        decreases index@.len() - i,
    {
        if crate::cli::same_str(index[i].0.as_str(), name) {
            return Some(i);
        }
        i = i + 1;
    }
    None
}

// ------------------------------------------------------------------ package contents

/// What `lzma_rs::xz_decompress` produces from an `.xz` stream, or `None` where it fails.
pub uninterp spec fn xz_decompressed(data: Seq<u8>) -> Option<Seq<u8>>;

/// Whether the four bytes at `p`, an offset divisible by four, are all `0xFF`.
pub open spec fn ff_run_at(data: Seq<u8>, p: int) -> bool {
    0 <= p && p % 4 == 0 && p + 4 <= data.len() && data[p] == 0xFFu8 && data[p + 1] == 0xFFu8
        && data[p + 2] == 0xFFu8 && data[p + 3] == 0xFFu8
}

/// Whether no four bytes at an offset divisible by four are all `0xFF`.
///
/// `lzma_rs` reads the stream footer's backward-size field as a `u32` and computes
/// `(backward_size + 1) << 2`, which overflows (a panic) where that field is
/// `0xFFFFFFFF`. That field always starts at an offset divisible by four: the stream
/// header takes 12 bytes; each block is padded with zeros to a multiple of four bytes
/// (counted from its header-size byte) before its check of 0, 4 or 8 bytes; the index is
/// padded to a multiple of four before its 4-byte CRC32; the footer then starts with a
/// 4-byte CRC32, followed by the backward size. A stream for which this holds has no such
/// field wherever the footer is read.
pub open spec fn no_ff_run(data: Seq<u8>) -> bool {
    forall|p: int| !#[trigger] ff_run_at(data, p)
}

/// Whether some four bytes at an offset divisible by four are all `0xFF`.
pub fn has_ff_run(data: &[u8]) -> (b: bool)
    ensures
        b == !no_ff_run(data@),
{
    let n: usize = data.len();
    if n < 4 {
        assert forall|p: int| !#[trigger] ff_run_at(data@, p) by {}
        return false;
    }
    let mut i: usize = 0;
    while i <= n - 4
        invariant
            n == data@.len(),
            n >= 4,
            i <= n,
            i % 4 == 0,
            forall|p: int| p < i ==> !#[trigger] ff_run_at(data@, p),
        decreases n - i,
    {
        if data[i] == 0xFF && data[i + 1] == 0xFF && data[i + 2] == 0xFF && data[i + 3] == 0xFF {
            assert(ff_run_at(data@, i as int));
            return true;
        }
        i = i + 4;
    }
    assert forall|p: int| !#[trigger] ff_run_at(data@, p) by {}
    false
}

/// Decompresses an `.xz` stream with `lzma_rs::xz_decompress`; on failure, the error's
/// text (nothing is claimed of that text). A stream with four `0xFF` bytes at an offset
/// divisible by four is not handed to it (see `no_ff_run`).
#[verifier::external_body]
fn xz_decompress_bytes(data: &[u8]) -> (r: Result<Vec<u8>, String>)
    requires
        no_ff_run(data@),
    ensures
        match r {
            Ok(v) => xz_decompressed(data@) == Some(v@),
            Err(_) => xz_decompressed(data@) is None,
        },
{
    let mut input = std::io::BufReader::new(data);
    let mut out = Vec::new();
    match lzma_rs::xz_decompress(&mut input, &mut out) {
        Ok(()) => Ok(out),
        Err(e) => Err(e.to_string()),
    }
}

/// The result of decompressing a package's data member, with a failure explained as
/// `xz: <reason>`.
pub fn xz_result(r: Result<Vec<u8>, String>) -> (out: Result<Vec<u8>, String>)
    ensures
        match r {
            Ok(v) => out == Ok::<Vec<u8>, String>(v),
            Err(e) => out matches Err(m) && m@ == "xz: "@ + e@,
        },
{
    match r {
        Ok(v) => Ok(v),
        Err(e) => {
            let mut m = String::new();
            crate::text::push_str(&mut m, "xz: ");
            crate::text::push_str(&mut m, e.as_str());
            assert(m@ =~= "xz: "@ + e@);
            Err(m)
        },
    }
}

/// The message when a package has no `data.tar.xz` member.
pub const NO_DATA_MEMBER: &'static str = "no data.tar.xz in deb";

/// The message for a `data.tar.xz` member that holds four `0xFF` bytes at an offset
/// divisible by four, where `lzma_rs` could overflow (see `no_ff_run`).
pub const XZ_FF_RUN: &'static str = "xz: four aligned 0xFF bytes, refused";

/// The tar stream of a `.deb`: its `data.tar.xz` member, decompressed.
pub fn deb_data_tar_bytes(deb: &[u8]) -> (r: Result<Vec<u8>, String>)
    ensures
        match ar_extract_spec(deb@, "data.tar.xz"@) {
            None => r matches Err(m) && m@ == NO_DATA_MEMBER@,
            Some(x) => if !no_ff_run(x) {
                r matches Err(m) && m@ == XZ_FF_RUN@
            } else {
                match xz_decompressed(x) {
                    Some(t) => r matches Ok(v) && v@ == t,
                    None => r matches Err(m) && crate::text::starts_with(m@, "xz: "@),
                }
            },
        },
{
    let xz = match ar_extract(deb, "data.tar.xz") {
        Some(x) => x,
        None => return Err(NO_DATA_MEMBER.to_owned()),
    };
    if has_ff_run(xz.as_slice()) {
        return Err(XZ_FF_RUN.to_owned());
    }
    let r = xz_result(xz_decompress_bytes(xz.as_slice()));
    proof {
        if r is Err {
            let m = r->Err_0;
            assert(m@.subrange(0, "xz: "@.len() as int) =~= "xz: "@);
        }
    }
    r
}

/// One member of a tar archive, as `tar` reads it.
pub struct TarMember {
    /// Its path, as text (lossily).
    pub name: String,
    /// Whether it is a directory.
    pub is_dir: bool,
    /// Its contents.
    pub data: Vec<u8>,
}

/// Where reading a tar archive with `tar` failed.
pub enum TarFailure {
    /// Listing the entries.
    Open(String),
    /// Reading an entry's header.
    Entry(String),
    /// Reading the contents of the named entry.
    Read(String, String),
}

/// The members that `tar` reads from an archive, in order, or `None` where it fails.
pub uninterp spec fn tar_members(data: Seq<u8>) -> Option<Seq<(Seq<char>, bool, Seq<u8>)>>;

/// The model of the members read.
pub open spec fn member_views(v: Seq<TarMember>) -> Seq<(Seq<char>, bool, Seq<u8>)> {
    v.map_values(|m: TarMember| (m.name@, m.is_dir, m.data@))
}

/// Reads every member of a tar archive with `tar::Archive::entries`: path (lossily as
/// text), directory flag (`entry_type().is_dir()`) and contents (`read_to_end`).
#[verifier::external_body]
fn read_tar(data: &[u8]) -> (r: Result<Vec<TarMember>, TarFailure>)
    ensures
        match r {
            Ok(v) => tar_members(data@) == Some(member_views(v@)),
            Err(_) => tar_members(data@) is None,
        },
{
    let mut out = Vec::new();
    let mut ar = tar::Archive::new(data);
    let entries = ar.entries().map_err(|e| TarFailure::Open(e.to_string()))?;
    for entry in entries {
        let mut e = entry.map_err(|x| TarFailure::Entry(x.to_string()))?;
        let is_dir = e.header().entry_type().is_dir();
        let name = e.path().map(|p| p.to_string_lossy().to_string()).unwrap_or_default();
        let mut buf = Vec::new();
        std::io::Read::read_to_end(&mut e, &mut buf).map_err(|x| TarFailure::Read(name.clone(), x.to_string()))?;
        out.push(TarMember { name, is_dir, data: buf });
    }
    Ok(out)
}

/// The files among the members read: path and contents, directories left out.
pub open spec fn files_of(ms: Seq<(Seq<char>, bool, Seq<u8>)>) -> Seq<(Seq<char>, Seq<u8>)>
    decreases ms.len(),
{
    if ms.len() == 0 {
        Seq::empty()
    } else {
        let rest = files_of(ms.drop_last());
        if ms.last().1 {
            rest
        } else {
            rest.push((ms.last().0, ms.last().2))
        }
    }
}

/// The model of a list of files.
pub open spec fn file_views(v: Seq<(String, Vec<u8>)>) -> Seq<(Seq<char>, Seq<u8>)> {
    v.map_values(|f: (String, Vec<u8>)| (f.0@, f.1@))
}

/// The files of a tar reading, directories left out, with a failure explained as
/// `tar: ..`, `tar entry: ..` or `tar read <name>: ..`.
pub fn tar_result(r: Result<Vec<TarMember>, TarFailure>) -> (out: Result<Vec<(String, Vec<u8>)>, String>)
    ensures
        match r {
            Ok(v) => out matches Ok(fs) && file_views(fs@) == files_of(member_views(v@)),
            Err(TarFailure::Open(e)) => out matches Err(m) && m@ == "tar: "@ + e@,
            Err(TarFailure::Entry(e)) => out matches Err(m) && m@ == "tar entry: "@ + e@,
            Err(TarFailure::Read(n, e)) => out matches Err(m) && m@ == "tar read "@ + n@ + ": "@ + e@,
        },
{
    match r {
        Ok(members) => {
            let ghost target = files_of(member_views(members@));
            let mut members = members;
            let mut rev: Vec<(String, Vec<u8>)> = Vec::new();
            assert(file_views(rev@).reverse() =~= Seq::<(Seq<char>, Seq<u8>)>::empty());
            assert(files_of(member_views(members@)) + file_views(rev@).reverse() =~= target);
            while members.len() > 0
                invariant
                    files_of(member_views(members@)) + file_views(rev@).reverse() == target,
                decreases members@.len(),
            {
                let ghost before = members@;
                let ghost rev_before = rev@;
                let m = members.pop().unwrap();
                proof {
                    assert(member_views(before).drop_last() =~= member_views(members@));
                    assert(member_views(before).last() == (m.name@, m.is_dir, m.data@));
                }
                if !m.is_dir {
                    rev.push((m.name, m.data));
                    proof {
                        assert(file_views(rev@) =~= file_views(rev_before).push((m.name@, m.data@)));
                        assert(file_views(rev@).reverse() =~= seq![(m.name@, m.data@)] + file_views(
                            rev_before,
                        ).reverse());
                        assert(files_of(member_views(before)) =~= files_of(member_views(members@)).push(
                            (m.name@, m.data@),
                        ));
                        assert(files_of(member_views(members@)) + file_views(rev@).reverse()
                            =~= files_of(member_views(before)) + file_views(rev_before).reverse());
                    }
                } else {
                    assert(files_of(member_views(before)) == files_of(member_views(members@)));
                }
            }
            assert(files_of(member_views(members@)) =~= Seq::<(Seq<char>, Seq<u8>)>::empty());
            assert(file_views(rev@).reverse() =~= target);
            let mut out: Vec<(String, Vec<u8>)> = Vec::new();
            while rev.len() > 0
                invariant
                    file_views(out@) + file_views(rev@).reverse() == target,
                decreases rev@.len(),
            {
                let ghost rev_before = rev@;
                let ghost out_before = out@;
                let f = rev.pop().unwrap();
                proof {
                    assert(file_views(rev_before) =~= file_views(rev@).push((f.0@, f.1@)));
                    assert(file_views(rev_before).reverse() =~= seq![(f.0@, f.1@)] + file_views(
                        rev@,
                    ).reverse());
                }
                out.push(f);
                assert(file_views(out@) =~= file_views(out_before).push((f.0@, f.1@)));
                assert(file_views(out@) + file_views(rev@).reverse() =~= file_views(out_before)
                    + file_views(rev_before).reverse());
            }
            assert(file_views(rev@).reverse() =~= Seq::<(Seq<char>, Seq<u8>)>::empty());
            assert(file_views(out@) =~= target);
            Ok(out)
        },
        Err(TarFailure::Open(e)) => {
            let mut m = String::new();
            crate::text::push_str(&mut m, "tar: ");
            crate::text::push_str(&mut m, e.as_str());
            assert(m@ =~= "tar: "@ + e@);
            Err(m)
        },
        Err(TarFailure::Entry(e)) => {
            let mut m = String::new();
            crate::text::push_str(&mut m, "tar entry: ");
            crate::text::push_str(&mut m, e.as_str());
            assert(m@ =~= "tar entry: "@ + e@);
            Err(m)
        },
        Err(TarFailure::Read(name, e)) => {
            let mut m = String::new();
            crate::text::push_str(&mut m, "tar read ");
            crate::text::push_str(&mut m, name.as_str());
            crate::text::push_str(&mut m, ": ");
            crate::text::push_str(&mut m, e.as_str());
            assert(m@ =~= "tar read "@ + name@ + ": "@ + e@);
            Err(m)
        },
    }
}


/// The files of a tar archive: path and contents of each member that is not a directory,
/// in order.
pub fn tar_files(data: &[u8]) -> (r: Result<Vec<(String, Vec<u8>)>, String>)
    ensures
        match tar_members(data@) {
            Some(ms) => r matches Ok(fs) && file_views(fs@) == files_of(ms),
            None => r is Err,
        },
{
    tar_result(read_tar(data))
}

// ------------------------------------------------------------------ index laws

/// Whether a line sets none of the fields read: it starts with none of `Package: `,
/// `Version: `, `Filename: ` and `Size: `.
pub open spec fn other_line(x: Seq<char>) -> bool {
    &&& !starts_with(x, "Package: "@)
    &&& !starts_with(x, "Version: "@)
    &&& !starts_with(x, "Filename: "@)
    &&& !starts_with(x, "Size: "@)
}

/// A beginning of a line that sets no field sets no field either.
proof fn lemma_other_prefix(x: Seq<char>, z: Seq<char>)
    requires
        other_line(x),
        z.len() <= x.len(),
        forall|i: int| 0 <= i < z.len() ==> z[i] == x[i],
    ensures
        other_line(z),
{
    assert forall|p: Seq<char>| starts_with(z, p) implies starts_with(x, p) by {
        assert(x.subrange(0, p.len() as int) =~= z.subrange(0, p.len() as int));
    }
}

/// Trailing characters removed leave a beginning of the text.
proof fn lemma_trim_end_prefix(s: Seq<char>, c: char)
    ensures
        trim_end_char(s, c).len() <= s.len(),
        forall|i: int| 0 <= i < trim_end_char(s, c).len() ==> trim_end_char(s, c)[i] == s[i],
    decreases s.len(),
{
    if s.len() > 0 && s.last() == c {
        lemma_trim_end_prefix(s.drop_last(), c);
        assert forall|i: int| 0 <= i < trim_end_char(s, c).len() implies trim_end_char(s, c)[i] == s[i] by {
            assert(s.drop_last()[i] == s[i]);
        }
    }
}

/// Lines that set no field leave the fields as they are.
proof fn lemma_read_other_line(f: Fields, x: Seq<char>)
    requires
        other_line(x),
    ensures
        read_line(f, x) == f,
{
}

/// Reading a line that sets no field, anywhere among the lines, changes nothing.
proof fn lemma_read_lines_skip(l1: Seq<Seq<char>>, y: Seq<char>, l2: Seq<Seq<char>>)
    requires
        other_line(trim_end_char(y, '\r')),
    ensures
        read_lines(l1 + seq![y] + l2) == read_lines(l1 + l2),
    decreases l2.len(),
{
    if l2.len() == 0 {
        assert(l1 + seq![y] + l2 =~= l1.push(y));
        assert(l1 + l2 =~= l1);
        assert((l1 + seq![y] + l2).drop_last() =~= l1);
        lemma_read_other_line(read_lines(l1), trim_end_char(y, '\r'));
    } else {
        lemma_read_lines_skip(l1, y, l2.drop_last());
        assert((l1 + seq![y] + l2).drop_last() =~= l1 + seq![y] + l2.drop_last());
        assert((l1 + l2).drop_last() =~= l1 + l2.drop_last());
        assert((l1 + seq![y] + l2).last() == l2.last());
        assert((l1 + l2).last() == l2.last());
    }
}

/// The lines of a text that ends a line (or is empty), followed by more text.
proof fn lemma_lines_concat(a: Seq<char>, r: Seq<char>)
    requires
        a.len() == 0 || a.last() == '\n',
    ensures
        lines_spec(a + r) == lines_spec(a) + lines_spec(r),
    decreases a.len(),
{
    if a.len() == 0 {
        assert(a + r =~= r);
        assert(lines_spec(a) + lines_spec(r) =~= lines_spec(r));
    } else {
        crate::text::lemma_index_of_found(a, '\n', 0);
        let i = crate::text::index_of(a, '\n')->0;
        crate::text::lemma_index_of_first(a + r, '\n', 0, i);
        assert((a + r).take(i) =~= a.take(i));
        assert((a + r).skip(i + 1) =~= a.skip(i + 1) + r);
        let rest = a.skip(i + 1);
        assert(rest.len() == 0 || rest.last() == '\n') by {
            if rest.len() > 0 {
                assert(rest.last() == a.last());
            }
        }
        lemma_lines_concat(rest, r);
        assert(lines_spec(a + r) =~= lines_spec(a) + lines_spec(r));
    }
}

/// The lines of a text that starts with a line `x` and its newline.
proof fn lemma_lines_first(x: Seq<char>, b: Seq<char>)
    requires
        forall|i: int| 0 <= i < x.len() ==> x[i] != '\n',
    ensures
        lines_spec(x + seq!['\n'] + b) == seq![crate::http::strip_cr(x)] + lines_spec(b),
{
    let t = x + seq!['\n'] + b;
    crate::text::lemma_index_of_first(t, '\n', 0, x.len() as int);
    assert(t.take(x.len() as int) =~= x);
    assert(t.skip(x.len() as int + 1) =~= b);
}

/// Law: a line that sets none of the fields read (`Architecture: aarch64`, say), put
/// anywhere in a paragraph, changes nothing of the record read from it: `a` is the
/// paragraph's text before the line (empty or ending a line) and `b` the text after it.
pub proof fn law_other_line_ignored(a: Seq<char>, x: Seq<char>, b: Seq<char>)
    requires
        a.len() == 0 || a.last() == '\n',
        forall|i: int| 0 <= i < x.len() ==> x[i] != '\n',
        other_line(x),
    ensures
        paragraph_record(a + x + seq!['\n'] + b) == paragraph_record(a + b),
{
    let y = crate::http::strip_cr(x);
    assert(a + x + seq!['\n'] + b =~= a + (x + seq!['\n'] + b));
    lemma_lines_concat(a, x + seq!['\n'] + b);
    lemma_lines_first(x, b);
    lemma_lines_concat(a, b);
    lemma_trim_end_prefix(y, '\r');
    let z = trim_end_char(y, '\r');
    assert forall|i: int| 0 <= i < z.len() implies z[i] == x[i] by {
        assert(z[i] == y[i]);
        assert(y.len() <= x.len() && y[i] == x[i]);
    }
    lemma_other_prefix(x, z);
    let la = lines_spec(a);
    let lb = lines_spec(b);
    assert(lines_spec(a + x + seq!['\n'] + b) =~= la + seq![y] + lb);
    lemma_read_lines_skip(la, y, lb);
}

} // verus!
