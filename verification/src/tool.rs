//! Decisions of the payload build: which files of the Termux packages are libraries,
//! which name a library keeps, which files of the app tree are stripped, the run path of
//! each binary, text patches, and the libraries that are still missing.

use vstd::prelude::*;

use crate::text::string_views;

use crate::text::{chars_of, find, find_in, matches_here, push_chars, rindex_of, rindex_of_char, starts_with, string_of};
use vstd::utf8::encode_utf8;

verus! {

/// Whether `s` ends with `p`.
pub open spec fn ends_with(s: Seq<char>, p: Seq<char>) -> bool {
    p.len() <= s.len() && s.subrange(s.len() - p.len(), s.len() as int) == p
}

/// Whether `s` ends with `p`.
pub fn ends_with_str(s: &str, p: &str) -> (b: bool)
    ensures
        b == ends_with(s@, p@),
{
    let v = chars_of(s);
    let w = chars_of(p);
    if w.len() > v.len() {
        return false;
    }
    let r = matches_here(&v, &w, v.len() - w.len());
    assert(r == ends_with(s@, p@));
    r
}

/// Whether `s` starts with `p`.
pub fn starts_with_str(s: &str, p: &str) -> (b: bool)
    ensures
        b == starts_with(s@, p@),
{
    let v = chars_of(s);
    let w = chars_of(p);
    let r = matches_here(&v, &w, 0);
    assert(r == starts_with(s@, p@)) by {
        if starts_with(s@, p@) {
            assert(crate::text::matches_at(v@, w@, 0));
        }
    }
    r
}

/// Whether `s` contains `p`.
pub fn contains_str(s: &str, p: &str) -> (b: bool)
    ensures
        b == crate::text::contains(s@, p@),
{
    let v = chars_of(s);
    let w = chars_of(p);
    find_in(&v, &w, 0).is_some()
}

/// The last `/`-separated part of a path (`rsplit('/').next()`).
pub open spec fn basename(p: Seq<char>) -> Seq<char> {
    match rindex_of(p, '/') {
        Some(i) => p.skip(i + 1),
        None => p,
    }
}

/// The file name of a package member that is a shared library: a base name that starts
/// with `lib` and contains `.so`.
pub open spec fn lib_basename_spec(inner: Seq<char>) -> Option<Seq<char>> {
    let b = basename(inner);
    if starts_with(b, "lib"@) && crate::text::contains(b, ".so"@) {
        Some(b)
    } else {
        None
    }
}

/// The file name under which a package member is collected as a library, if it is one.
pub fn lib_basename(inner: &str) -> (r: Option<String>)
    ensures
        r matches Some(b) ==> lib_basename_spec(inner@) == Some(b@),
        r is None ==> lib_basename_spec(inner@) is None,
{
    let v = chars_of(inner);
    assert(v@.subrange(0, v@.len() as int) =~= v@);
    proof {
        crate::text::lemma_rindex_of(v@, '/');
    }
    let start = match rindex_of_char(&v, '/', 0, v.len()) {
        Some(i) => i + 1,
        None => 0,
    };
    assert(v@.subrange(start as int, v@.len() as int) =~= basename(inner@));
    let b = string_of(&v, start, v.len());
    if starts_with_str(b.as_str(), "lib") && contains_str(b.as_str(), ".so") {
        Some(b)
    } else {
        None
    }
}

/// The run path given to a file of the prefix: libraries find their peers next to them,
/// programs in `../lib`.
pub open spec fn rpath_spec(file_name: Seq<char>) -> Seq<char> {
    if starts_with(file_name, "lib"@) {
        "$ORIGIN"@
    } else {
        "$ORIGIN/../lib"@
    }
}

/// The run path given to a file of the prefix.
pub fn rpath_for(file_name: &str) -> (r: String)
    ensures
        r@ == rpath_spec(file_name@),
{
    if starts_with_str(file_name, "lib") {
        "$ORIGIN".to_owned()
    } else {
        "$ORIGIN/../lib".to_owned()
    }
}

/// Directories removed from `node_modules`.
pub open spec fn stripped_dir_spec(name: Seq<char>) -> bool {
    ||| name == "test"@
    ||| name == "tests"@
    ||| name == "__tests__"@
    ||| name == "spec"@
    ||| name == "bench"@
    ||| name == "benchmark"@
    ||| name == "docs"@
    ||| name == "examples"@
    ||| name == "fixtures"@
    ||| name == "coverage"@
}

/// Whether a directory of `node_modules` is removed.
pub fn stripped_dir(name: &str) -> (b: bool)
    ensures
        b == stripped_dir_spec(name@),
{
    let is = |w: &str| -> (r: bool)
        ensures
            r == (name@ == w@),
        { crate::cli::same_str(name, w) };
    is("test") || is("tests") || is("__tests__") || is("spec") || is("bench") || is("benchmark")
        || is("docs") || is("examples") || is("fixtures") || is("coverage")
}

/// `str::to_lowercase`: the Unicode lower case of a text.
pub uninterp spec fn unicode_lower(s: Seq<char>) -> Seq<char>;

/// The Unicode lower case of `s` by `str::to_lowercase`.
#[verifier::external_body]
fn to_lowercase(s: &str) -> (r: String)
    ensures
        r@ == unicode_lower(s@),
{
    s.to_lowercase()
}

/// Files removed from `node_modules`: source maps, type declarations, Markdown (any case)
/// and the usual documentation files.
pub open spec fn stripped_file_spec(name: Seq<char>) -> bool {
    let low = unicode_lower(name);
    ||| ends_with(name, ".map"@)
    ||| ends_with(name, ".d.ts"@)
    ||| ends_with(low, ".md"@)
    ||| ends_with(low, ".markdown"@)
    ||| starts_with(name, "README"@)
    ||| starts_with(name, "CHANGELOG"@)
    ||| starts_with(name, "CHANGES"@)
    ||| starts_with(name, "HISTORY"@)
    ||| starts_with(name, "LICENSE"@)
    ||| starts_with(name, "NOTICE"@)
    ||| starts_with(name, "AUTHORS"@)
    ||| starts_with(name, "CONTRIBUTING"@)
    ||| starts_with(name, "SECURITY"@)
}

/// Whether a file of `node_modules` is removed.
pub fn stripped_file(name: &str) -> (b: bool)
    ensures
        b == stripped_file_spec(name@),
{
    let low = to_lowercase(name);
    ends_with_str(name, ".map") || ends_with_str(name, ".d.ts") || ends_with_str(low.as_str(), ".md")
        || ends_with_str(low.as_str(), ".markdown") || starts_with_str(name, "README")
        || starts_with_str(name, "CHANGELOG") || starts_with_str(name, "CHANGES")
        || starts_with_str(name, "HISTORY") || starts_with_str(name, "LICENSE")
        || starts_with_str(name, "NOTICE") || starts_with_str(name, "AUTHORS")
        || starts_with_str(name, "CONTRIBUTING") || starts_with_str(name, "SECURITY")
}

/// `s` with its first occurrence of `old` replaced by `new`; `None` when `old` does not
/// occur.
pub open spec fn patch_once_spec(s: Seq<char>, old: Seq<char>, new: Seq<char>) -> Option<Seq<char>> {
    match find(s, old) {
        Some(i) => Some(s.take(i) + new + s.skip(i + old.len())),
        None => None,
    }
}

/// Replaces the first occurrence of `old` in `s` by `new`; `None` when it does not occur.
pub fn patch_once(s: &str, old: &str, new: &str) -> (r: Option<String>)
    ensures
        r matches Some(t) ==> patch_once_spec(s@, old@, new@) == Some(t@),
        r is None ==> patch_once_spec(s@, old@, new@) is None,
{
    let v = chars_of(s);
    let o = chars_of(old);
    match find_in(&v, &o, 0) {
        Some(i) => {
            proof {
                crate::text::lemma_find_from_found(v@, o@, 0);
                assert(i + o@.len() <= v@.len());
            }
            let n = v.len();
            let mut out = String::new();
            push_chars(&mut out, &v, 0, i);
            crate::text::push_str(&mut out, new);
            push_chars(&mut out, &v, i + o.len(), n);
            assert(out@ =~= s@.take(i as int) + new@ + s@.skip(i + old@.len()));
            Some(out)
        },
        None => None,
    }
}

/// Libraries never shipped.
pub open spec fn dropped_lib_spec(name: Seq<char>) -> bool {
    ||| name == "libpcre2-16.so"@
    ||| name == "libpcre2-32.so"@
    ||| name == "libpcre2-posix.so"@
    ||| name == "libsqlite3.53.4.so"@
}

/// Whether a library is never shipped.
pub fn dropped_lib(name: &str) -> (b: bool)
    ensures
        b == dropped_lib_spec(name@),
{
    let is = |w: &str| -> (r: bool)
        ensures
            r == (name@ == w@),
        { crate::cli::same_str(name, w) };
    is("libpcre2-16.so") || is("libpcre2-32.so") || is("libpcre2-posix.so") || is(
        "libsqlite3.53.4.so",
    )
}

/// Library names kept in preference when a library has no soname.
pub open spec fn priority_lib_spec(name: Seq<char>) -> bool {
    ||| name == "libncursesw.so.6"@
    ||| name == "libreadline.so.8"@
    ||| name == "libhistory.so.8"@
    ||| name == "libsqlite3.so"@
    ||| name == "libz.so.1"@
    ||| name == "libcrypto.so.3"@
    ||| name == "libssl.so.3"@
    ||| name == "libicudata.so.78"@
    ||| name == "libicui18n.so.78"@
    ||| name == "libicuuc.so.78"@
    ||| name == "libc++.so.1"@
    ||| name == "libc++abi.so.1"@
    ||| name == "libgcc_s.so.1"@
    ||| name == "libandroid-support.so"@
    ||| name == "libiconv.so.2"@
    ||| name == "libcharset.so.1"@
    ||| name == "libpcre2-8.so.0"@
    ||| name == "libcares.so.2"@
    ||| name == "libffi.so.8"@
}

/// Whether a library name is kept in preference.
pub fn priority_lib(name: &str) -> (b: bool)
    ensures
        b == priority_lib_spec(name@),
{
    let is = |w: &str| -> (r: bool)
        ensures
            r == (name@ == w@),
        { crate::cli::same_str(name, w) };
    is("libncursesw.so.6") || is("libreadline.so.8") || is("libhistory.so.8") || is(
        "libsqlite3.so",
    ) || is("libz.so.1") || is("libcrypto.so.3") || is("libssl.so.3") || is("libicudata.so.78")
        || is("libicui18n.so.78") || is("libicuuc.so.78") || is("libc++.so.1") || is(
        "libc++abi.so.1",
    ) || is("libgcc_s.so.1") || is("libandroid-support.so") || is("libiconv.so.2") || is(
        "libcharset.so.1",
    ) || is("libpcre2-8.so.0") || is("libcares.so.2") || is("libffi.so.8")
}

/// Libraries that Android itself provides.
pub open spec fn system_lib_spec(name: Seq<char>) -> bool {
    ||| name == "libc.so"@
    ||| name == "libdl.so"@
    ||| name == "libm.so"@
    ||| name == "liblog.so"@
    ||| name == "libandroid.so"@
    ||| name == "libEGL.so"@
    ||| name == "libGLESv2.so"@
    ||| name == "libOpenSLES.so"@
    ||| name == "libjnigraphics.so"@
    ||| name == "libmediandk.so"@
    ||| name == "libandroid_runtime.so"@
    ||| name == "libutils.so"@
    ||| name == "libcutils.so"@
    ||| name == "libbinder.so"@
}

/// Whether Android itself provides a library.
pub fn system_lib(name: &str) -> (b: bool)
    ensures
        b == system_lib_spec(name@),
{
    let is = |w: &str| -> (r: bool)
        ensures
            r == (name@ == w@),
        { crate::cli::same_str(name, w) };
    is("libc.so") || is("libdl.so") || is("libm.so") || is("liblog.so") || is("libandroid.so")
        || is("libEGL.so") || is("libGLESv2.so") || is("libOpenSLES.so") || is("libjnigraphics.so")
        || is("libmediandk.so") || is("libandroid_runtime.so") || is("libutils.so") || is(
        "libcutils.so",
    ) || is("libbinder.so")
}

/// The first soname of a non-dropped member of a group, from member `i` on.
pub open spec fn soname_from(names: Seq<Seq<char>>, sonames: Seq<Option<Seq<char>>>, i: int) -> Option<
    Seq<char>,
>
    decreases names.len() - i,
{
    if i < 0 || i >= names.len() {
        None
    } else if !dropped_lib_spec(names[i]) && (sonames[i] matches Some(s) && s.len() > 0) {
        sonames[i]
    } else {
        soname_from(names, sonames, i + 1)
    }
}

/// The first preferred name of a group, from member `i` on.
pub open spec fn priority_from(names: Seq<Seq<char>>, i: int) -> Option<Seq<char>>
    decreases names.len() - i,
{
    if i < 0 || i >= names.len() {
        None
    } else if priority_lib_spec(names[i]) {
        Some(names[i])
    } else {
        priority_from(names, i + 1)
    }
}

/// The first of the shortest names (in UTF-8 bytes) of a group, from member `i` on.
pub open spec fn shortest_from(names: Seq<Seq<char>>, i: int) -> Option<Seq<char>>
    decreases names.len() - i,
{
    if i < 0 || i >= names.len() {
        None
    } else {
        match shortest_from(names, i + 1) {
            Some(b) => if encode_utf8(b).len() < encode_utf8(names[i]).len() {
                Some(b)
            } else {
                Some(names[i])
            },
            None => Some(names[i]),
        }
    }
}

/// The name a group of identical libraries (sorted by name) is shipped under: the first
/// soname of a member that is not dropped, else the first preferred name, else the first
/// shortest name; nothing when that name is a dropped one.
pub open spec fn lib_name_spec(names: Seq<Seq<char>>, sonames: Seq<Option<Seq<char>>>) -> Option<
    Seq<char>,
> {
    let best = match soname_from(names, sonames, 0) {
        Some(s) => Some(s),
        None => match priority_from(names, 0) {
            Some(p) => Some(p),
            None => shortest_from(names, 0),
        },
    };
    match best {
        Some(b) => if dropped_lib_spec(b) {
            None
        } else {
            Some(b)
        },
        None => None,
    }
}

/// The views of optional strings.
pub open spec fn opt_views(v: Seq<Option<String>>) -> Seq<Option<Seq<char>>> {
    v.map_values(|o: Option<String>| crate::link::opt_view(o))
}

/// The number of UTF-8 bytes of a text (`str::len`).
pub fn utf8_len(t: &str) -> (n: u128)
    ensures
        n == encode_utf8(t@).len(),
{
    let v = chars_of(t);
    let mut i = v.len();
    let mut n: u128 = 0;
    assert(v@.skip(i as int) =~= Seq::<char>::empty());
    while i > 0
        invariant
            v@ == t@,
            i <= v@.len(),
            v@.len() <= usize::MAX,
            n == encode_utf8(v@.skip(i as int)).len(),
            n <= 4 * (v@.len() - i),
        decreases i,
    {
        i = i - 1;
        let u = v[i] as u32;
        let w: u128 = if u <= 0x7f {
            1
        } else if u <= 0x7ff {
            2
        } else if u <= 0xffff {
            3
        } else {
            4
        };
        assert(v@.skip(i as int).drop_first() =~= v@.skip(i + 1));
        proof {
            vstd::utf8::char_is_scalar(v@[i as int]);
        }
        assert(w == vstd::utf8::encode_scalar(v@[i as int] as u32).len());
        assert(n + w <= 4 * (v@.len() - i));
        n = n + w;
    }
    assert(v@.skip(0) =~= v@);
    n
}

/// The first soname of a non-dropped member, from member `i` on.
fn first_soname(names: &Vec<String>, sonames: &Vec<Option<String>>) -> (r: Option<String>)
    requires
        names@.len() == sonames@.len(),
    ensures
        crate::link::opt_view(r) == soname_from(string_views(names@), opt_views(sonames@), 0),
{
    let ghost ns = string_views(names@);
    let ghost ss = opt_views(sonames@);
    let mut i: usize = 0;
    while i < names.len()
        invariant
            names@.len() == sonames@.len(),
            ns == string_views(names@),
            ss == opt_views(sonames@),
            i <= names@.len(),
            soname_from(ns, ss, 0) == soname_from(ns, ss, i as int),
        decreases names@.len() - i,
    {
        if !dropped_lib(names[i].as_str()) {
            match &sonames[i] {
                Some(s) => {
                    if !s.as_str().is_empty() {
                        return Some(s.clone());
                    }
                },
                None => {},
            }
        }
        i = i + 1;
    }
    None
}

/// The first preferred name of a group.
fn first_priority(names: &Vec<String>) -> (r: Option<String>)
    ensures
        crate::link::opt_view(r) == priority_from(string_views(names@), 0),
{
    let ghost ns = string_views(names@);
    let mut j: usize = 0;
    while j < names.len()
        invariant
            ns == string_views(names@),
            j <= names@.len(),
            priority_from(ns, 0) == priority_from(ns, j as int),
        decreases names@.len() - j,
    {
        if priority_lib(names[j].as_str()) {
            return Some(names[j].clone());
        }
        j = j + 1;
    }
    None
}

/// The first of the shortest names of a group.
fn first_shortest(names: &Vec<String>) -> (r: Option<String>)
    ensures
        crate::link::opt_view(r) == shortest_from(string_views(names@), 0),
{
    let ghost ns = string_views(names@);
    if names.len() == 0 {
        return None;
    }
    let mut k: usize = names.len() - 1;
    let mut m: usize = k;
    assert(shortest_from(ns, names@.len() as int) is None);
    while k > 0
        invariant
            ns == string_views(names@),
            0 <= k <= m < names@.len(),
            shortest_from(ns, k as int) == Some(ns[m as int]),
        decreases k,
    {
        k = k - 1;
        if utf8_len(names[m].as_str()) < utf8_len(names[k].as_str()) {
        } else {
            m = k;
        }
    }
    Some(names[m].clone())
}

/// The name a group of identical libraries is shipped under; `names` sorted, `sonames[i]`
/// the soname of member `i`.
pub fn lib_name(names: &Vec<String>, sonames: &Vec<Option<String>>) -> (r: Option<String>)
    requires
        names@.len() == sonames@.len(),
    ensures
        crate::link::opt_view(r) == lib_name_spec(string_views(names@), opt_views(sonames@)),
{
    let best = match first_soname(names, sonames) {
        Some(s) => Some(s),
        None => match first_priority(names) {
            Some(p) => Some(p),
            None => first_shortest(names),
        },
    };
    match best {
        Some(b) => if dropped_lib(b.as_str()) {
            None
        } else {
            Some(b)
        },
        None => None,
    }
}

/// Whether `have` holds the text `n`.
pub(crate) fn holds(have: &Vec<String>, n: &str) -> (b: bool)
    ensures
        b == string_views(have@).contains(n@),
{
    let mut j: usize = 0;
    while j < have.len()
        invariant
            j <= have@.len(),
            forall|k: int| 0 <= k < j ==> string_views(have@)[k] != n@,
        decreases have@.len() - j,
    {
        if crate::cli::same_str(have[j].as_str(), n) {
            assert(string_views(have@)[j as int] == n@);
            return true;
        }
        j = j + 1;
    }
    false
}

/// The libraries a binary needs that neither the library directory nor Android provides,
/// in order.
pub open spec fn missing_spec(needed: Seq<Seq<char>>, have: Seq<Seq<char>>) -> Seq<Seq<char>>
    decreases needed.len(),
{
    if needed.len() == 0 {
        Seq::empty()
    } else {
        let rest = missing_spec(needed.drop_last(), have);
        let n = needed.last();
        if !have.contains(n) && !system_lib_spec(n) {
            rest.push(n)
        } else {
            rest
        }
    }
}

/// The libraries a binary needs that neither `have` nor Android provides.
pub fn missing_needed(needed: &Vec<String>, have: &Vec<String>) -> (r: Vec<String>)
    ensures
        string_views(r@) == missing_spec(string_views(needed@), string_views(have@)),
{
    let mut out: Vec<String> = Vec::new();
    let mut i: usize = 0;
    while i < needed.len()
        invariant
            i <= needed@.len(),
            string_views(out@) == missing_spec(string_views(needed@).take(i as int), string_views(have@)),
        decreases needed@.len() - i,
    {
        let n = needed[i].as_str();
        let found = holds(have, n);
        proof {
            assert(string_views(needed@).take(i + 1).drop_last() =~= string_views(needed@).take(i as int));
            assert(string_views(needed@).take(i + 1).last() == n@);
        }
        let ghost before = out@;
        if !found && !system_lib(n) {
            out.push(needed[i].clone());
            assert(string_views(out@) =~= string_views(before).push(n@));
        }
        i = i + 1;
    }
    assert(string_views(needed@).take(needed@.len() as int) =~= string_views(needed@));
    out
}

// ------------------------------------------------------------------ package contents

/// Where the files of a Termux package live inside its data archive.
pub const TERMUX_USR: &'static str = "./data/data/com.termux/files/usr/";

/// The file that each package contributes besides its libraries (a path under the
/// prefix): the programs and the certificate bundle; `None` for library-only packages.
pub open spec fn package_file_spec(pkg: Seq<char>) -> Option<Seq<char>> {
    if pkg == "nodejs"@ {
        Some("bin/node"@)
    } else if pkg == "bash"@ {
        Some("bin/bash"@)
    } else if pkg == "ripgrep"@ {
        Some("bin/rg"@)
    } else if pkg == "ca-certificates"@ {
        Some("etc/ssl/certs/ca-certificates.crt"@)
    } else {
        None
    }
}

/// The file that a package contributes besides its libraries.
pub fn package_file(pkg: &str) -> (r: Option<String>)
    ensures
        crate::link::opt_view(r) == package_file_spec(pkg@),
{
    if crate::cli::same_str(pkg, "nodejs") {
        Some("bin/node".to_owned())
    } else if crate::cli::same_str(pkg, "bash") {
        Some("bin/bash".to_owned())
    } else if crate::cli::same_str(pkg, "ripgrep") {
        Some("bin/rg".to_owned())
    } else if crate::cli::same_str(pkg, "ca-certificates") {
        Some("etc/ssl/certs/ca-certificates.crt".to_owned())
    } else {
        None
    }
}

/// Whether archive member `inner` is the file `outname` of the prefix.
pub fn is_member_for(inner: &str, outname: &str) -> (b: bool)
    ensures
        b == (inner@ == TERMUX_USR@ + outname@),
{
    let mut want = String::new();
    crate::text::push_str(&mut want, TERMUX_USR);
    crate::text::push_str(&mut want, outname);
    crate::cli::same_str(inner, want.as_str())
}

/// Where a member of the certificate package goes, in either of its layouts.
pub open spec fn cert_target_spec(inner: Seq<char>) -> Option<Seq<char>> {
    if inner == TERMUX_USR@ + "etc/tls/cert.pem"@ {
        Some("etc/tls/cert.pem"@)
    } else if inner == TERMUX_USR@ + "etc/ssl/certs/ca-certificates.crt"@ {
        Some("etc/ssl/certs/ca-certificates.crt"@)
    } else {
        None
    }
}

/// Where a member of the certificate package goes, if it is a certificate bundle.
pub fn cert_target(inner: &str) -> (r: Option<String>)
    ensures
        crate::link::opt_view(r) == cert_target_spec(inner@),
{
    if is_member_for(inner, "etc/tls/cert.pem") {
        Some("etc/tls/cert.pem".to_owned())
    } else if is_member_for(inner, "etc/ssl/certs/ca-certificates.crt") {
        Some("etc/ssl/certs/ca-certificates.crt".to_owned())
    } else {
        None
    }
}

// ------------------------------------------------------------------ the app tree

/// Platform builds of native add-ons that Android has no use for: the per-platform
/// packages of the landlock and require-builtin add-ons (not the add-ons themselves).
pub open spec fn platform_pkg_dropped_spec(name: Seq<char>) -> bool {
    ||| (starts_with(name, "node-addon-landlock-run-"@) && name != "node-addon-landlock-run"@)
    ||| (starts_with(name, "node-addon-require-builtin-"@) && name != "node-addon-require-builtin"@)
}

/// Whether a package under `@deepseek-ai` is a platform build that is removed.
pub fn platform_pkg_dropped(name: &str) -> (b: bool)
    ensures
        b == platform_pkg_dropped_spec(name@),
{
    (starts_with_str(name, "node-addon-landlock-run-") && !crate::cli::same_str(
        name,
        "node-addon-landlock-run",
    )) || (starts_with_str(name, "node-addon-require-builtin-") && !crate::cli::same_str(
        name,
        "node-addon-require-builtin",
    ))
}

/// The ripgrep platform packages kept (both built from the Termux `rg`).
pub open spec fn kept_rg_pkg_spec(name: Seq<char>) -> bool {
    name == "ripgrep-android-arm64"@ || name == "ripgrep-linux-arm64"@
}

/// Whether a package under `@vscode` is a ripgrep build for another platform.
pub fn foreign_rg_pkg(name: &str) -> (b: bool)
    ensures
        b == (starts_with(name@, "ripgrep-"@) && !kept_rg_pkg_spec(name@)),
{
    starts_with_str(name, "ripgrep-") && !(crate::cli::same_str(name, "ripgrep-android-arm64")
        || crate::cli::same_str(name, "ripgrep-linux-arm64"))
}

/// The `package.json` of a generated ripgrep platform package.
pub open spec fn rg_package_json_spec(plat: Seq<char>) -> Seq<char> {
    "{\"name\":\"@vscode/ripgrep-"@ + plat + "\",\"version\":\"15.2.0\"}\n"@
}

/// The `package.json` of a generated ripgrep platform package.
pub fn rg_package_json(plat: &str) -> (s: String)
    ensures
        s@ == rg_package_json_spec(plat@),
{
    let mut s = String::new();
    crate::text::push_str(&mut s, "{\"name\":\"@vscode/ripgrep-");
    crate::text::push_str(&mut s, plat);
    crate::text::push_str(&mut s, "\",\"version\":\"15.2.0\"}\n");
    assert(s@ =~= rg_package_json_spec(plat@));
    s
}

/// The name in the payload archive of a file at `rel` under a root packed as `prefix`;
/// source maps are left out.
pub open spec fn payload_entry_spec(prefix: Seq<char>, rel: Seq<char>) -> Option<Seq<char>> {
    if ends_with(rel, ".map"@) {
        None
    } else {
        Some(prefix + "/"@ + rel)
    }
}

/// The name in the payload archive of a file, or `None` for a source map.
pub fn payload_entry(prefix: &str, rel: &str) -> (r: Option<String>)
    ensures
        crate::link::opt_view(r) == payload_entry_spec(prefix@, rel@),
{
    if ends_with_str(rel, ".map") {
        return None;
    }
    let mut s = String::new();
    crate::text::push_str(&mut s, prefix);
    crate::text::push_str(&mut s, "/");
    crate::text::push_str(&mut s, rel);
    assert(s@ =~= prefix@ + "/"@ + rel@);
    Some(s)
}

} // verus!
