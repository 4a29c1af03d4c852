//! Choosing which libraries to ship: libraries with the same contents are shipped once,
//! under the name `tool::lib_name` picks for them, and the plan comes in order of name.

use vstd::prelude::*;
use vstd::relations::{sorted_by, total_ordering};

use crate::elf::{elf_soname, is_elf, soname_spec};
use crate::tool::{dropped_lib_spec, lib_name, lib_name_spec, soname_from};

verus! {

// ------------------------------------------------------------------ orders

/// Lexicographic order on sequences, elements compared by `key`.
pub open spec fn lex_le<T>(a: Seq<T>, b: Seq<T>, key: spec_fn(T) -> int) -> bool
    decreases a.len(),
{
    if a.len() == 0 {
        true
    } else if b.len() == 0 {
        false
    } else if key(a[0]) != key(b[0]) {
        key(a[0]) < key(b[0])
    } else {
        lex_le(a.drop_first(), b.drop_first(), key)
    }
}

/// Whether `key` tells every two elements apart.
pub open spec fn key_injective<T>(key: spec_fn(T) -> int) -> bool {
    forall|x: T, y: T| #[trigger] key(x) == #[trigger] key(y) ==> x == y
}

proof fn lemma_lex_refl<T>(a: Seq<T>, key: spec_fn(T) -> int)
    ensures
        lex_le(a, a, key),
    decreases a.len(),
{
    if a.len() > 0 {
        lemma_lex_refl(a.drop_first(), key);
    }
}

proof fn lemma_lex_antisym<T>(a: Seq<T>, b: Seq<T>, key: spec_fn(T) -> int)
    requires
        key_injective(key),
        lex_le(a, b, key),
        lex_le(b, a, key),
    ensures
        a == b,
    decreases a.len(),
{
    if a.len() > 0 && b.len() > 0 {
        lemma_lex_antisym(a.drop_first(), b.drop_first(), key);
        assert(a[0] == b[0]);
        assert(a =~= seq![a[0]] + a.drop_first());
        assert(b =~= seq![b[0]] + b.drop_first());
    } else {
        assert(a.len() == 0 && b.len() == 0);
        assert(a =~= b);
    }
}

proof fn lemma_lex_trans<T>(a: Seq<T>, b: Seq<T>, c: Seq<T>, key: spec_fn(T) -> int)
    requires
        lex_le(a, b, key),
        lex_le(b, c, key),
    ensures
        lex_le(a, c, key),
    decreases a.len(),
{
    if a.len() > 0 && b.len() > 0 && c.len() > 0 {
        if key(a[0]) == key(b[0]) && key(b[0]) == key(c[0]) {
            lemma_lex_trans(a.drop_first(), b.drop_first(), c.drop_first(), key);
        }
    }
}

proof fn lemma_lex_total<T>(a: Seq<T>, b: Seq<T>, key: spec_fn(T) -> int)
    ensures
        lex_le(a, b, key) || lex_le(b, a, key),
    decreases a.len(),
{
    if a.len() > 0 && b.len() > 0 {
        lemma_lex_total(a.drop_first(), b.drop_first(), key);
    }
}

/// Two texts in order of code points, character by character: the order in which `str`
/// compares (UTF-8 keeps the order of code points).
pub open spec fn text_le(a: Seq<char>, b: Seq<char>) -> bool {
    lex_le(a, b, |c: char| c as int)
}

/// Two byte strings in lexicographic order.
pub open spec fn bytes_le(a: Seq<u8>, b: Seq<u8>) -> bool {
    lex_le(a, b, |x: u8| x as int)
}

/// A library entry: its name and its contents.
pub type EntryView = (Seq<char>, Seq<u8>);

/// Entries in order of name, then of contents: the order of `(String, Vec<u8>)`.
pub open spec fn entry_le(x: EntryView, y: EntryView) -> bool {
    if x.0 == y.0 {
        bytes_le(x.1, y.1)
    } else {
        text_le(x.0, y.0)
    }
}

/// `entry_le` as a relation.
pub open spec fn entry_order() -> spec_fn(EntryView, EntryView) -> bool {
    |x: EntryView, y: EntryView| entry_le(x, y)
}

/// The order of entries is a total order.
pub proof fn lemma_entry_order_total()
    ensures
        total_ordering(entry_order()),
{
    let tk = |c: char| c as int;
    let bk = |x: u8| x as int;
    assert(key_injective(tk)) by {
        assert forall|x: char, y: char| #[trigger] tk(x) == #[trigger] tk(y) implies x == y by {
            vstd::utf8::char_u32_cast(x, x as u32);
            vstd::utf8::char_u32_cast(y, y as u32);
        }
    }
    assert(key_injective(bk));
    let r = entry_order();
    assert forall|x: EntryView| #[trigger] r(x, x) by {
        lemma_lex_refl(x.1, bk);
    }
    assert forall|x: EntryView, y: EntryView| #[trigger] r(x, y) && #[trigger] r(y, x) implies x == y by {
        if x.0 == y.0 {
            lemma_lex_antisym(x.1, y.1, bk);
        } else {
            lemma_lex_antisym(x.0, y.0, tk);
        }
    }
    assert forall|x: EntryView, y: EntryView, z: EntryView|
        #[trigger] r(x, y) && #[trigger] r(y, z) implies r(x, z) by {
        if x.0 == y.0 && y.0 == z.0 {
            lemma_lex_trans(x.1, y.1, z.1, bk);
        } else if x.0 == y.0 {
            assert(r(x, z));
        } else if y.0 == z.0 {
            assert(r(x, z));
        } else {
            lemma_lex_trans(x.0, y.0, z.0, tk);
            if x.0 == z.0 {
                lemma_lex_antisym(x.0, y.0, tk);
            }
        }
    }
    assert forall|x: EntryView, y: EntryView| #[trigger] r(x, y) || #[trigger] r(y, x) by {
        lemma_lex_total(x.0, y.0, tk);
        lemma_lex_total(x.1, y.1, bk);
    }
}

// ------------------------------------------------------------------ comparing

/// Whether `a` comes before `b` or equals it, character by character.
fn text_le_exec(a: &Vec<char>, b: &Vec<char>) -> (r: bool)
    ensures
        r == text_le(a@, b@),
{
    let mut i: usize = 0;
    assert(a@.skip(0) =~= a@);
    assert(b@.skip(0) =~= b@);
    while i < a.len() && i < b.len()
        invariant
            i <= a@.len(),
            i <= b@.len(),
            text_le(a@, b@) == text_le(a@.skip(i as int), b@.skip(i as int)),
        decreases a@.len() - i,
    {
        assert(a@.skip(i as int)[0] == a@[i as int]);
        assert(b@.skip(i as int)[0] == b@[i as int]);
        if a[i] != b[i] {
            proof {
                vstd::utf8::char_u32_cast(a@[i as int], #[verifier::truncate] (a@[i as int] as u32));
                vstd::utf8::char_u32_cast(b@[i as int], #[verifier::truncate] (b@[i as int] as u32));
            }
            return (a[i] as u32) < (b[i] as u32);
        }
        assert(a@.skip(i as int).drop_first() =~= a@.skip(i + 1));
        assert(b@.skip(i as int).drop_first() =~= b@.skip(i + 1));
        i = i + 1;
    }
    i == a.len()
}

/// Whether `a` comes before `b` or equals it, byte by byte.
fn bytes_le_exec(a: &Vec<u8>, b: &Vec<u8>) -> (r: bool)
    ensures
        r == bytes_le(a@, b@),
{
    let mut i: usize = 0;
    assert(a@.skip(0) =~= a@);
    assert(b@.skip(0) =~= b@);
    while i < a.len() && i < b.len()
        invariant
            i <= a@.len(),
            i <= b@.len(),
            bytes_le(a@, b@) == bytes_le(a@.skip(i as int), b@.skip(i as int)),
        decreases a@.len() - i,
    {
        assert(a@.skip(i as int)[0] == a@[i as int]);
        assert(b@.skip(i as int)[0] == b@[i as int]);
        if a[i] != b[i] {
            return a[i] < b[i];
        }
        assert(a@.skip(i as int).drop_first() =~= a@.skip(i + 1));
        assert(b@.skip(i as int).drop_first() =~= b@.skip(i + 1));
        i = i + 1;
    }
    i == a.len()
}

/// The model of an entry.
pub open spec fn entry_view(e: (String, Vec<u8>)) -> EntryView {
    (e.0@, e.1@)
}

/// The models of entries.
pub open spec fn entry_views(v: Seq<(String, Vec<u8>)>) -> Seq<EntryView> {
    v.map_values(|e: (String, Vec<u8>)| entry_view(e))
}

/// Whether entry `x` comes before `y` or equals it.
fn entry_le_exec(x: &(String, Vec<u8>), y: &(String, Vec<u8>)) -> (r: bool)
    ensures
        r == entry_le(entry_view(*x), entry_view(*y)),
{
    if crate::cli::same_str(x.0.as_str(), y.0.as_str()) {
        bytes_le_exec(&x.1, &y.1)
    } else {
        text_le_exec(&crate::text::chars_of(x.0.as_str()), &crate::text::chars_of(y.0.as_str()))
    }
}

/// The entries in order of name, then of contents (as `Vec::sort` orders them).
pub fn sort_entries(v: Vec<(String, Vec<u8>)>) -> (r: Vec<(String, Vec<u8>)>)
    ensures
        entry_views(r@) == entry_views(v@).sort_by(entry_order()),
{
    broadcast use vstd::seq_lib::group_to_multiset_ensures;

    let ghost v0 = entry_views(v@);
    let mut rest = v;
    let mut out: Vec<(String, Vec<u8>)> = Vec::new();
    proof {
        lemma_entry_order_total();
        assert(entry_views(out@) =~= Seq::<EntryView>::empty());
        assert(entry_views(out@).to_multiset().add(entry_views(rest@).to_multiset()) =~= v0.to_multiset());
    }
    while rest.len() > 0
        invariant
            total_ordering(entry_order()),
            sorted_by(entry_views(out@), entry_order()),
            entry_views(out@).to_multiset().add(entry_views(rest@).to_multiset()) == v0.to_multiset(),
        decreases rest@.len(),
    {
        let ghost rest_before = rest@;
        let x = rest.pop().unwrap();
        let ghost xv = entry_view(x);
        proof {
            assert(entry_views(rest_before) =~= entry_views(rest@).push(xv));
        }
        let ghost ov = entry_views(out@);
        let mut p: usize = 0;
        let mut go = true;
        while go && p < out.len()
            invariant
                ov == entry_views(out@),
                xv == entry_view(x),
                p <= out@.len(),
                forall|q: int| 0 <= q < p ==> entry_le(#[trigger] ov[q], xv),
                !go ==> p < out@.len() && !entry_le(ov[p as int], xv),
            decreases out@.len() - p + (if go {
                1int
            } else {
                0int
            }),
        {
            assert(ov[p as int] == entry_view(out@[p as int]));
            if entry_le_exec(&out[p], &x) {
                p = p + 1;
            } else {
                go = false;
            }
        }
        out.insert(p, x);
        proof {
            let r = entry_order();
            let nv = entry_views(out@);
            assert(nv =~= ov.insert(p as int, xv));
            assert forall|i: int, j: int| 0 <= i < j < nv.len() implies #[trigger] r(nv[i], nv[j]) by {
                if j < p {
                    assert(r(ov[i], ov[j]));
                } else if j == p {
                    assert(entry_le(ov[i], xv));
                } else if i < p {
                    assert(r(ov[i], ov[j - 1]));
                } else if i == p {
                    assert(r(ov[p as int], xv) || r(xv, ov[p as int]));
                    if p < j - 1 {
                        assert(r(ov[p as int], ov[j - 1]));
                    }
                } else {
                    assert(r(ov[i - 1], ov[j - 1]));
                }
            }
            vstd::seq_lib::to_multiset_insert(ov, p as int, xv);
            vstd::seq_lib::to_multiset_build(entry_views(rest@), xv);
            assert(nv.to_multiset() == ov.to_multiset().insert(xv));
            assert(nv.to_multiset().add(entry_views(rest@).to_multiset()) =~= v0.to_multiset());
        }
    }
    proof {
        v0.lemma_sort_by_ensures(entry_order());
        assert(entry_views(rest@) =~= Seq::<EntryView>::empty());
        assert(entry_views(out@).to_multiset() =~= v0.to_multiset());
        vstd::seq_lib::lemma_sorted_unique(entry_views(out@), v0.sort_by(entry_order()), entry_order());
    }
    out
}

// ------------------------------------------------------------------ the plan

/// The names of the entries of `s` whose contents are `c`, in order.
pub open spec fn class_names(s: Seq<EntryView>, c: Seq<u8>) -> Seq<Seq<char>>
    decreases s.len(),
{
    if s.len() == 0 {
        Seq::empty()
    } else {
        let r = class_names(s.drop_last(), c);
        if s.last().1 == c {
            r.push(s.last().0)
        } else {
            r
        }
    }
}

/// Whether entry `i` of `s` is the first with its contents.
pub open spec fn first_of_class(s: Seq<EntryView>, i: int) -> bool {
    forall|j: int| 0 <= j < i ==> (#[trigger] s[j]).1 != s[i].1
}

/// The soname of a library, as `elf::elf_soname` reads it.
pub open spec fn soname_of(d: Seq<u8>) -> Option<Seq<char>> {
    if is_elf(d) {
        soname_spec(d)
    } else {
        None
    }
}

/// The name under which the libraries of `s` with contents `c` are shipped (`None`:
/// they are dropped): `lib_name` over their names in order, each with the soname of `c`.
pub open spec fn class_choice(s: Seq<EntryView>, c: Seq<u8>) -> Option<Seq<char>> {
    lib_name_spec(class_names(s, c), Seq::new(class_names(s, c).len(), |i: int| soname_of(c)))
}

/// The entries chosen from the first `k` entries of `s`: one for each contents, at its
/// first entry, under the name `class_choice` gives, where it gives one.
pub open spec fn chosen_from(s: Seq<EntryView>, k: int) -> Seq<EntryView>
    decreases k,
{
    if k <= 0 || k > s.len() {
        Seq::empty()
    } else {
        let r = chosen_from(s, k - 1);
        let c = s[k - 1].1;
        if first_of_class(s, k - 1) && class_choice(s, c) is Some {
            r.push((class_choice(s, c)->0, c))
        } else {
            r
        }
    }
}

/// The libraries to ship: the libraries in order of name (then contents), one entry for
/// each contents under its chosen name, in order of name.
pub open spec fn dedupe_spec(libs: Seq<EntryView>) -> Seq<EntryView> {
    let s = libs.sort_by(entry_order());
    chosen_from(s, s.len() as int).sort_by(entry_order())
}

/// What `sha1::Sha1::digest` gives for `data`: its SHA-1 digest.
pub uninterp spec fn sha1_digest(data: Seq<u8>) -> Seq<u8>;

/// The SHA-1 digest of `data`, by `sha1::Sha1::digest`.
#[verifier::external_body]
fn content_digest(data: &[u8]) -> (d: Vec<u8>)
    ensures
        d@ == sha1_digest(data@),
{
    <::sha1::Sha1 as ::sha1::Digest>::digest(data).to_vec()
}

/// Whether two byte strings are equal.
fn bytes_eq(a: &Vec<u8>, b: &Vec<u8>) -> (r: bool)
    ensures
        r == (a@ == b@),
{
    if a.len() != b.len() {
        return false;
    }
    let mut i: usize = 0;
    while i < a.len()
        invariant
            a@.len() == b@.len(),
            i <= a@.len(),
            forall|k: int| 0 <= k < i ==> a@[k] == b@[k],
        decreases a@.len() - i,
    {
        if a[i] != b[i] {
            return false;
        }
        i = i + 1;
    }
    assert(a@ =~= b@);
    true
}

/// Whether entries `i` and `j` have the same contents; their digests are compared first.
fn same_contents(s: &Vec<(String, Vec<u8>)>, ds: &Vec<Vec<u8>>, i: usize, j: usize) -> (r: bool)
    requires
        ds@.len() == s@.len(),
        i < s@.len(),
        j < s@.len(),
        forall|k: int| 0 <= k < s@.len() ==> (#[trigger] ds@[k])@ == sha1_digest(s@[k].1@),
    ensures
        r == (s@[i as int].1@ == s@[j as int].1@),
{
    if !bytes_eq(&ds[i], &ds[j]) {
        assert(ds@[i as int]@ == sha1_digest(s@[i as int].1@));
        assert(ds@[j as int]@ == sha1_digest(s@[j as int].1@));
        return false;
    }
    bytes_eq(&s[i].1, &s[j].1)
}

/// The libraries to ship, from every library found (name and contents): libraries with the
/// same contents go out once, under the name `tool::lib_name` picks from their names in
/// order and their soname, or not at all where it picks none; in order of name.
pub fn dedupe_plan(libs: Vec<(String, Vec<u8>)>) -> (chosen: Vec<(String, Vec<u8>)>)
    ensures
        entry_views(chosen@) == dedupe_spec(entry_views(libs@)),
{
    let ghost lv = entry_views(libs@);
    let s = sort_entries(libs);
    let ghost sv = entry_views(s@);
    let n = s.len();
    let mut ds: Vec<Vec<u8>> = Vec::new();
    let mut i: usize = 0;
    while i < n
        invariant
            n == s@.len(),
            i <= n,
            ds@.len() == i,
            forall|k: int| 0 <= k < i ==> (#[trigger] ds@[k])@ == sha1_digest(s@[k].1@),
        decreases n - i,
    {
        ds.push(content_digest(s[i].1.as_slice()));
        i = i + 1;
    }
    let mut out: Vec<(String, Vec<u8>)> = Vec::new();
    let mut i: usize = 0;
    while i < n
        invariant
            n == s@.len(),
            sv == entry_views(s@),
            ds@.len() == n,
            forall|k: int| 0 <= k < n ==> (#[trigger] ds@[k])@ == sha1_digest(s@[k].1@),
            i <= n,
            entry_views(out@) == chosen_from(sv, i as int),
        decreases n - i,
    {
        let ghost c = sv[i as int].1;
        assert(c == s@[i as int].1@);
        // is entry i the first with its contents?
        let mut first = true;
        let mut j: usize = 0;
        while j < i
            invariant
                n == s@.len(),
                sv == entry_views(s@),
                c == s@[i as int].1@,
                ds@.len() == n,
                forall|k: int| 0 <= k < n ==> (#[trigger] ds@[k])@ == sha1_digest(s@[k].1@),
                i < n,
                j <= i,
                first == (forall|k: int| 0 <= k < j ==> (#[trigger] sv[k]).1 != c),
            decreases i - j,
        {
            assert(sv[j as int] == entry_view(s@[j as int]));
            if same_contents(&s, &ds, j, i) {
                first = false;
            }
            j = j + 1;
        }
        assert(first == first_of_class(sv, i as int));
        if first {
            let mut names: Vec<String> = Vec::new();
            let mut k: usize = 0;
            while k < n
                invariant
                    n == s@.len(),
                    sv == entry_views(s@),
                    c == s@[i as int].1@,
                    ds@.len() == n,
                    forall|q: int| 0 <= q < n ==> (#[trigger] ds@[q])@ == sha1_digest(s@[q].1@),
                    i < n,
                    k <= n,
                    crate::text::string_views(names@) == class_names(sv.take(k as int), c),
                decreases n - k,
            {
                proof {
                    assert(sv.take(k + 1).drop_last() =~= sv.take(k as int));
                    assert(sv.take(k + 1).last() == sv[k as int]);
                    assert(sv[k as int] == entry_view(s@[k as int]));
                }
                let ghost before = names@;
                if same_contents(&s, &ds, k, i) {
                    names.push(s[k].0.clone());
                    assert(crate::text::string_views(names@) =~= crate::text::string_views(before).push(
                        s@[k as int].0@,
                    ));
                }
                k = k + 1;
            }
            assert(sv.take(n as int) =~= sv);
            let so = elf_soname(s[i].1.as_slice());
            let mut sonames: Vec<Option<String>> = Vec::new();
            let mut k: usize = 0;
            while k < names.len()
                invariant
                    k <= names@.len(),
                    sonames@.len() == k,
                    forall|q: int| 0 <= q < k ==> crate::link::opt_view(#[trigger] sonames@[q]) == crate::link::opt_view(so),
                decreases names@.len() - k,
            {
                let o = match &so {
                    Some(t) => Some(t.clone()),
                    None => None,
                };
                sonames.push(o);
                k = k + 1;
            }
            proof {
                assert(crate::link::opt_view(so) == soname_of(c));
                assert(crate::tool::opt_views(sonames@) =~= Seq::new(
                    class_names(sv, c).len(),
                    |q: int| soname_of(c),
                ));
            }
            match lib_name(&names, &sonames) {
                Some(name) => {
                    let ghost before = out@;
                    let bytes = crate::deb::bytes_of(s[i].1.as_slice(), 0, s[i].1.len());
                    assert(bytes@ =~= c);
                    out.push((name, bytes));
                    assert(entry_views(out@) =~= entry_views(before).push((name@, c)));
                },
                None => {},
            }
        }
        i = i + 1;
    }
    let r = sort_entries(out);
    proof {
        assert(sv == lv.sort_by(entry_order()));
    }
    r
}

// ------------------------------------------------------------------ laws

/// Whether some of the first `k` entries of `s` have contents `c`.
pub open spec fn contents_before(s: Seq<EntryView>, k: int, c: Seq<u8>) -> bool {
    exists|j: int| 0 <= j < k && (#[trigger] s[j]).1 == c
}

/// The entries chosen from the first `k` have distinct contents, each that of one of them.
proof fn lemma_chosen_distinct(s: Seq<EntryView>, k: int)
    requires
        0 <= k <= s.len(),
    ensures
        forall|i: int, j: int|
            0 <= i < j < chosen_from(s, k).len() ==> (#[trigger] chosen_from(s, k)[i]).1 != (
            #[trigger] chosen_from(s, k)[j]).1,
        forall|i: int| 0 <= i < chosen_from(s, k).len() ==> contents_before(s, k, (#[trigger] chosen_from(s, k)[i]).1),
    decreases k,
{
    if k > 0 {
        lemma_chosen_distinct(s, k - 1);
        let old = chosen_from(s, k - 1);
        let c = s[k - 1].1;
        let now = chosen_from(s, k);
        assert forall|i: int| 0 <= i < old.len() implies contents_before(s, k, (#[trigger] old[i]).1) by {
            assert(contents_before(s, k - 1, old[i].1));
            let j = choose|j: int| 0 <= j < k - 1 && (#[trigger] s[j]).1 == old[i].1;
            assert(s[j].1 == old[i].1);
        }
        if first_of_class(s, k - 1) && class_choice(s, c) is Some {
            assert(now == old.push((class_choice(s, c)->0, c)));
            assert(contents_before(s, k, c)) by {
                assert(s[k - 1].1 == c);
            }
            assert forall|i: int| 0 <= i < old.len() implies (#[trigger] old[i]).1 != c by {
                assert(contents_before(s, k - 1, old[i].1));
                let j = choose|j: int| 0 <= j < k - 1 && (#[trigger] s[j]).1 == old[i].1;
                assert(s[j].1 != s[k - 1].1);
            }
            assert forall|i: int, j: int| 0 <= i < j < now.len() implies (#[trigger] now[i]).1 != (
            #[trigger] now[j]).1 by {
                if j < old.len() {
                    assert(now[i] == old[i] && now[j] == old[j]);
                } else {
                    assert(now[i] == old[i]);
                }
            }
            assert forall|i: int| 0 <= i < now.len() implies contents_before(s, k, (#[trigger] now[i]).1) by {
                if i < old.len() {
                    assert(now[i] == old[i]);
                }
            }
        }
    }
}

/// Law: the plan ships each contents at most once: no two of its entries have the same
/// contents.
pub proof fn law_plan_contents_distinct(libs: Seq<EntryView>)
    ensures
        forall|i: int, j: int|
            0 <= i < j < dedupe_spec(libs).len() ==> (#[trigger] dedupe_spec(libs)[i]).1 != (
            #[trigger] dedupe_spec(libs)[j]).1,
{
    broadcast use vstd::seq_lib::group_to_multiset_ensures;

    let s = libs.sort_by(entry_order());
    let u = chosen_from(s, s.len() as int);
    let r = dedupe_spec(libs);
    lemma_entry_order_total();
    lemma_chosen_distinct(s, s.len() as int);
    assert(u.no_duplicates()) by {
        assert forall|i: int, j: int| 0 <= i < u.len() && 0 <= j < u.len() && i != j implies u[i] != u[j] by {
            if i < j {
                assert(u[i].1 != u[j].1);
            } else {
                assert(u[j].1 != u[i].1);
            }
        }
    }
    u.lemma_sort_by_ensures(entry_order());
    assert(r == u.sort_by(entry_order()));
    u.lemma_multiset_has_no_duplicates();
    assert forall|x: EntryView| r.to_multiset().contains(x) implies r.to_multiset().count(x) == 1 by {
        assert(u.to_multiset().contains(x));
    }
    r.lemma_multiset_has_no_duplicates_conv();
    assert forall|i: int, j: int| 0 <= i < j < r.len() implies (#[trigger] r[i]).1 != (#[trigger] r[j]).1 by {
        assert(r[i] != r[j]);
        assert(r.contains(r[i]));
        assert(r.contains(r[j]));
        assert(r.to_multiset().count(r[i]) > 0);
        assert(r.to_multiset().count(r[j]) > 0);
        assert(u.contains(r[i]));
        assert(u.contains(r[j]));
        let a = choose|a: int| 0 <= a < u.len() && u[a] == r[i];
        let b = choose|b: int| 0 <= b < u.len() && u[b] == r[j];
        assert(a != b);
        if a < b {
            assert(u[a].1 != u[b].1);
        } else {
            assert(u[b].1 != u[a].1);
        }
    }
}

/// Some entry of a group with contents `c` comes first among them.
proof fn lemma_first_of_class_exists(s: Seq<EntryView>, i: int) -> (f: int)
    requires
        0 <= i < s.len(),
    ensures
        0 <= f <= i,
        s[f].1 == s[i].1,
        first_of_class(s, f),
    decreases i,
{
    if first_of_class(s, i) {
        i
    } else {
        let j = choose|j: int| 0 <= j < i && (#[trigger] s[j]).1 == s[i].1;
        lemma_first_of_class_exists(s, j)
    }
}

/// The names of a group hold the name of each of its entries.
proof fn lemma_class_names_has(s: Seq<EntryView>, i: int)
    requires
        0 <= i < s.len(),
    ensures
        class_names(s, s[i].1).contains(s[i].0),
    decreases s.len(),
{
    let c = s[i].1;
    if i == s.len() - 1 {
        let r = class_names(s.drop_last(), c);
        assert(class_names(s, c) == r.push(s[i].0));
        assert(r.push(s[i].0)[r.len() as int] == s[i].0);
    } else {
        lemma_class_names_has(s.drop_last(), i);
        assert(s.drop_last()[i] == s[i]);
        let r = class_names(s.drop_last(), c);
        let k = choose|k: int| 0 <= k < r.len() && r[k] == s[i].0;
        if s.last().1 == c {
            assert(r.push(s.last().0)[k] == s[i].0);
        }
    }
}

/// The soname of a group whose members all have soname `so` is `so`, where one of its
/// names from `k` on is not dropped and `so` is not empty.
proof fn lemma_soname_from_const(names: Seq<Seq<char>>, so: Seq<char>, k: int, j: int)
    requires
        0 <= k <= j < names.len(),
        !dropped_lib_spec(names[j]),
        so.len() > 0,
    ensures
        soname_from(names, Seq::new(names.len(), |q: int| Some(so)), k) == Some(so),
    decreases j - k,
{
    if k < j {
        lemma_soname_from_const(names, so, k + 1, j);
    }
}

/// The entries chosen from the first `k` keep each chosen entry of the first ones.
proof fn lemma_chosen_keeps(s: Seq<EntryView>, i: int, k: int)
    requires
        0 <= i < k <= s.len(),
        first_of_class(s, i),
        class_choice(s, s[i].1) is Some,
    ensures
        chosen_from(s, k).contains((class_choice(s, s[i].1)->0, s[i].1)),
    decreases k,
{
    let e = (class_choice(s, s[i].1)->0, s[i].1);
    if k == i + 1 {
        let r = chosen_from(s, i);
        assert(chosen_from(s, k) == r.push(e));
        assert(r.push(e)[r.len() as int] == e);
    } else {
        lemma_chosen_keeps(s, i, k - 1);
        let r = chosen_from(s, k - 1);
        let q = choose|q: int| 0 <= q < r.len() && r[q] == e;
        let c = s[k - 1].1;
        if first_of_class(s, k - 1) && class_choice(s, c) is Some {
            assert(r.push((class_choice(s, c)->0, c))[q] == e);
        }
    }
}

/// Law: a library whose contents carry a non-empty soname `so` ships under `so` (unless
/// `so` itself is a dropped name), whatever other libraries are in the list, where at
/// least one of the names it was found under is not a dropped one: the name chosen for
/// a group depends on that group's own contents.
pub proof fn law_plan_ships_under_soname(libs: Seq<EntryView>, j: int, so: Seq<char>)
    requires
        0 <= j < libs.len(),
        soname_of(libs[j].1) == Some(so),
        so.len() > 0,
        !dropped_lib_spec(so),
        !dropped_lib_spec(libs[j].0),
    ensures
        dedupe_spec(libs).contains((so, libs[j].1)),
{
    broadcast use vstd::seq_lib::group_to_multiset_ensures;

    let c = libs[j].1;
    lemma_entry_order_total();
    let s = libs.sort_by(entry_order());
    libs.lemma_sort_by_ensures(entry_order());
    assert(libs.contains(libs[j]));
    assert(libs.to_multiset().count(libs[j]) > 0);
    assert(s.contains(libs[j]));
    let i = choose|i: int| 0 <= i < s.len() && s[i] == libs[j];
    let f = lemma_first_of_class_exists(s, i);
    let names = class_names(s, c);
    lemma_class_names_has(s, i);
    let q = choose|q: int| 0 <= q < names.len() && names[q] == s[i].0;
    lemma_soname_from_const(names, so, 0, q);
    assert(Seq::new(names.len(), |x: int| soname_of(c)) =~= Seq::new(names.len(), |x: int| Some(so)));
    assert(class_choice(s, c) == Some(so));
    lemma_chosen_keeps(s, f, s.len() as int);
    let u = chosen_from(s, s.len() as int);
    u.lemma_sort_by_ensures(entry_order());
    assert(u.to_multiset().count((so, c)) > 0);
    assert(dedupe_spec(libs).to_multiset().count((so, c)) > 0);
}

/// Law: every entry of the plan carries the contents of one of the libraries it was made
/// from.
pub proof fn law_plan_contents_from_libs(libs: Seq<EntryView>, k: int)
    requires
        0 <= k < dedupe_spec(libs).len(),
    ensures
        exists|j: int| 0 <= j < libs.len() && (#[trigger] libs[j]).1 == dedupe_spec(libs)[k].1,
{
    broadcast use vstd::seq_lib::group_to_multiset_ensures;

    lemma_entry_order_total();
    let s = libs.sort_by(entry_order());
    libs.lemma_sort_by_ensures(entry_order());
    let u = chosen_from(s, s.len() as int);
    u.lemma_sort_by_ensures(entry_order());
    lemma_chosen_distinct(s, s.len() as int);
    let e = dedupe_spec(libs)[k];
    assert(dedupe_spec(libs).contains(e));
    assert(dedupe_spec(libs).to_multiset().count(e) > 0);
    assert(u.contains(e));
    let a = choose|a: int| 0 <= a < u.len() && u[a] == e;
    assert(contents_before(s, s.len() as int, u[a].1));
    let i = choose|i: int| 0 <= i < s.len() && (#[trigger] s[i]).1 == u[a].1;
    assert(s.contains(s[i]));
    assert(s.to_multiset().count(s[i]) > 0);
    assert(libs.contains(s[i]));
    let j = choose|j: int| 0 <= j < libs.len() && libs[j] == s[i];
    assert(libs[j].1 == e.1);
}

} // verus!
