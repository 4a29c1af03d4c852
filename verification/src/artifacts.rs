//! The artifact listing shown in the settings: the workspace's files, then each session's
//! records, every directory newest first, as a JSON document.

use vstd::prelude::*;
use vstd::relations::{sorted_by, total_ordering};

use crate::pair::{json_quote, json_string};
use crate::text::{dec, push_dec, push_str};

verus! {

/// One listed file: its path under the files directory, its size in bytes and its
/// modification time in milliseconds since the epoch (0 where unknown).
pub struct Artifact {
    pub rel: String,
    pub size: u64,
    pub mtime: u64,
}

/// The model of an artifact.
pub open spec fn artifact_view(a: Artifact) -> (Seq<char>, u64, u64) {
    (a.rel@, a.size, a.mtime)
}

/// The models of artifacts.
pub open spec fn artifact_views(v: Seq<Artifact>) -> Seq<(Seq<char>, u64, u64)> {
    v.map_values(|a: Artifact| artifact_view(a))
}

// ------------------------------------------------------------------ paths

/// The listed path of a workspace file.
pub open spec fn workspace_rel_spec(name: Seq<char>) -> Seq<char> {
    "workspace/"@ + name
}

/// The listed path of a workspace file.
pub fn workspace_rel(name: &str) -> (r: String)
    ensures
        r@ == workspace_rel_spec(name@),
{
    let mut r = String::new();
    push_str(&mut r, "workspace/");
    push_str(&mut r, name);
    r
}

/// The listed path of a session record: `sessions/<workspace>/<session>/<file>`.
pub open spec fn session_rel_spec(ws: Seq<char>, session: Seq<char>, name: Seq<char>) -> Seq<char> {
    "sessions/"@ + ws + "/"@ + session + "/"@ + name
}

/// The listed path of a session record.
pub fn session_rel(ws: &str, session: &str, name: &str) -> (r: String)
    ensures
        r@ == session_rel_spec(ws@, session@, name@),
{
    let mut r = String::new();
    push_str(&mut r, "sessions/");
    push_str(&mut r, ws);
    push_str(&mut r, "/");
    push_str(&mut r, session);
    push_str(&mut r, "/");
    push_str(&mut r, name);
    r
}

// ------------------------------------------------------------------ order

/// Entry `i` comes before entry `j`: it is newer, or as new and earlier in the listing.
pub open spec fn newer_first(keys: Seq<i128>) -> spec_fn(int, int) -> bool {
    |i: int, j: int| keys[i] > keys[j] || (keys[i] == keys[j] && i <= j)
}

/// `newer_first` is a total order.
pub proof fn lemma_newer_first_total(keys: Seq<i128>)
    ensures
        total_ordering(newer_first(keys)),
{
}

/// The positions `0..n`.
pub open spec fn positions(n: nat) -> Seq<int> {
    Seq::new(n, |i: int| i)
}

/// The order in which to list entries with modification times `keys`: newest first, and
/// entries of the same time in their order (a stable sort).
pub fn newest_first(keys: &Vec<i128>) -> (order: Vec<usize>)
    ensures
        order@.map_values(|i: usize| i as int) == positions(keys@.len()).sort_by(newer_first(keys@)),
{
    broadcast use vstd::seq_lib::group_to_multiset_ensures;

    let ghost r = newer_first(keys@);
    let ghost n = keys@.len();
    let mut out: Vec<usize> = Vec::new();
    let mut i: usize = 0;
    proof {
        lemma_newer_first_total(keys@);
        assert(out@.map_values(|x: usize| x as int) =~= positions(0));
    }
    while i < keys.len()
        invariant
            r == newer_first(keys@),
            n == keys@.len(),
            i <= n,
            total_ordering(r),
            sorted_by(out@.map_values(|x: usize| x as int), r),
            out@.map_values(|x: usize| x as int).to_multiset() == positions(i as nat).to_multiset(),
            forall|q: int| 0 <= q < out@.len() ==> (#[trigger] out@[q]) < i,
        decreases n - i,
    {
        let ghost ov = out@.map_values(|x: usize| x as int);
        let mut p: usize = 0;
        let mut go = true;
        while go && p < out.len()
            invariant
                ov == out@.map_values(|x: usize| x as int),
                i < n,
                n == keys@.len(),
                r == newer_first(keys@),
                p <= out@.len(),
                forall|q: int| 0 <= q < out@.len() ==> (#[trigger] out@[q]) < i,
                forall|q: int| 0 <= q < p ==> r(#[trigger] ov[q], i as int),
                !go ==> p < out@.len() && !r(ov[p as int], i as int),
            decreases out@.len() - p + (if go {
                1int
            } else {
                0int
            }),
        {
            let o = out[p];
            assert(ov[p as int] == o as int);
            if keys[o] >= keys[i] {
                p = p + 1;
            } else {
                go = false;
            }
        }
        out.insert(p, i);
        proof {
            let nv = out@.map_values(|x: usize| x as int);
            assert(nv =~= ov.insert(p as int, i as int));
            assert forall|a: int, b: int| 0 <= a < b < nv.len() implies #[trigger] r(nv[a], nv[b]) by {
                if b < p {
                    assert(r(ov[a], ov[b]));
                } else if b == p {
                    assert(r(ov[a], i as int));
                } else if a < p {
                    assert(r(ov[a], ov[b - 1]));
                } else if a == p {
                    assert(r(ov[p as int], i as int) || r(i as int, ov[p as int]));
                    if p < b - 1 {
                        assert(r(ov[p as int], ov[b - 1]));
                    }
                } else {
                    assert(r(ov[a - 1], ov[b - 1]));
                }
            }
            vstd::seq_lib::to_multiset_insert(ov, p as int, i as int);
            assert(positions((i + 1) as nat) =~= positions(i as nat).push(i as int));
            vstd::seq_lib::to_multiset_build(positions(i as nat), i as int);
        }
        i = i + 1;
    }
    proof {
        positions(n).lemma_sort_by_ensures(r);
        vstd::seq_lib::lemma_sorted_unique(out@.map_values(|x: usize| x as int), positions(n).sort_by(r), r);
    }
    out
}

// ------------------------------------------------------------------ the document

/// One listed file as `serde_json` writes it: keys in sorted order.
pub open spec fn artifact_json_spec(a: (Seq<char>, u64, u64)) -> Seq<char> {
    "{\"mtime\":"@ + dec(a.2 as nat) + ",\"rel\":"@ + json_string(a.0) + ",\"size\":"@ + dec(a.1 as nat)
        + "}"@
}

/// The listed files, separated by commas.
pub open spec fn artifact_items(v: Seq<(Seq<char>, u64, u64)>) -> Seq<char>
    decreases v.len(),
{
    if v.len() == 0 {
        Seq::empty()
    } else if v.len() == 1 {
        artifact_json_spec(v[0])
    } else {
        artifact_items(v.drop_last()) + ","@ + artifact_json_spec(v.last())
    }
}

/// The listing document: `{"files":[...]}`.
pub open spec fn artifacts_doc(v: Seq<(Seq<char>, u64, u64)>) -> Seq<char> {
    "{\"files\":["@ + artifact_items(v) + "]}"@
}

/// The listing document of `files`, in their order.
pub fn artifacts_json(files: &Vec<Artifact>) -> (s: String)
    ensures
        s@ == artifacts_doc(artifact_views(files@)),
{
    let ghost fv = artifact_views(files@);
    let mut items = String::new();
    let mut i: usize = 0;
    assert(fv.take(0) =~= Seq::<(Seq<char>, u64, u64)>::empty());
    while i < files.len()
        invariant
            fv == artifact_views(files@),
            i <= files@.len(),
            items@ == artifact_items(fv.take(i as int)),
        decreases files@.len() - i,
    {
        let ghost before = items@;
        proof {
            assert(fv.take(i + 1).drop_last() =~= fv.take(i as int));
            assert(fv.take(i + 1).last() == artifact_view(files@[i as int]));
        }
        if i > 0 {
            push_str(&mut items, ",");
        }
        let a = &files[i];
        push_str(&mut items, "{\"mtime\":");
        push_dec(&mut items, a.mtime);
        push_str(&mut items, ",\"rel\":");
        let q = json_quote(a.rel.as_str());
        push_str(&mut items, q.as_str());
        push_str(&mut items, ",\"size\":");
        push_dec(&mut items, a.size);
        push_str(&mut items, "}");
        proof {
            let e = artifact_json_spec(fv[i as int]);
            if i == 0 {
                assert(fv.take(1) =~= seq![fv[0]]);
                assert(items@ =~= e);
            } else {
                assert(items@ =~= before + ","@ + e);
            }
        }
        i = i + 1;
    }
    assert(fv.take(files@.len() as int) =~= fv);
    let mut s = String::new();
    push_str(&mut s, "{\"files\":[");
    push_str(&mut s, items.as_str());
    push_str(&mut s, "]}");
    s
}

} // verus!
