//! The Android file-system patches of the app tree: Android forbids hard links to apps, so
//! the modules that commit files with `link()` are rewritten to use `rename()`. Each file
//! gets its replacements in order, each applied at the first occurrence of its text.

use vstd::prelude::*;

use crate::tool::{patch_once, patch_once_spec};

verus! {

/// The session store's module, under the app tree.
pub const SESSION_STORE_JS: &'static str = "node_modules/@deepseek-ai/dsh-session-persistence-jsonl/lib/index.js";

/// Before: the session store's import list: `link` out, `rename` in.
pub const SESSION_IMPORT_OLD: &'static str = "import { link, mkdir, mkdtemp, open, readFile, readdir, realpath, rm, stat, truncate } from \"node:fs/promises\";";

/// After: the session store's import list: `link` out, `rename` in.
pub const SESSION_IMPORT_NEW: &'static str = "import { mkdir, mkdtemp, open, readFile, readdir, realpath, rename, rm, stat, truncate } from \"node:fs/promises\";";

/// Before: the session store's commit: `link` becomes `rename`.
pub const SESSION_LINK_OLD: &'static str = "await link(tmp, finalPath);";

/// After: the session store's commit: `link` becomes `rename`.
pub const SESSION_LINK_NEW: &'static str = "/* Android: apps cannot hardlink (SELinux EACCES); rename is atomic on the same fs */\n\
                     \t\t\t\t\t\tawait rename(tmp, finalPath);";

/// The attachment store's module, under the app tree.
pub const ATTACHMENT_JS: &'static str = "node_modules/@deepseek-ai/dsh-attachment-local/lib/index.js";

/// Before: the attachment store's import list: `link` out.
pub const ATTACH_IMPORT_OLD: &'static str = "import { chmod, link, mkdir, open, readFile, rename, rm, unlink, writeFile } from \"node:fs/promises\";";

/// After: the attachment store's import list: `link` out.
pub const ATTACH_IMPORT_NEW: &'static str = "import { chmod, mkdir, open, readFile, rename, rm, unlink, writeFile } from \"node:fs/promises\";";

/// Before: the attachment store's commit: `link` becomes `rename`.
pub const ATTACH_LINK_OLD: &'static str = "await link(temporary, target);";

/// After: the attachment store's commit: `link` becomes `rename`.
pub const ATTACH_LINK_NEW: &'static str = "/* Android: apps cannot hardlink (SELinux EACCES); rename is atomic on the same fs */\n\
                     \t\t\t\t\t\tawait rename(temporary, target);";

/// Before: the attachment store's clean-up of a temporary file that the rename already moved.
pub const ATTACH_UNLINK_OLD: &'static str = "await unlink(temporary);";

/// After: the attachment store's clean-up of a temporary file that the rename already moved.
pub const ATTACH_UNLINK_NEW: &'static str = "/* renamed above; the temp path no longer exists */\n\
                     \t\t\t\t\t\tawait unlink(temporary).catch(() => {});";

/// The local file tool's module, under the app tree.
pub const FS_LOCAL_JS: &'static str = "node_modules/@deepseek-ai/dsh-fs-local/lib/index.js";

/// Before: the file tool's default `linkFile`: try `link`, fall back to `rename` where hard links are refused.
pub const FS_LINK_OLD: &'static str = "const linkFile = internals.linkFile ?? link;";

/// After: the file tool's default `linkFile`: try `link`, fall back to `rename` where hard links are refused.
pub const FS_LINK_NEW: &'static str = "const linkFile = internals.linkFile ?? (async (from, to) => {\n\
                 \t\t/* Android: apps cannot hardlink (SELinux EACCES); rename is atomic on\n\
                 \t\t   the same fs. The no-replace guarantee is relaxed (single-user app). */\n\
                 \t\ttry {\n\
                 \t\t\treturn await link(from, to);\n\
                 \t\t} catch (error) {\n\
                 \t\t\tif (error.code === \"EACCES\" || error.code === \"EPERM\" || error.code === \"EOPNOTSUPP\")\n\
                 \t\t\t\treturn rename(from, to);\n\
                 \t\t\tthrow error;\n\
                 \t\t}\n\
                 \t});";

/// One replacement: the text looked for and the text put in its place.
pub type PairView = (Seq<char>, Seq<char>);

/// The patch table: each file (relative to the app tree) with its replacements, in order.
pub open spec fn android_fs_patches_spec() -> Seq<(Seq<char>, Seq<PairView>)> {
    seq![
        (SESSION_STORE_JS@, seq![(SESSION_IMPORT_OLD@, SESSION_IMPORT_NEW@), (SESSION_LINK_OLD@, SESSION_LINK_NEW@)]),
        (
            ATTACHMENT_JS@,
            seq![
                (ATTACH_IMPORT_OLD@, ATTACH_IMPORT_NEW@),
                (ATTACH_LINK_OLD@, ATTACH_LINK_NEW@),
                (ATTACH_UNLINK_OLD@, ATTACH_UNLINK_NEW@),
            ],
        ),
        (FS_LOCAL_JS@, seq![(FS_LINK_OLD@, FS_LINK_NEW@)]),
    ]
}

/// The models of replacement pairs.
pub open spec fn pair_views(v: Seq<(String, String)>) -> Seq<PairView> {
    v.map_values(|p: (String, String)| (p.0@, p.1@))
}

/// The model of a patch table.
pub open spec fn patch_table_views(t: Seq<(String, Vec<(String, String)>)>) -> Seq<(Seq<char>, Seq<PairView>)> {
    t.map_values(|e: (String, Vec<(String, String)>)| (e.0@, pair_views(e.1@)))
}

/// `text` after the replacements `pairs`, in order, each at the first occurrence of its
/// text in what the earlier ones left (skipped where it does not occur), with the number
/// of replacements made.
pub open spec fn apply_patches_spec(text: Seq<char>, pairs: Seq<PairView>) -> (Seq<char>, nat)
    decreases pairs.len(),
{
    if pairs.len() == 0 {
        (text, 0)
    } else {
        let (t, n) = apply_patches_spec(text, pairs.drop_last());
        match patch_once_spec(t, pairs.last().0, pairs.last().1) {
            Some(u) => (u, n + 1),
            None => (t, n),
        }
    }
}

/// A replacement pair.
fn pair(old: &str, new: &str) -> (p: (String, String))
    ensures
        p.0@ == old@,
        p.1@ == new@,
{
    (old.to_string(), new.to_string())
}

/// The patch table: each file (relative to the app tree) with its replacements, in order.
pub fn android_fs_patches() -> (t: Vec<(String, Vec<(String, String)>)>)
    ensures
        patch_table_views(t@) == android_fs_patches_spec(),
{
    let mut session: Vec<(String, String)> = Vec::new();
    session.push(pair(SESSION_IMPORT_OLD, SESSION_IMPORT_NEW));
    session.push(pair(SESSION_LINK_OLD, SESSION_LINK_NEW));
    let mut attach: Vec<(String, String)> = Vec::new();
    attach.push(pair(ATTACH_IMPORT_OLD, ATTACH_IMPORT_NEW));
    attach.push(pair(ATTACH_LINK_OLD, ATTACH_LINK_NEW));
    attach.push(pair(ATTACH_UNLINK_OLD, ATTACH_UNLINK_NEW));
    let mut fs: Vec<(String, String)> = Vec::new();
    fs.push(pair(FS_LINK_OLD, FS_LINK_NEW));
    let ghost sv = pair_views(session@);
    let ghost av = pair_views(attach@);
    let ghost fv = pair_views(fs@);
    assert(sv =~= seq![(SESSION_IMPORT_OLD@, SESSION_IMPORT_NEW@), (SESSION_LINK_OLD@, SESSION_LINK_NEW@)]);
    assert(av =~= seq![
        (ATTACH_IMPORT_OLD@, ATTACH_IMPORT_NEW@),
        (ATTACH_LINK_OLD@, ATTACH_LINK_NEW@),
        (ATTACH_UNLINK_OLD@, ATTACH_UNLINK_NEW@),
    ]);
    assert(fv =~= seq![(FS_LINK_OLD@, FS_LINK_NEW@)]);
    let mut t: Vec<(String, Vec<(String, String)>)> = Vec::new();
    t.push((SESSION_STORE_JS.to_string(), session));
    t.push((ATTACHMENT_JS.to_string(), attach));
    t.push((FS_LOCAL_JS.to_string(), fs));
    assert(patch_table_views(t@) =~= android_fs_patches_spec());
    t
}

/// Applies the replacements `pairs` to `text` in order, each at the first occurrence of
/// its text (skipped where it does not occur): the new text and the number of
/// replacements made.
pub fn apply_patches(text: &str, pairs: &Vec<(String, String)>) -> (r: (String, usize))
    ensures
        (r.0@, r.1 as nat) == apply_patches_spec(text@, pair_views(pairs@)),
{
    let ghost pv = pair_views(pairs@);
    let mut s = text.to_string();
    let mut n: usize = 0;
    let mut i: usize = 0;
    assert(pv.take(0) =~= Seq::<PairView>::empty());
    while i < pairs.len()
        invariant
            pv == pair_views(pairs@),
            i <= pairs@.len(),
            n <= i,
            (s@, n as nat) == apply_patches_spec(text@, pv.take(i as int)),
        decreases pairs@.len() - i,
    {
        proof {
            assert(pv.take(i + 1).drop_last() =~= pv.take(i as int));
            assert(pv.take(i + 1).last() == (pairs@[i as int].0@, pairs@[i as int].1@));
        }
        match patch_once(s.as_str(), pairs[i].0.as_str(), pairs[i].1.as_str()) {
            Some(t) => {
                s = t;
                n = n + 1;
            },
            None => {},
        }
        i = i + 1;
    }
    assert(pv.take(pairs@.len() as int) =~= pv);
    (s, n)
}

} // verus!
