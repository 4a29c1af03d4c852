//! Extraction of the payload archive on the device: which entries are written, where,
//! and the progress reported while it runs.

use vstd::prelude::*;

use crate::server::{join, join_spec};
use crate::text::string_views;
use crate::text::{chars_of, contains, dec, find_in, push_dec, push_str};

verus! {

/// Result of an extraction.
pub struct ExtractOutcome {
    /// Files written.
    pub files: usize,
    /// Bytes written.
    pub bytes: u64,
}

/// Whether an archive entry is written: files only, and no name with `..` in it (which
/// could leave the destination).
pub fn entry_wanted(is_dir: bool, name: &str) -> (b: bool)
    ensures
        b == (!is_dir && !contains(name@, ".."@)),
{
    if is_dir {
        return false;
    }
    let v = chars_of(name);
    let p = chars_of("..");
    find_in(&v, &p, 0).is_none()
}

/// Where an entry is written under the destination.
pub fn entry_path(dest_root: &str, name: &str) -> (p: String)
    ensures
        p@ == join_spec(dest_root@, name@),
{
    join(dest_root, name)
}

/// Progress of an extraction.
pub struct Extraction {
    /// Number of entries of the archive, at least one.
    pub total: usize,
    /// Files written so far.
    pub files: usize,
    /// Bytes written so far.
    pub bytes: u64,
}

/// The progress state text: `extracting:<percent>`.
pub open spec fn progress_text(files: nat, total: nat) -> Seq<char> {
    "extracting:"@ + dec(files * 100 / total)
}

impl Extraction {
    /// Before the first entry of an archive with `entries` entries.
    pub fn new(entries: usize) -> (x: Extraction)
        ensures
            x.total == (if entries > 1 {
                entries
            } else {
                1
            }),
            x.files == 0,
            x.bytes == 0,
    {
        Extraction { total: if entries > 1 { entries } else { 1 }, files: 0, bytes: 0 }
    }

    /// Counts one more file of `size` bytes (there is one more entry left); the progress
    /// text to write, every 500 files and at the last one.
    pub fn record(&mut self, size: u64) -> (r: Option<String>)
        requires
            old(self).files < old(self).total,
            old(self).bytes + size <= u64::MAX,
        ensures
            final(self).total == old(self).total,
            final(self).files == old(self).files + 1,
            final(self).bytes == old(self).bytes + size,
            (final(self).files % 500 == 0 || final(self).files == final(self).total) ==> (r matches Some(
                s,
            ) && s@ == progress_text(final(self).files as nat, final(self).total as nat)),
            !(final(self).files % 500 == 0 || final(self).files == final(self).total) ==> r is None,
    {
        self.bytes = self.bytes + size;
        self.files = self.files + 1;
        if self.files % 500 == 0 || self.files == self.total {
            let pct: u128 = (self.files as u128) * 100 / (self.total as u128);
            let mut s = String::new();
            push_str(&mut s, "extracting:");
            proof {
                let f = self.files as int;
                let t = self.total as int;
                assert(f * 100 / t <= 100) by (nonlinear_arith)
                    requires
                        0 <= f <= t,
                        t >= 1,
                ;
            }
            push_dec(&mut s, pct as u64);
            assert(s@ =~= progress_text(self.files as nat, self.total as nat));
            Some(s)
        } else {
            None
        }
    }

    /// The outcome so far.
    pub fn outcome(&self) -> (o: ExtractOutcome)
        ensures
            o.files == self.files,
            o.bytes == self.bytes,
    {
        ExtractOutcome { files: self.files, bytes: self.bytes }
    }
}

/// The bundled programs whose executable bit is restored after extraction.
pub open spec fn executable_paths_spec(dest_root: Seq<char>) -> Seq<Seq<char>> {
    let bin = join_spec(join_spec(join_spec(dest_root, "termux"@), "usr"@), "bin"@);
    seq![join_spec(bin, "node"@), join_spec(bin, "bash"@), join_spec(bin, "rg"@)]
}

/// The bundled programs whose executable bit is restored after extraction.
pub fn executable_paths(dest_root: &str) -> (v: Vec<String>)
    ensures
        string_views(v@) == executable_paths_spec(dest_root@),
{
    let t = join(dest_root, "termux");
    let u = join(t.as_str(), "usr");
    let bin = join(u.as_str(), "bin");
    let mut v: Vec<String> = Vec::new();
    v.push(join(bin.as_str(), "node"));
    v.push(join(bin.as_str(), "bash"));
    v.push(join(bin.as_str(), "rg"));
    assert(string_views(v@) =~= executable_paths_spec(dest_root@));
    v
}

} // verus!
