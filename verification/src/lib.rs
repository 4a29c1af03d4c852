//! Core logic of DSH Mobile: pairing links, the relay/WebSocket wire format,
//! Debian/ELF payload tooling and the server supervision state machine.

pub mod apk;
pub mod artifacts;
pub mod channel;
pub mod cli;
pub mod deb;
pub mod dedupe;
pub mod elf;
pub mod extract;
pub mod fs_patch;
pub mod http;
pub mod link;
pub mod link_laws;
pub mod node;
pub mod options;
pub mod pair;
pub mod rooms;
pub mod server;
pub mod sha1;
pub mod supervise;
pub mod text;
pub mod tree;
pub mod tool;
pub mod wire;

use vstd::prelude::*;

verus! {

/// Application version (kept in step with the Android versionName).
pub const VERSION: &'static str = "3.0";

/// Listen host of the embedded server.
pub const SERVER_HOST: &'static str = "127.0.0.1";

/// Listen port of the embedded server.
pub const SERVER_PORT: u16 = 3080;

/// Whether a path counts as deleted: its file was removed, else its tree was removed, else
/// nothing is left there.
pub fn delete_outcome(file_removed: bool, tree_removed: bool, still_exists: bool) -> (ok: bool)
    ensures
        ok == (file_removed || tree_removed || !still_exists),
{
    file_removed || tree_removed || !still_exists
}

} // verus!
