//! The DSH web server that the desktop daemon runs beside the pairing service.

use vstd::prelude::*;

use crate::text::string_views;
use crate::supervise::ProcessControl;
use crate::text::{dec, push_dec};

verus! {

/// Configuration of the desktop's node server.
pub struct DesktopCfg {
    /// The node executable.
    pub node: String,
    /// The `dsh-app` directory (holds `lib/bin.js`).
    pub app_dir: String,
    /// `DSH_HOME`.
    pub home_dir: String,
    /// Log file.
    pub log_file: String,
    /// Port of the DSH web server.
    pub web_port: u16,
    /// Listen address (loopback by default; DSH web refuses others).
    pub host: String,
    /// Public host of the web UI tunnel, passed as `--trusted-host`.
    pub advertise_web_host: Option<String>,
}

/// Milliseconds between restarts of the desktop's node server.
pub const DESKTOP_RESTART_DELAY_MS: u64 = 2000;

/// Milliseconds between polls of the desktop's node server.
pub const DESKTOP_POLL_MS: u64 = 300;

/// The command-line arguments of node: the web command on the configured host and port,
/// and the tunnel host as a trusted host when there is one.
pub open spec fn desktop_args_spec(host: Seq<char>, port: u16, web: Option<Seq<char>>) -> Seq<
    Seq<char>,
> {
    let base = seq![
        "--expose-internals"@,
        "lib/bin.js"@,
        "web"@,
        "--host"@,
        host,
        "--port"@,
        dec(port as nat),
    ];
    match web {
        Some(w) => base + seq!["--trusted-host"@, w],
        None => base,
    }
}

/// The command-line arguments of the desktop's node server.
pub fn desktop_args(cfg: &DesktopCfg) -> (v: Vec<String>)
    ensures
        string_views(v@) == desktop_args_spec(
            cfg.host@,
            cfg.web_port,
            crate::link::opt_view(cfg.advertise_web_host),
        ),
{
    let mut port = String::new();
    push_dec(&mut port, cfg.web_port as u64);
    let mut v: Vec<String> = Vec::new();
    v.push("--expose-internals".to_owned());
    v.push("lib/bin.js".to_owned());
    v.push("web".to_owned());
    v.push("--host".to_owned());
    v.push(cfg.host.clone());
    v.push("--port".to_owned());
    v.push(port);
    match &cfg.advertise_web_host {
        Some(w) => {
            v.push("--trusted-host".to_owned());
            v.push(w.clone());
        },
        None => {},
    }
    assert(string_views(v@) =~= desktop_args_spec(
        cfg.host@,
        cfg.web_port,
        crate::link::opt_view(cfg.advertise_web_host),
    ));
    v
}

/// Asks the node server to stop: a new generation, not running; its supervisor kills
/// node at its next poll.
pub fn stop(ctl: &mut ProcessControl)
    ensures
        *final(ctl) == crate::supervise::stopped(*old(ctl)),
{
    ctl.stop();
}

} // verus!
