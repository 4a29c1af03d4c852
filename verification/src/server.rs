//! The embedded node server on the device: where its files live, how it is launched,
//! and what its output announces.

use vstd::prelude::*;

use crate::text::string_views;

use crate::http::{lemma_scan_ws, scan_ws, scan_ws_exec};
use crate::supervise::ProcessControl;
use crate::text::{
    chars_of, index_of_char, is_whitespace, is_ws, lemma_index_of_found, push_str, starts_with,
    string_of, trim, trim_bounds,
};

verus! {

/// Name of the marker file that a finished extraction leaves in the payload directory.
pub const MARKER: &'static str = "payload.v1.ok";

/// `Path::join` of a relative name: a `/` is put between unless `base` is empty or already
/// ends with one.
pub open spec fn join_spec(base: Seq<char>, name: Seq<char>) -> Seq<char> {
    if base.len() == 0 {
        name
    } else if base.last() == '/' {
        base + name
    } else {
        base + "/"@ + name
    }
}

/// `Path::join` of a relative name.
pub fn join(base: &str, name: &str) -> (r: String)
    ensures
        r@ == join_spec(base@, name@),
{
    let b = chars_of(base);
    let mut s = String::new();
    push_str(&mut s, base);
    if b.len() > 0 && b[b.len() - 1] != '/' {
        push_str(&mut s, "/");
    }
    push_str(&mut s, name);
    assert(s@ =~= join_spec(base@, name@));
    s
}

/// Paths of the embedded server, all given by the Android side.
pub struct ServerCfg {
    /// `termux/usr/bin/node`
    pub node_bin: String,
    /// The `dsh-app` directory (working directory of node).
    pub app_dir: String,
    /// The app's files directory.
    pub files_dir: String,
    /// `files/payload`
    pub payload_dir: String,
    /// `files/dsh-home`
    pub home_dir: String,
    /// State file read by the UI.
    pub state_file: String,
}

impl ServerCfg {
    /// Temporary directory of node (`TMPDIR`, `TMP`).
    pub fn tmp_dir(&self) -> (p: String)
        ensures
            p@ == join_spec(self.files_dir@, "tmp"@),
    {
        join(self.files_dir.as_str(), "tmp")
    }

    /// Log file.
    pub fn log_file(&self) -> (p: String)
        ensures
            p@ == join_spec(self.files_dir@, "dsh-server.log"@),
    {
        join(self.files_dir.as_str(), "dsh-server.log")
    }

    /// File holding the web entry URL (with its launch token) announced by node.
    pub fn web_url_file(&self) -> (p: String)
        ensures
            p@ == join_spec(self.files_dir@, "web-url.txt"@),
    {
        join(self.files_dir.as_str(), "web-url.txt")
    }

    /// Extraction progress file.
    pub fn payload_state_file(&self) -> (p: String)
        ensures
            p@ == join_spec(self.files_dir@, "payload.state"@),
    {
        join(self.files_dir.as_str(), "payload.state")
    }

    /// Where the payload archive is copied before extraction.
    pub fn tmp_zip(&self) -> (p: String)
        ensures
            p@ == join_spec(self.files_dir@, "payload.zip.tmp"@),
    {
        join(self.files_dir.as_str(), "payload.zip.tmp")
    }

    /// The marker of a finished extraction.
    pub fn marker_path(&self) -> (p: String)
        ensures
            p@ == join_spec(self.payload_dir@, MARKER@),
    {
        join(self.payload_dir.as_str(), MARKER)
    }
}

/// Whether something exists at `path` (`Path::exists`); the answer depends on the file
/// system at the time of the call.
#[verifier::external_body]
fn path_exists(path: &str) -> bool {
    std::path::Path::new(path).exists()
}

/// Whether the payload has been extracted: its marker file exists.
pub fn payload_ready(cfg: &ServerCfg) -> bool {
    path_exists(cfg.marker_path().as_str())
}

/// Stops the embedded server: a new generation, not running; its supervisor sees that
/// at its next poll, kills node and ends.
pub fn stop_server(ctl: &mut ProcessControl)
    ensures
        *final(ctl) == crate::supervise::stopped(*old(ctl)),
{
    ctl.stop();
}

// ------------------------------------------------------------------ launching node

/// The command-line arguments of node for the embedded server.
pub open spec fn node_args_spec() -> Seq<Seq<char>> {
    seq![
        "--expose-internals"@,
        "lib/bin.js"@,
        "web"@,
        "--host"@,
        "127.0.0.1"@,
        "--port"@,
        "3080"@,
    ]
}

/// The command-line arguments of node for the embedded server.
pub fn node_args() -> (v: Vec<String>)
    ensures
        string_views(v@) == node_args_spec(),
{
    let mut v: Vec<String> = Vec::new();
    v.push("--expose-internals".to_owned());
    v.push("lib/bin.js".to_owned());
    v.push("web".to_owned());
    v.push("--host".to_owned());
    v.push("127.0.0.1".to_owned());
    v.push("--port".to_owned());
    v.push("3080".to_owned());
    assert(string_views(v@) =~= node_args_spec());
    v
}

/// The `usr` prefix of the bundled Termux tree.
pub open spec fn termux_usr(cfg_payload_dir: Seq<char>) -> Seq<char> {
    join_spec(join_spec(cfg_payload_dir, "termux"@), "usr"@)
}

/// The environment of node: library path, home directories, temporary directories,
/// certificates, search path, locale and warnings, as `(name, value)` pairs.
pub open spec fn node_env_spec(payload_dir: Seq<char>, files_dir: Seq<char>, home_dir: Seq<char>) -> Seq<
    (Seq<char>, Seq<char>),
> {
    let usr = termux_usr(payload_dir);
    let tmp = join_spec(files_dir, "tmp"@);
    seq![
        ("LD_LIBRARY_PATH"@, join_spec(usr, "lib"@)),
        ("HOME"@, files_dir),
        ("DSH_HOME"@, home_dir),
        ("TMPDIR"@, tmp),
        ("TMP"@, tmp),
        ("SSL_CERT_FILE"@, join_spec(usr, "etc/ssl/certs/ca-certificates.crt"@)),
        ("SSL_CERT_DIR"@, join_spec(usr, "etc/ssl/certs"@)),
        ("PATH"@, join_spec(usr, "bin"@) + ":/system/bin:/system/xbin"@),
        ("LANG"@, "C.UTF-8"@),
        ("LC_ALL"@, "C.UTF-8"@),
        ("NODE_NO_WARNINGS"@, "1"@),
    ]
}

/// The character sequences of a list of string pairs.
pub open spec fn pair_views(v: Seq<(String, String)>) -> Seq<(Seq<char>, Seq<char>)> {
    v.map_values(|p: (String, String)| (p.0@, p.1@))
}

/// The environment of node for the embedded server.
pub fn node_env(cfg: &ServerCfg) -> (v: Vec<(String, String)>)
    ensures
        pair_views(v@) == node_env_spec(cfg.payload_dir@, cfg.files_dir@, cfg.home_dir@),
{
    let termux = join(cfg.payload_dir.as_str(), "termux");
    let usr = join(termux.as_str(), "usr");
    let tmp = cfg.tmp_dir();
    let mut path = join(usr.as_str(), "bin");
    push_str(&mut path, ":/system/bin:/system/xbin");
    let mut v: Vec<(String, String)> = Vec::new();
    v.push(("LD_LIBRARY_PATH".to_owned(), join(usr.as_str(), "lib")));
    v.push(("HOME".to_owned(), cfg.files_dir.clone()));
    v.push(("DSH_HOME".to_owned(), cfg.home_dir.clone()));
    v.push(("TMPDIR".to_owned(), tmp.clone()));
    v.push(("TMP".to_owned(), tmp));
    v.push(("SSL_CERT_FILE".to_owned(), join(usr.as_str(), "etc/ssl/certs/ca-certificates.crt")));
    v.push(("SSL_CERT_DIR".to_owned(), join(usr.as_str(), "etc/ssl/certs")));
    v.push(("PATH".to_owned(), path));
    v.push(("LANG".to_owned(), "C.UTF-8".to_owned()));
    v.push(("LC_ALL".to_owned(), "C.UTF-8".to_owned()));
    v.push(("NODE_NO_WARNINGS".to_owned(), "1".to_owned()));
    assert(pair_views(v@) =~= node_env_spec(cfg.payload_dir@, cfg.files_dir@, cfg.home_dir@));
    v
}

// ------------------------------------------------------------------ output of node

/// The prefix of the line in which node announces its web entry.
pub const WEB_LINE_PREFIX: &'static str = "dsh web: ";

/// The web entry URL that a line of node's output announces: after `dsh web: `, trimmed,
/// up to the first whitespace, and only when it starts with `http://`.
pub open spec fn web_url_spec(line: Seq<char>) -> Option<Seq<char>> {
    if starts_with(line, WEB_LINE_PREFIX@) {
        let rest = trim(line.skip(WEB_LINE_PREFIX@.len() as int));
        let url = rest.take(scan_ws(rest, 0, true));
        if starts_with(url, "http://"@) {
            Some(url)
        } else {
            None
        }
    } else {
        None
    }
}

/// The web entry URL that a line of node's output announces, if any.
pub fn web_url_of_line(line: &str) -> (r: Option<String>)
    ensures
        r matches Some(u) ==> web_url_spec(line@) == Some(u@),
        r is None ==> web_url_spec(line@) is None,
{
    let v = chars_of(line);
    let p = chars_of(WEB_LINE_PREFIX);
    if !crate::text::matches_here(&v, &p, 0) {
        assert(!starts_with(line@, WEB_LINE_PREFIX@)) by {
            if starts_with(line@, WEB_LINE_PREFIX@) {
                assert(crate::text::matches_at(v@, p@, 0));
            }
        }
        return None;
    }
    let (a, b) = trim_bounds(&v, p.len(), v.len());
    assert(v@.subrange(p@.len() as int, v@.len() as int) =~= line@.skip(WEB_LINE_PREFIX@.len() as int));
    let t = crate::link::sub_vec(&v, a, b);
    let e = scan_ws_exec(&t, 0, true);
    proof {
        lemma_scan_ws(t@, 0, true);
        assert(t@.take(e as int) =~= v@.subrange(a as int, a + e));
    }
    let e = a + e;
    let url = string_of(&v, a, e);
    let h = chars_of("http://");
    let uv = chars_of(url.as_str());
    if crate::text::matches_here(&uv, &h, 0) {
        Some(url)
    } else {
        assert(!starts_with(url@, "http://"@)) by {
            if starts_with(url@, "http://"@) {
                assert(crate::text::matches_at(uv@, h@, 0));
            }
        }
        None
    }
}

// ------------------------------------------------------------------ API key file

/// The contents of `$DSH_HOME/.env` for an API key: empty for an empty key.
pub open spec fn env_file_spec(api_key: Seq<char>) -> Seq<char> {
    if api_key.len() == 0 {
        Seq::empty()
    } else {
        "# written by DSH Mobile settings\nDEEPSEEK_API_KEY="@ + api_key + "\n"@
    }
}

/// The contents of `$DSH_HOME/.env` for an API key.
pub fn env_file_content(api_key: &str) -> (s: String)
    ensures
        s@ == env_file_spec(api_key@),
{
    let mut s = String::new();
    if !api_key.is_empty() {
        push_str(&mut s, "# written by DSH Mobile settings\nDEEPSEEK_API_KEY=");
        push_str(&mut s, api_key);
        push_str(&mut s, "\n");
        assert(s@ =~= env_file_spec(api_key@));
    }
    s
}

/// Law: the `.env` text is empty exactly for the empty key; for any other key its last
/// line is `DEEPSEEK_API_KEY=<key>`, ended by a newline and preceded by one (the comment
/// line before it).
pub proof fn law_env_file_holds_key(k: Seq<char>)
    ensures
        (env_file_spec(k).len() == 0) == (k.len() == 0),
        k.len() > 0 ==> {
            let e = env_file_spec(k);
            let line = "DEEPSEEK_API_KEY="@ + k + "\n"@;
            &&& e.len() > line.len()
            &&& e.skip(e.len() - line.len()) == line
            &&& e[e.len() - line.len() - 1] == '\n'
        },
{
    reveal_strlit("# written by DSH Mobile settings\nDEEPSEEK_API_KEY=");
    reveal_strlit("DEEPSEEK_API_KEY=");
    reveal_strlit("\n");
    if k.len() > 0 {
        let e = env_file_spec(k);
        let c = "# written by DSH Mobile settings\n"@;
        reveal_strlit("# written by DSH Mobile settings\n");
        let line = "DEEPSEEK_API_KEY="@ + k + "\n"@;
        assert("# written by DSH Mobile settings\nDEEPSEEK_API_KEY="@ =~= c + "DEEPSEEK_API_KEY="@);
        assert(e =~= c + line);
        assert(e.skip(e.len() - line.len()) =~= line);
        assert(e[e.len() - line.len() - 1] == c[c.len() - 1]);
    }
}

} // verus!
