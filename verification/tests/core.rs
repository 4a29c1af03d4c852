use dsh_mobile::artifacts::{artifacts_json, newest_first, session_rel, workspace_rel, Artifact};
use dsh_mobile::extract::{entry_path, entry_wanted, executable_paths, Extraction};
use dsh_mobile::server::{join, node_args, node_env, payload_ready, stop_server, web_url_of_line, ServerCfg};
use dsh_mobile::supervise::{after_exit, exit_state, failure_state, ProcessControl, Restarts, MAX_RESTARTS};
use dsh_mobile::{delete_outcome, SERVER_PORT, VERSION};

#[test]
fn version_is_set() {
    assert!(!VERSION.is_empty());
    assert!(SERVER_PORT > 0);
    // A path that does not exist: neither file nor tree removed, and nothing there.
    assert_eq!(delete_outcome(false, false, std::path::Path::new("/nonexistent/xyz").exists()), true);
    assert_eq!(delete_outcome(false, false, false), true);
}

fn cfg() -> ServerCfg {
    ServerCfg {
        node_bin: "/x/node".into(),
        app_dir: "/x/app".into(),
        files_dir: "/x/files".into(),
        payload_dir: "/x/files/payload".into(),
        home_dir: "/x/files/dsh-home".into(),
        state_file: "/x/files/dsh-server.state".into(),
    }
}

#[test]
fn cfg_paths() {
    let cfg = cfg();
    assert_eq!(cfg.tmp_dir(), "/x/files/tmp");
    assert!(!payload_ready(&cfg));
}

#[test]
fn other_cfg_paths() {
    let cfg = cfg();
    assert_eq!(cfg.log_file(), "/x/files/dsh-server.log");
    assert_eq!(cfg.web_url_file(), "/x/files/web-url.txt");
    assert_eq!(cfg.payload_state_file(), "/x/files/payload.state");
    assert_eq!(cfg.tmp_zip(), "/x/files/payload.zip.tmp");
    assert_eq!(cfg.marker_path(), "/x/files/payload/payload.v1.ok");
}

#[test]
fn join_separates_once() {
    assert_eq!(join("/a", "b"), "/a/b");
    assert_eq!(join("/a/", "b"), "/a/b");
    assert_eq!(join("", "b"), "b");
}

#[test]
fn node_environment() {
    let env = node_env(&cfg());
    let get = |k: &str| env.iter().find(|(n, _)| n == k).map(|(_, v)| v.clone()).unwrap();
    assert_eq!(env.len(), 11);
    assert_eq!(get("LD_LIBRARY_PATH"), "/x/files/payload/termux/usr/lib");
    assert_eq!(get("HOME"), "/x/files");
    assert_eq!(get("DSH_HOME"), "/x/files/dsh-home");
    assert_eq!(get("TMPDIR"), "/x/files/tmp");
    assert_eq!(get("SSL_CERT_FILE"), "/x/files/payload/termux/usr/etc/ssl/certs/ca-certificates.crt");
    assert_eq!(get("PATH"), "/x/files/payload/termux/usr/bin:/system/bin:/system/xbin");
    assert_eq!(get("LC_ALL"), "C.UTF-8");
    assert_eq!(
        node_args(),
        vec!["--expose-internals", "lib/bin.js", "web", "--host", "127.0.0.1", "--port", "3080"]
    );
}

#[test]
fn web_url_lines() {
    assert_eq!(
        web_url_of_line("dsh web: http://127.0.0.1:3080/?token=abc (LAN: http://10.0.0.2:3080)\n"),
        Some("http://127.0.0.1:3080/?token=abc".to_string())
    );
    assert_eq!(web_url_of_line("dsh web:   http://h/x\n"), Some("http://h/x".to_string()));
    assert_eq!(web_url_of_line("dsh web: https://h/x\n"), None);
    assert_eq!(web_url_of_line("other: http://h/x\n"), None);
}

#[test]
fn start_stop_generations() {
    let mut c = ProcessControl::new();
    let g = c.start().unwrap();
    assert_eq!(g, 1);
    assert_eq!(c.start(), None);
    assert!(c.is_current(g));
    stop_server(&mut c);
    assert!(!c.is_current(g));
    let g2 = c.start().unwrap();
    assert_ne!(g2, g);
    assert!(c.is_current(g2));
}

#[test]
fn gives_up_at_fifth_failure() {
    let mut r = Restarts::new();
    for _ in 0..(MAX_RESTARTS - 1) {
        assert!(!r.record());
    }
    assert!(r.record());
}

#[test]
fn exit_states() {
    assert_eq!(exit_state(Some(1)), "exited:1");
    assert_eq!(exit_state(Some(-9)), "exited:-9");
    assert_eq!(exit_state(None), "exited:signal");
    assert_eq!(failure_state("spawn node: x"), "failed:spawn node: x");
    let mut r = Restarts { count: 3 };
    let a = after_exit(&mut r, Some(0));
    assert!(!a.give_up);
    assert_eq!(a.states, vec!["exited:0".to_string()]);
    let a = after_exit(&mut r, None);
    assert!(a.give_up);
    assert_eq!(a.states, vec!["exited:signal".to_string(), "failed:too-many-restarts".to_string()]);
}

#[test]
fn extraction_progress() {
    assert!(entry_wanted(false, "termux/usr/bin/node"));
    assert!(!entry_wanted(true, "termux/usr/bin/"));
    assert!(!entry_wanted(false, "../evil"));
    assert_eq!(entry_path("/d", "a/b"), "/d/a/b");
    let mut x = Extraction::new(1000);
    for i in 1..500u64 {
        assert_eq!(x.record(i), None);
    }
    assert_eq!(x.record(1), Some("extracting:50".to_string()));
    let mut y = Extraction::new(0);
    assert_eq!(y.total, 1);
    assert_eq!(y.record(7), Some("extracting:100".to_string()));
    assert_eq!(y.outcome().bytes, 7);
    assert_eq!(
        executable_paths("/d"),
        vec!["/d/termux/usr/bin/node", "/d/termux/usr/bin/bash", "/d/termux/usr/bin/rg"]
    );
}

#[test]
fn artifact_listing() {
    assert_eq!(workspace_rel("a.txt"), "workspace/a.txt");
    assert_eq!(session_rel("ws1", "sess-abc123", "session.jsonl.zstd"), "sessions/ws1/sess-abc123/session.jsonl.zstd");
    // newest first; equal times keep their order
    assert_eq!(newest_first(&vec![5, 9, 5, -1, 9]), vec![1, 4, 0, 2, 3]);
    assert!(newest_first(&Vec::new()).is_empty());
    let files = vec![
        Artifact { rel: "workspace/a\"b.txt".to_string(), size: 1, mtime: 1700000000123 },
        Artifact { rel: "sessions/w/s/x".to_string(), size: 20, mtime: 0 },
    ];
    assert_eq!(
        artifacts_json(&files),
        "{\"files\":[{\"mtime\":1700000000123,\"rel\":\"workspace/a\\\"b.txt\",\"size\":1},{\"mtime\":0,\"rel\":\"sessions/w/s/x\",\"size\":20}]}"
    );
    assert_eq!(artifacts_json(&Vec::new()), "{\"files\":[]}");
}
