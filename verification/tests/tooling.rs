use dsh_mobile::dedupe::dedupe_plan;
use dsh_mobile::fs_patch::{android_fs_patches, apply_patches};
use dsh_mobile::text::tail;
use dsh_mobile::tree::{alias_links, fetched_packages, removed_packages, stubs};
use dsh_mobile::tool::{
    cert_target, foreign_rg_pkg, is_member_for, package_file, payload_entry, platform_pkg_dropped, rg_package_json,
    lib_basename, lib_name, missing_needed, patch_once, rpath_for, stripped_dir, stripped_file, utf8_len,
};

fn strings(v: &[&str]) -> Vec<String> {
    v.iter().map(|s| s.to_string()).collect()
}

#[test]
fn library_members() {
    assert_eq!(lib_basename("./data/data/com.termux/files/usr/lib/libz.so.1"), Some("libz.so.1".to_string()));
    assert_eq!(lib_basename("libfoo.so"), Some("libfoo.so".to_string()));
    assert_eq!(lib_basename("./usr/bin/node"), None);
    assert_eq!(lib_basename("./usr/lib/"), None);
    assert_eq!(lib_basename("./usr/share/liblist.txt"), None);
}

#[test]
fn run_paths() {
    assert_eq!(rpath_for("libnode.so"), "$ORIGIN");
    assert_eq!(rpath_for("node"), "$ORIGIN/../lib");
}

#[test]
fn stripping() {
    assert!(stripped_dir("__tests__"));
    assert!(stripped_dir("docs"));
    assert!(!stripped_dir("lib"));
    assert!(stripped_file("index.js.map"));
    assert!(stripped_file("types.d.ts"));
    assert!(stripped_file("GUIDE.MD"));
    assert!(stripped_file("notes.Markdown"));
    assert!(stripped_file("LICENSE-MIT"));
    assert!(!stripped_file("index.js"));
    assert!(!stripped_file("license"));
}

#[test]
fn text_patches() {
    assert_eq!(patch_once("a link b link", "link", "rename"), Some("a rename b link".to_string()));
    assert_eq!(patch_once("abc", "x", "y"), None);
    assert_eq!(patch_once("abc", "", "-"), Some("-abc".to_string()));
}

#[test]
fn library_names() {
    let names = strings(&["libz.so", "libz.so.1", "libz.so.1.3"]);
    assert_eq!(lib_name(&names, &vec![None, None, None]), Some("libz.so.1".to_string()));
    assert_eq!(
        lib_name(&names, &vec![None, Some("libz.so.1.3".to_string()), None]),
        Some("libz.so.1.3".to_string())
    );
    let plain = strings(&["libabc.so.22", "libabc.so.2"]);
    assert_eq!(lib_name(&plain, &vec![None, None]), Some("libabc.so.2".to_string()));
    let dropped = strings(&["libpcre2-16.so"]);
    assert_eq!(lib_name(&dropped, &vec![Some("libpcre2-16.so.0".to_string())]), None);
    assert_eq!(lib_name(&dropped, &vec![None]), None);
    assert_eq!(utf8_len("é1"), 3);
}

#[test]
fn missing_libraries() {
    let needed = strings(&["libc.so", "libz.so.1", "libnode.so", "libm.so"]);
    let have = strings(&["libz.so.1"]);
    assert_eq!(missing_needed(&needed, &have), strings(&["libnode.so"]));
}

#[test]
fn package_layout() {
    assert_eq!(package_file("nodejs"), Some("bin/node".to_string()));
    assert_eq!(package_file("zlib"), None);
    assert!(is_member_for("./data/data/com.termux/files/usr/bin/rg", "bin/rg"));
    assert!(!is_member_for("./usr/bin/rg", "bin/rg"));
    assert_eq!(cert_target("./data/data/com.termux/files/usr/etc/tls/cert.pem"), Some("etc/tls/cert.pem".to_string()));
    assert_eq!(cert_target("./data/data/com.termux/files/usr/etc/other"), None);
    assert!(platform_pkg_dropped("node-addon-landlock-run-linux-x64"));
    assert!(!platform_pkg_dropped("node-addon-landlock-run"));
    assert!(foreign_rg_pkg("ripgrep-win32-x64"));
    assert!(!foreign_rg_pkg("ripgrep-android-arm64"));
    assert_eq!(rg_package_json("android-arm64"), "{\"name\":\"@vscode/ripgrep-android-arm64\",\"version\":\"15.2.0\"}\n");
    assert_eq!(payload_entry("termux", "usr/bin/node"), Some("termux/usr/bin/node".to_string()));
    assert_eq!(payload_entry("dsh-app", "lib/x.js.map"), None);
}

#[test]
fn output_tail() {
    assert_eq!(tail("short", 10), "short");
    assert_eq!(tail("abcdef", 3), "def");
    assert_eq!(tail("", 0), "");
    // a cut inside a character reads lossily
    assert_eq!(tail("aé", 1), "\u{fffd}");
}

#[test]
fn library_plan() {
    let lib = |n: &str, d: &[u8]| (n.to_string(), d.to_vec());
    let libs = vec![
        lib("libz.so.1.3", b"zzz"),
        lib("x.so", b"b"),
        lib("libz.so", b"zzz"),
        lib("libpcre2-16.so", b"pcre"),
        lib("libabc.so.22", b"abc"),
        lib("libb.so", b"bbb"),
        lib("x.so", b"a"),
        lib("libz.so.1", b"zzz"),
        lib("libabc.so.2", b"abc"),
    ];
    assert_eq!(
        dedupe_plan(libs),
        vec![
            lib("libabc.so.2", b"abc"),
            lib("libb.so", b"bbb"),
            lib("libz.so.1", b"zzz"),
            lib("x.so", b"a"),
            lib("x.so", b"b"),
        ]
    );
    assert!(dedupe_plan(Vec::new()).is_empty());
}

#[test]
fn android_fs_table() {
    let t = android_fs_patches();
    assert_eq!(t.len(), 3);
    assert_eq!(t[0].0, "node_modules/@deepseek-ai/dsh-session-persistence-jsonl/lib/index.js");
    assert_eq!(t[1].0, "node_modules/@deepseek-ai/dsh-attachment-local/lib/index.js");
    assert_eq!(t[2].0, "node_modules/@deepseek-ai/dsh-fs-local/lib/index.js");
    assert_eq!(t.iter().map(|(_, p)| p.len()).collect::<Vec<_>>(), vec![2, 3, 1]);
    assert_eq!(t[0].1[1].0, "await link(tmp, finalPath);");
    assert!(t[0].1[1].1.ends_with("\n\t\t\t\t\t\tawait rename(tmp, finalPath);"));
}

#[test]
fn patches_in_order() {
    let pairs = vec![
        ("link".to_string(), "rename".to_string()),
        ("absent".to_string(), "x".to_string()),
        ("rename(a)".to_string(), "rename(b)".to_string()),
    ];
    // each replacement sees what the earlier ones left; only the first occurrence changes
    assert_eq!(apply_patches("link(a); link(c)", &pairs), ("rename(b); link(c)".to_string(), 2));
    assert_eq!(apply_patches("nothing", &pairs), ("nothing".to_string(), 0));
    let text = "import { link, mkdir } from \"x\";\nawait link(tmp, finalPath);\n";
    let t = android_fs_patches();
    let (out, n) = apply_patches(text, &t[0].1);
    assert_eq!(n, 1);
    assert!(out.contains("await rename(tmp, finalPath);"));
}

#[test]
fn tree_tables() {
    let p = fetched_packages();
    assert_eq!(p.len(), 16);
    assert_eq!((p[0].as_str(), p[15].as_str()), ("nodejs", "ca-certificates"));
    assert_eq!(
        removed_packages(),
        vec!["koffi", "sharp", "node-pty", "@koromix", "@img", "@deepseek-ai/dsh-sandbox-windows-acl"]
    );
    assert_eq!(alias_links(), vec![("libsqlite3.so.3.53.4".to_string(), "libsqlite3.so".to_string())]);
    let s = stubs();
    assert_eq!(
        s.iter().map(|(p, _)| p.as_str()).collect::<Vec<_>>(),
        vec!["sharp", "node-pty", "koffi", "@deepseek-ai/dsh-sandbox-windows-acl"]
    );
    for (pkg, files) in &s {
        assert_eq!(files.iter().map(|(n, _)| n.as_str()).collect::<Vec<_>>(), vec!["package.json", "index.js"]);
        assert!(files[0].1.contains(&format!("\"name\":\"{pkg}\"")));
        assert!(files[1].1.ends_with(";\n") || files[1].1.ends_with("}\n"));
    }
    assert!(s[1].1[1].1.starts_with("export function spawn() { throw new Error('node-pty: "));
    assert!(s[0].1[1].1.contains("\nfunction sharp() {\nreturn {\n"));
}
