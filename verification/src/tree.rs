//! What the app tree and the runtime prefix hold beyond the packages themselves: the
//! Termux packages fetched, the desktop-only packages removed from the app tree, the
//! stubs put in place of some of them (so that their importers fail cleanly), and the
//! library aliases that Termux's install scripts would create.

use vstd::prelude::*;

use crate::fs_patch::{pair_views, patch_table_views, PairView};
use crate::text::string_views;

verus! {

/// The `package.json` of the sharp stub.
pub const SHARP_PACKAGE_JSON: &'static str = r#"{"name":"sharp","version":"0.35.3","type":"module","main":"index.js","exports":{".":{"import":"./index.js","default":"./index.js"}}}"#;

/// The `index.js` of the sharp stub.
pub const SHARP_INDEX_JS: &'static str = "const unavailable = (what) => { throw new Error('sharp: ' + what + ' is unavailable on this platform'); };\n\
                 function sharp() {\n\
                   return {\n\
                     metadata: async () => { throw new Error('sharp: metadata unavailable'); },\n\
                     raw: () => ({ toBuffer: async () => { throw new Error('sharp: decode unavailable'); } }),\n\
                     toBuffer: async () => { throw new Error('sharp: encode unavailable'); },\n\
                     resize: () => sharp(),\n\
                     rotate: () => sharp(),\n\
                   };\n\
                 }\n\
                 export default sharp;\n\
                 export { sharp };\n";

/// The `package.json` of the node-pty stub.
pub const NODE_PTY_PACKAGE_JSON: &'static str = r#"{"name":"node-pty","version":"1.1.0","type":"module","main":"index.js","exports":{".":{"import":"./index.js","default":"./index.js"}}}"#;

/// The `index.js` of the node-pty stub.
pub const NODE_PTY_INDEX_JS: &'static str = "export function spawn() { throw new Error('node-pty: terminal sessions are unavailable on this platform'); }\n\
                 const nodePty = { spawn };\n\
                 export default nodePty;\n";

/// The `package.json` of the koffi stub.
pub const KOFFI_PACKAGE_JSON: &'static str = r#"{"name":"koffi","version":"2.9.2-stub","type":"module","main":"index.js","exports":{".":"./index.js","./package.json":"./package.json"}}"#;

/// The `index.js` of the koffi stub. Its importers call `koffi.pointer` (and may call
/// `struct` and `array`) as they load, so those give blank objects; the bindings that are
/// only reached on Windows throw.
pub const KOFFI_INDEX_JS: &'static str = "const dummy = (name) => ({ name: String(name) });\n\
                 function unavailable(what) { throw new Error('koffi: ' + what + ' is unavailable on this platform'); }\n\
                 const koffi = {\n\
                   pointer: dummy,\n\
                   struct: (name, def) => ({ name: String(name), def }),\n\
                   array: dummy,\n\
                   register: unavailable,\n\
                   decode: unavailable,\n\
                   encode: unavailable,\n\
                   cdecl: unavailable,\n\
                 };\n\
                 export default koffi;\n";

/// The `package.json` of the @deepseek-ai/dsh-sandbox-windows-acl stub.
pub const WINDOWS_ACL_PACKAGE_JSON: &'static str = r#"{"name":"@deepseek-ai/dsh-sandbox-windows-acl","version":"1.0.0-stub","type":"module","main":"index.js","exports":{".":"./index.js","./runner":"./index.js","./package.json":"./package.json"}}"#;

/// The `index.js` of the @deepseek-ai/dsh-sandbox-windows-acl stub.
pub const WINDOWS_ACL_INDEX_JS: &'static str = "export class AclWriteGrant {\n\
                   static create() { throw new Error('windows-acl sandbox is unavailable on this platform'); }\n\
                 }\n\
                 export function assertTempRootOutsideWorkspace() {}\n\
                 export function tempWriteSid() { return ''; }\n\
                 export function workspaceWriteSid() { return ''; }\n";

/// The Termux packages fetched for the runtime prefix, in order.
pub open spec fn fetched_packages_spec() -> Seq<Seq<char>> {
    seq!["nodejs"@, "bash"@, "ripgrep"@, "libandroid-support"@, "libiconv"@, "readline"@, "ncurses"@, "pcre2"@, "libc++"@, "openssl"@, "c-ares"@, "libicu"@, "libsqlite"@, "zlib"@, "libffi"@, "ca-certificates"@]
}

/// The Termux packages fetched for the runtime prefix, in order.
pub fn fetched_packages() -> (v: Vec<String>)
    ensures
        string_views(v@) == fetched_packages_spec(),
{
    let mut v: Vec<String> = Vec::new();
    v.push("nodejs".to_string());
    v.push("bash".to_string());
    v.push("ripgrep".to_string());
    v.push("libandroid-support".to_string());
    v.push("libiconv".to_string());
    v.push("readline".to_string());
    v.push("ncurses".to_string());
    v.push("pcre2".to_string());
    v.push("libc++".to_string());
    v.push("openssl".to_string());
    v.push("c-ares".to_string());
    v.push("libicu".to_string());
    v.push("libsqlite".to_string());
    v.push("zlib".to_string());
    v.push("libffi".to_string());
    v.push("ca-certificates".to_string());
    assert(string_views(v@) =~= fetched_packages_spec());
    v
}

/// The desktop-only and prebuilt native packages removed from the app tree.
pub open spec fn removed_packages_spec() -> Seq<Seq<char>> {
    seq!["koffi"@, "sharp"@, "node-pty"@, "@koromix"@, "@img"@, "@deepseek-ai/dsh-sandbox-windows-acl"@]
}

/// The desktop-only and prebuilt native packages removed from the app tree.
pub fn removed_packages() -> (v: Vec<String>)
    ensures
        string_views(v@) == removed_packages_spec(),
{
    let mut v: Vec<String> = Vec::new();
    v.push("koffi".to_string());
    v.push("sharp".to_string());
    v.push("node-pty".to_string());
    v.push("@koromix".to_string());
    v.push("@img".to_string());
    v.push("@deepseek-ai/dsh-sandbox-windows-acl".to_string());
    assert(string_views(v@) =~= removed_packages_spec());
    v
}

/// The library aliases to create where the target exists and the alias does not: target,
/// then alias.
pub open spec fn alias_links_spec() -> Seq<PairView> {
    seq![("libsqlite3.so.3.53.4"@, "libsqlite3.so"@)]
}

/// The library aliases to create: target, then alias.
pub fn alias_links() -> (v: Vec<(String, String)>)
    ensures
        pair_views(v@) == alias_links_spec(),
{
    let mut v: Vec<(String, String)> = Vec::new();
    v.push(("libsqlite3.so.3.53.4".to_string(), "libsqlite3.so".to_string()));
    assert(pair_views(v@) =~= alias_links_spec());
    v
}

/// The stubs written in place of removed packages: each package (under `node_modules`)
/// with its files, name and contents.
pub open spec fn stubs_spec() -> Seq<(Seq<char>, Seq<PairView>)> {
    seq![
        ("sharp"@, seq![("package.json"@, SHARP_PACKAGE_JSON@), ("index.js"@, SHARP_INDEX_JS@)]),
        ("node-pty"@, seq![("package.json"@, NODE_PTY_PACKAGE_JSON@), ("index.js"@, NODE_PTY_INDEX_JS@)]),
        ("koffi"@, seq![("package.json"@, KOFFI_PACKAGE_JSON@), ("index.js"@, KOFFI_INDEX_JS@)]),
        ("@deepseek-ai/dsh-sandbox-windows-acl"@, seq![("package.json"@, WINDOWS_ACL_PACKAGE_JSON@), ("index.js"@, WINDOWS_ACL_INDEX_JS@)]),
    ]
}

/// A stub package's two files.
fn stub_files(package_json: &str, index_js: &str) -> (v: Vec<(String, String)>)
    ensures
        pair_views(v@) == seq![("package.json"@, package_json@), ("index.js"@, index_js@)],
{
    let mut v: Vec<(String, String)> = Vec::new();
    v.push(("package.json".to_string(), package_json.to_string()));
    v.push(("index.js".to_string(), index_js.to_string()));
    assert(pair_views(v@) =~= seq![("package.json"@, package_json@), ("index.js"@, index_js@)]);
    v
}

/// The stubs written in place of removed packages, in order.
pub fn stubs() -> (t: Vec<(String, Vec<(String, String)>)>)
    ensures
        patch_table_views(t@) == stubs_spec(),
{
    let mut t: Vec<(String, Vec<(String, String)>)> = Vec::new();
    t.push(("sharp".to_string(), stub_files(SHARP_PACKAGE_JSON, SHARP_INDEX_JS)));
    t.push(("node-pty".to_string(), stub_files(NODE_PTY_PACKAGE_JSON, NODE_PTY_INDEX_JS)));
    t.push(("koffi".to_string(), stub_files(KOFFI_PACKAGE_JSON, KOFFI_INDEX_JS)));
    t.push(("@deepseek-ai/dsh-sandbox-windows-acl".to_string(), stub_files(WINDOWS_ACL_PACKAGE_JSON, WINDOWS_ACL_INDEX_JS)));
    assert(patch_table_views(t@) =~= stubs_spec());
    t
}

} // verus!
