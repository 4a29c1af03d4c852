//! The plan of an APK build: the tools it needs, where its intermediate files go, and the
//! command lines it runs, in order (aapt2 compile and link, javac, d8, zipalign, keytool
//! where there is no keystore yet, apksigner). Running them is left to the caller.

use vstd::prelude::*;

use crate::options::ApkOptions;
use crate::server::{join, join_spec};
use crate::text::{dec, push_dec, push_str, string_views};

verus! {

// ------------------------------------------------------------------ paths

/// Two components joined onto `a`.
pub open spec fn join2(a: Seq<char>, b: Seq<char>, c: Seq<char>) -> Seq<char> {
    join_spec(join_spec(a, b), c)
}

/// Two components joined onto `a`.
fn path_join2(a: &str, b: &str, c: &str) -> (r: String)
    ensures
        r@ == join2(a@, b@, c@),
{
    join(join(a, b).as_str(), c)
}

/// The build-tools directory of the SDK.
pub open spec fn build_tools_dir(sdk: Seq<char>) -> Seq<char> {
    join2(sdk, "build-tools"@, "34.0.0"@)
}

/// The platform library the app compiles against.
pub open spec fn platform_jar(sdk: Seq<char>) -> Seq<char> {
    join_spec(join2(sdk, "platforms"@, "android-34"@), "android.jar"@)
}

/// `aapt2`.
pub open spec fn aapt2_path(sdk: Seq<char>) -> Seq<char> {
    join_spec(build_tools_dir(sdk), "aapt2"@)
}

/// `zipalign`.
pub open spec fn zipalign_path(sdk: Seq<char>) -> Seq<char> {
    join_spec(build_tools_dir(sdk), "zipalign"@)
}

/// The d8 dexer.
pub open spec fn d8_jar(sdk: Seq<char>) -> Seq<char> {
    join2(build_tools_dir(sdk), "lib"@, "d8.jar"@)
}

/// The APK signer.
pub open spec fn apksigner_jar(sdk: Seq<char>) -> Seq<char> {
    join2(build_tools_dir(sdk), "lib"@, "apksigner.jar"@)
}

/// A program of the JDK.
pub open spec fn jdk_tool(java_home: Seq<char>, name: Seq<char>) -> Seq<char> {
    join2(java_home, "bin"@, name)
}

/// The tools a build needs, in the order they are checked: aapt2, zipalign, d8, apksigner,
/// the platform library, javac and keytool.
pub open spec fn apk_tools_spec(sdk: Seq<char>, java_home: Seq<char>) -> Seq<Seq<char>> {
    seq![
        aapt2_path(sdk),
        zipalign_path(sdk),
        d8_jar(sdk),
        apksigner_jar(sdk),
        platform_jar(sdk),
        jdk_tool(java_home, "javac"@),
        jdk_tool(java_home, "keytool"@),
    ]
}

/// The tools a build needs, in the order they are checked.
pub fn apk_tools(sdk: &str, java_home: &str) -> (v: Vec<String>)
    ensures
        string_views(v@) == apk_tools_spec(sdk@, java_home@),
{
    let bt = path_join2(sdk, "build-tools", "34.0.0");
    let mut v: Vec<String> = Vec::new();
    v.push(join(bt.as_str(), "aapt2"));
    v.push(join(bt.as_str(), "zipalign"));
    v.push(path_join2(bt.as_str(), "lib", "d8.jar"));
    v.push(path_join2(bt.as_str(), "lib", "apksigner.jar"));
    v.push(join(path_join2(sdk, "platforms", "android-34").as_str(), "android.jar"));
    v.push(path_join2(java_home, "bin", "javac"));
    v.push(path_join2(java_home, "bin", "keytool"));
    assert(string_views(v@) =~= apk_tools_spec(sdk@, java_home@));
    v
}

/// The message when a tool is missing.
pub fn missing_tool_message(p: &str) -> (m: String)
    ensures
        m@ == "missing tool: "@ + p@,
{
    let mut m = String::new();
    push_str(&mut m, "missing tool: ");
    push_str(&mut m, p);
    m
}

/// Where a build keeps its intermediate files, all under its scratch directory but for the
/// sources' own directories.
pub struct ApkLayout {
    /// Where a failed command's output is saved (with `.out` and `.err` extensions).
    pub log: String,
    /// Compiled resources.
    pub compiled: String,
    /// The Java sources aapt2 generates.
    pub gen: String,
    /// The APK before alignment.
    pub base_apk: String,
    /// The app's assets, bundled where the directory exists.
    pub assets: String,
    /// The app's Java sources.
    pub java_src: String,
    /// Compiled classes.
    pub classes: String,
    /// The list of Java sources handed to javac.
    pub sources_list: String,
    /// The classes as a jar, for d8.
    pub classes_jar: String,
    /// Where d8 writes `classes.dex`.
    pub dex_dir: String,
    /// The aligned APK, before signing.
    pub aligned: String,
}

/// The layout of a build with scratch directory `tmp` and sources `src`.
pub open spec fn layout_ok(l: ApkLayout, tmp: Seq<char>, src: Seq<char>) -> bool {
    &&& l.log@ == join_spec(tmp, "last_fail"@)
    &&& l.compiled@ == join_spec(tmp, "compiled.zip"@)
    &&& l.gen@ == join_spec(tmp, "gen"@)
    &&& l.base_apk@ == join_spec(tmp, "base.apk"@)
    &&& l.assets@ == join_spec(src, "assets"@)
    &&& l.java_src@ == join_spec(src, "java"@)
    &&& l.classes@ == join_spec(tmp, "classes"@)
    &&& l.sources_list@ == join_spec(tmp, "sources.txt"@)
    &&& l.classes_jar@ == join_spec(tmp, "classes.jar"@)
    &&& l.dex_dir@ == join_spec(tmp, "dex"@)
    &&& l.aligned@ == join_spec(tmp, "aligned.apk"@)
}

/// Where a build keeps its intermediate files.
pub fn apk_layout(opt: &ApkOptions) -> (l: ApkLayout)
    ensures
        layout_ok(l, opt.tmp@, opt.src@),
{
    let tmp = opt.tmp.as_str();
    ApkLayout {
        log: join(tmp, "last_fail"),
        compiled: join(tmp, "compiled.zip"),
        gen: join(tmp, "gen"),
        base_apk: join(tmp, "base.apk"),
        assets: join(opt.src.as_str(), "assets"),
        java_src: join(opt.src.as_str(), "java"),
        classes: join(tmp, "classes"),
        sources_list: join(tmp, "sources.txt"),
        classes_jar: join(tmp, "classes.jar"),
        dex_dir: join(tmp, "dex"),
        aligned: join(tmp, "aligned.apk"),
    }
}

// ------------------------------------------------------------------ commands

/// The subject of the generated signing key.
pub const KEY_DNAME: &'static str = "CN=Rust DSH Mobile, OU=Dev, O=Dev, L=Dev, ST=Dev, C=CN";

/// Where the native library goes inside the APK.
pub const NATIVE_SO_ENTRY: &'static str = "lib/arm64-v8a/libdsh_mobile.so";

/// aapt2 compiling the resources.
pub open spec fn compile_cmd(opt: ApkOptions) -> Seq<Seq<char>> {
    seq![
        aapt2_path(opt.sdk@),
        "compile"@,
        "--dir"@,
        join_spec(opt.src@, "res"@),
        "-o"@,
        join_spec(opt.tmp@, "compiled.zip"@),
    ]
}

/// aapt2 linking the base APK: minimum SDK 26, target 28, the version, the assets where
/// they exist, then the compiled resources.
pub open spec fn link_cmd(opt: ApkOptions, has_assets: bool) -> Seq<Seq<char>> {
    seq![
        aapt2_path(opt.sdk@),
        "link"@,
        "-o"@,
        join_spec(opt.tmp@, "base.apk"@),
        "-I"@,
        platform_jar(opt.sdk@),
        "--manifest"@,
        join_spec(opt.src@, "AndroidManifest.xml"@),
        "--java"@,
        join_spec(opt.tmp@, "gen"@),
        "--min-sdk-version"@,
        "26"@,
        "--target-sdk-version"@,
        "28"@,
        "--version-code"@,
        dec(opt.version_code as nat),
        "--version-name"@,
        opt.version_name@,
    ] + (if has_assets {
        seq!["-A"@, join_spec(opt.src@, "assets"@)]
    } else {
        Seq::empty()
    }) + seq![join_spec(opt.tmp@, "compiled.zip"@)]
}

/// javac compiling the sources listed in the sources file, for Java 8.
pub open spec fn javac_cmd(opt: ApkOptions) -> Seq<Seq<char>> {
    seq![
        jdk_tool(opt.java_home@, "javac"@),
        "-encoding"@,
        "UTF-8"@,
        "-source"@,
        "8"@,
        "-target"@,
        "8"@,
        "-nowarn"@,
        "-cp"@,
        platform_jar(opt.sdk@),
        "-d"@,
        join_spec(opt.tmp@, "classes"@),
        "@"@ + join_spec(opt.tmp@, "sources.txt"@),
    ]
}

/// d8 turning the classes jar into dex code, minimum API 26.
pub open spec fn d8_cmd(opt: ApkOptions) -> Seq<Seq<char>> {
    seq![
        jdk_tool(opt.java_home@, "java"@),
        "-cp"@,
        d8_jar(opt.sdk@),
        "com.android.tools.r8.D8"@,
        "--lib"@,
        platform_jar(opt.sdk@),
        "--min-api"@,
        "26"@,
        "--output"@,
        join_spec(opt.tmp@, "dex"@),
        join_spec(opt.tmp@, "classes.jar"@),
    ]
}

/// zipalign aligning the base APK to 4 bytes.
pub open spec fn zipalign_cmd(opt: ApkOptions) -> Seq<Seq<char>> {
    seq![
        zipalign_path(opt.sdk@),
        "-f"@,
        "-p"@,
        "4"@,
        join_spec(opt.tmp@, "base.apk"@),
        join_spec(opt.tmp@, "aligned.apk"@),
    ]
}

/// keytool generating the signing key (RSA, 2048 bits, 10000 days).
pub open spec fn keytool_cmd(opt: ApkOptions) -> Seq<Seq<char>> {
    seq![
        jdk_tool(opt.java_home@, "keytool"@),
        "-genkeypair"@,
        "-v"@,
        "-keystore"@,
        opt.keystore@,
        "-alias"@,
        opt.alias@,
        "-keyalg"@,
        "RSA"@,
        "-keysize"@,
        "2048"@,
        "-validity"@,
        "10000"@,
        "-storepass"@,
        opt.keystore_pass@,
        "-keypass"@,
        opt.keystore_pass@,
        "-dname"@,
        KEY_DNAME@,
    ]
}

/// apksigner signing the aligned APK into the output.
pub open spec fn sign_cmd(opt: ApkOptions) -> Seq<Seq<char>> {
    seq![
        jdk_tool(opt.java_home@, "java"@),
        "-jar"@,
        apksigner_jar(opt.sdk@),
        "sign"@,
        "--ks"@,
        opt.keystore@,
        "--ks-pass"@,
        "pass:"@ + opt.keystore_pass@,
        "--ks-key-alias"@,
        opt.alias@,
        "--key-pass"@,
        "pass:"@ + opt.keystore_pass@,
        "--out"@,
        opt.out@,
        join_spec(opt.tmp@, "aligned.apk"@),
    ]
}

/// The command lines of a build, in the order they run; keytool only where the keystore
/// does not exist yet.
pub open spec fn apk_commands_spec(opt: ApkOptions, has_assets: bool, has_keystore: bool) -> Seq<
    Seq<Seq<char>>,
> {
    seq![compile_cmd(opt), link_cmd(opt, has_assets), javac_cmd(opt), d8_cmd(opt), zipalign_cmd(opt)] + (
    if has_keystore {
        Seq::empty()
    } else {
        seq![keytool_cmd(opt)]
    }) + seq![sign_cmd(opt)]
}

/// The models of command lines.
pub open spec fn command_views(v: Seq<Vec<String>>) -> Seq<Seq<Seq<char>>> {
    v.map_values(|c: Vec<String>| string_views(c@))
}

/// An owned copy of a text.
fn text(s: &str) -> (r: String)
    ensures
        r@ == s@,
{
    s.to_string()
}

/// `p` followed by `s`.
fn prefixed(p: &str, s: &str) -> (r: String)
    ensures
        r@ == p@ + s@,
{
    let mut r = String::new();
    push_str(&mut r, p);
    push_str(&mut r, s);
    r
}

fn compile_args(opt: &ApkOptions) -> (c: Vec<String>)
    ensures
        string_views(c@) == compile_cmd(*opt),
{
    let bt = path_join2(opt.sdk.as_str(), "build-tools", "34.0.0");
    let mut c: Vec<String> = Vec::new();
    c.push(join(bt.as_str(), "aapt2"));
    c.push(text("compile"));
    c.push(text("--dir"));
    c.push(join(opt.src.as_str(), "res"));
    c.push(text("-o"));
    c.push(join(opt.tmp.as_str(), "compiled.zip"));
    assert(string_views(c@) =~= compile_cmd(*opt));
    c
}

fn link_args(opt: &ApkOptions, has_assets: bool) -> (c: Vec<String>)
    ensures
        string_views(c@) == link_cmd(*opt, has_assets),
{
    let bt = path_join2(opt.sdk.as_str(), "build-tools", "34.0.0");
    let mut version = String::new();
    push_dec(&mut version, opt.version_code as u64);
    assert(version@ =~= dec(opt.version_code as nat));
    let mut c: Vec<String> = Vec::new();
    c.push(join(bt.as_str(), "aapt2"));
    c.push(text("link"));
    c.push(text("-o"));
    c.push(join(opt.tmp.as_str(), "base.apk"));
    c.push(text("-I"));
    c.push(join(path_join2(opt.sdk.as_str(), "platforms", "android-34").as_str(), "android.jar"));
    c.push(text("--manifest"));
    c.push(join(opt.src.as_str(), "AndroidManifest.xml"));
    c.push(text("--java"));
    c.push(join(opt.tmp.as_str(), "gen"));
    c.push(text("--min-sdk-version"));
    c.push(text("26"));
    c.push(text("--target-sdk-version"));
    c.push(text("28"));
    c.push(text("--version-code"));
    c.push(version);
    c.push(text("--version-name"));
    c.push(opt.version_name.clone());
    if has_assets {
        c.push(text("-A"));
        c.push(join(opt.src.as_str(), "assets"));
    }
    c.push(join(opt.tmp.as_str(), "compiled.zip"));
    assert(string_views(c@) =~= link_cmd(*opt, has_assets));
    c
}

fn javac_args(opt: &ApkOptions) -> (c: Vec<String>)
    ensures
        string_views(c@) == javac_cmd(*opt),
{
    let sources = join(opt.tmp.as_str(), "sources.txt");
    let mut c: Vec<String> = Vec::new();
    c.push(path_join2(opt.java_home.as_str(), "bin", "javac"));
    c.push(text("-encoding"));
    c.push(text("UTF-8"));
    c.push(text("-source"));
    c.push(text("8"));
    c.push(text("-target"));
    c.push(text("8"));
    c.push(text("-nowarn"));
    c.push(text("-cp"));
    c.push(join(path_join2(opt.sdk.as_str(), "platforms", "android-34").as_str(), "android.jar"));
    c.push(text("-d"));
    c.push(join(opt.tmp.as_str(), "classes"));
    c.push(prefixed("@", sources.as_str()));
    assert(string_views(c@) =~= javac_cmd(*opt));
    c
}

fn d8_args(opt: &ApkOptions) -> (c: Vec<String>)
    ensures
        string_views(c@) == d8_cmd(*opt),
{
    let bt = path_join2(opt.sdk.as_str(), "build-tools", "34.0.0");
    let mut c: Vec<String> = Vec::new();
    c.push(path_join2(opt.java_home.as_str(), "bin", "java"));
    c.push(text("-cp"));
    c.push(path_join2(bt.as_str(), "lib", "d8.jar"));
    c.push(text("com.android.tools.r8.D8"));
    c.push(text("--lib"));
    c.push(join(path_join2(opt.sdk.as_str(), "platforms", "android-34").as_str(), "android.jar"));
    c.push(text("--min-api"));
    c.push(text("26"));
    c.push(text("--output"));
    c.push(join(opt.tmp.as_str(), "dex"));
    c.push(join(opt.tmp.as_str(), "classes.jar"));
    assert(string_views(c@) =~= d8_cmd(*opt));
    c
}

fn zipalign_args(opt: &ApkOptions) -> (c: Vec<String>)
    ensures
        string_views(c@) == zipalign_cmd(*opt),
{
    let bt = path_join2(opt.sdk.as_str(), "build-tools", "34.0.0");
    let mut c: Vec<String> = Vec::new();
    c.push(join(bt.as_str(), "zipalign"));
    c.push(text("-f"));
    c.push(text("-p"));
    c.push(text("4"));
    c.push(join(opt.tmp.as_str(), "base.apk"));
    c.push(join(opt.tmp.as_str(), "aligned.apk"));
    assert(string_views(c@) =~= zipalign_cmd(*opt));
    c
}

fn keytool_args(opt: &ApkOptions) -> (c: Vec<String>)
    ensures
        string_views(c@) == keytool_cmd(*opt),
{
    let mut c: Vec<String> = Vec::new();
    c.push(path_join2(opt.java_home.as_str(), "bin", "keytool"));
    c.push(text("-genkeypair"));
    c.push(text("-v"));
    c.push(text("-keystore"));
    c.push(opt.keystore.clone());
    c.push(text("-alias"));
    c.push(opt.alias.clone());
    c.push(text("-keyalg"));
    c.push(text("RSA"));
    c.push(text("-keysize"));
    c.push(text("2048"));
    c.push(text("-validity"));
    c.push(text("10000"));
    c.push(text("-storepass"));
    c.push(opt.keystore_pass.clone());
    c.push(text("-keypass"));
    c.push(opt.keystore_pass.clone());
    c.push(text("-dname"));
    c.push(text(KEY_DNAME));
    assert(string_views(c@) =~= keytool_cmd(*opt));
    c
}

fn sign_args(opt: &ApkOptions) -> (c: Vec<String>)
    ensures
        string_views(c@) == sign_cmd(*opt),
{
    let bt = path_join2(opt.sdk.as_str(), "build-tools", "34.0.0");
    let mut c: Vec<String> = Vec::new();
    c.push(path_join2(opt.java_home.as_str(), "bin", "java"));
    c.push(text("-jar"));
    c.push(path_join2(bt.as_str(), "lib", "apksigner.jar"));
    c.push(text("sign"));
    c.push(text("--ks"));
    c.push(opt.keystore.clone());
    c.push(text("--ks-pass"));
    c.push(prefixed("pass:", opt.keystore_pass.as_str()));
    c.push(text("--ks-key-alias"));
    c.push(opt.alias.clone());
    c.push(text("--key-pass"));
    c.push(prefixed("pass:", opt.keystore_pass.as_str()));
    c.push(text("--out"));
    c.push(opt.out.clone());
    c.push(join(opt.tmp.as_str(), "aligned.apk"));
    assert(string_views(c@) =~= sign_cmd(*opt));
    c
}

/// The command lines of a build, in the order they run: aapt2 compile, aapt2 link (with
/// the assets where `has_assets`), javac, d8, zipalign, keytool (only where not
/// `has_keystore`) and apksigner.
pub fn apk_commands(opt: &ApkOptions, has_assets: bool, has_keystore: bool) -> (v: Vec<Vec<String>>)
    ensures
        command_views(v@) == apk_commands_spec(*opt, has_assets, has_keystore),
{
    let mut v: Vec<Vec<String>> = Vec::new();
    v.push(compile_args(opt));
    v.push(link_args(opt, has_assets));
    v.push(javac_args(opt));
    v.push(d8_args(opt));
    v.push(zipalign_args(opt));
    if !has_keystore {
        v.push(keytool_args(opt));
    }
    v.push(sign_args(opt));
    assert(command_views(v@) =~= apk_commands_spec(*opt, has_assets, has_keystore));
    v
}

/// The files added to the base APK after d8: `classes.dex`, and the native library where
/// one is given and `native_so_exists`.
pub open spec fn apk_entries_spec(opt: ApkOptions, native_so_exists: bool) -> Seq<(Seq<char>, Seq<char>)> {
    seq![(join_spec(join_spec(opt.tmp@, "dex"@), "classes.dex"@), "classes.dex"@)] + match opt.native_so {
        Some(so) => if native_so_exists {
            seq![(so@, NATIVE_SO_ENTRY@)]
        } else {
            Seq::empty()
        },
        None => Seq::empty(),
    }
}

/// The files added to the base APK after d8, each with its name in the archive.
pub fn apk_entries(opt: &ApkOptions, native_so_exists: bool) -> (v: Vec<(String, String)>)
    ensures
        v@.map_values(|e: (String, String)| (e.0@, e.1@)) == apk_entries_spec(*opt, native_so_exists),
{
    let mut v: Vec<(String, String)> = Vec::new();
    v.push((path_join2(opt.tmp.as_str(), "dex", "classes.dex"), text("classes.dex")));
    match &opt.native_so {
        Some(so) => {
            if native_so_exists {
                v.push((so.clone(), text(NATIVE_SO_ENTRY)));
            }
        },
        None => {},
    }
    assert(v@.map_values(|e: (String, String)| (e.0@, e.1@)) =~= apk_entries_spec(*opt, native_so_exists));
    v
}

} // verus!
