use dsh_mobile::apk::{apk_commands, apk_entries, apk_layout, apk_tools, missing_tool_message};
use dsh_mobile::options::ApkOptions;

fn opts(native_so: Option<&str>) -> ApkOptions {
    ApkOptions {
        sdk: "/sdk".to_string(),
        java_home: "/jdk/".to_string(),
        src: "app/src/main".to_string(),
        out: "dist/app.apk".to_string(),
        version_code: 42,
        version_name: "3.0".to_string(),
        keystore: "ks.jks".to_string(),
        keystore_pass: "pw".to_string(),
        alias: "dsh".to_string(),
        native_so: native_so.map(|s| s.to_string()),
        tmp: "/tmp/b".to_string(),
    }
}

fn words(s: &str) -> Vec<String> {
    s.split(' ').map(|w| w.to_string()).collect()
}

#[test]
fn build_tools_checked() {
    assert_eq!(
        apk_tools("/sdk", "/jdk/"),
        vec![
            "/sdk/build-tools/34.0.0/aapt2",
            "/sdk/build-tools/34.0.0/zipalign",
            "/sdk/build-tools/34.0.0/lib/d8.jar",
            "/sdk/build-tools/34.0.0/lib/apksigner.jar",
            "/sdk/platforms/android-34/android.jar",
            "/jdk/bin/javac",
            "/jdk/bin/keytool",
        ]
    );
    assert_eq!(missing_tool_message("/jdk/bin/javac"), "missing tool: /jdk/bin/javac");
}

#[test]
fn build_commands() {
    let o = opts(None);
    let l = apk_layout(&o);
    assert_eq!((l.gen.as_str(), l.assets.as_str(), l.sources_list.as_str()), ("/tmp/b/gen", "app/src/main/assets", "/tmp/b/sources.txt"));
    let c = apk_commands(&o, true, false);
    assert_eq!(c.len(), 7);
    assert_eq!(c[0], words("/sdk/build-tools/34.0.0/aapt2 compile --dir app/src/main/res -o /tmp/b/compiled.zip"));
    assert_eq!(
        c[1],
        words("/sdk/build-tools/34.0.0/aapt2 link -o /tmp/b/base.apk -I /sdk/platforms/android-34/android.jar --manifest app/src/main/AndroidManifest.xml --java /tmp/b/gen --min-sdk-version 26 --target-sdk-version 28 --version-code 42 --version-name 3.0 -A app/src/main/assets /tmp/b/compiled.zip")
    );
    assert_eq!(
        c[2],
        words("/jdk/bin/javac -encoding UTF-8 -source 8 -target 8 -nowarn -cp /sdk/platforms/android-34/android.jar -d /tmp/b/classes @/tmp/b/sources.txt")
    );
    assert_eq!(
        c[3],
        words("/jdk/bin/java -cp /sdk/build-tools/34.0.0/lib/d8.jar com.android.tools.r8.D8 --lib /sdk/platforms/android-34/android.jar --min-api 26 --output /tmp/b/dex /tmp/b/classes.jar")
    );
    assert_eq!(c[4], words("/sdk/build-tools/34.0.0/zipalign -f -p 4 /tmp/b/base.apk /tmp/b/aligned.apk"));
    assert_eq!(c[5][..6], words("/jdk/bin/keytool -genkeypair -v -keystore ks.jks -alias")[..]);
    assert_eq!(c[5].last().unwrap(), "CN=Rust DSH Mobile, OU=Dev, O=Dev, L=Dev, ST=Dev, C=CN");
    assert_eq!(
        c[6],
        words("/jdk/bin/java -jar /sdk/build-tools/34.0.0/lib/apksigner.jar sign --ks ks.jks --ks-pass pass:pw --ks-key-alias dsh --key-pass pass:pw --out dist/app.apk /tmp/b/aligned.apk")
    );
    // with a keystore no key is generated; without assets none are linked
    let c2 = apk_commands(&o, false, true);
    assert_eq!(c2.len(), 6);
    assert!(!c2[1].contains(&"-A".to_string()));
    assert_eq!(c2[5], c[6]);
}

#[test]
fn build_entries() {
    let dex = ("/tmp/b/dex/classes.dex".to_string(), "classes.dex".to_string());
    assert_eq!(apk_entries(&opts(None), true), vec![dex.clone()]);
    assert_eq!(apk_entries(&opts(Some("x.so")), false), vec![dex.clone()]);
    assert_eq!(
        apk_entries(&opts(Some("x.so")), true),
        vec![dex, ("x.so".to_string(), "lib/arm64-v8a/libdsh_mobile.so".to_string())]
    );
}
