//! Options of the APK build.

use vstd::prelude::*;

verus! {

/// What an APK build needs: SDK and JDK, sources, output, version, signing key, the native
/// library to bundle and a scratch directory.
pub struct ApkOptions {
    pub sdk: String,
    pub java_home: String,
    /// `app/src/main`: manifest, resources, Java sources and assets.
    pub src: String,
    /// The finished APK.
    pub out: String,
    pub version_code: u32,
    pub version_name: String,
    pub keystore: String,
    pub keystore_pass: String,
    pub alias: String,
    /// The native library, bundled as `lib/arm64-v8a/libdsh_mobile.so`.
    pub native_so: Option<String>,
    pub tmp: String,
}

} // verus!
