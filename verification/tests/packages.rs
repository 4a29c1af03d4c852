use dsh_mobile::deb::{ar_extract, deb_data_tar_bytes, find_pkg, parse_index, tar_files, NO_DATA_MEMBER, XZ_FF_RUN};
use dsh_mobile::elf::{elf_needed, elf_soname, patch_runpaths, runpath_patch_ok, runpath_texts, runpaths_in_file, Elf};

fn ar_member(name: &str, data: &[u8]) -> Vec<u8> {
    let mut h = format!("{:<16}{:<12}{:<6}{:<6}{:<8}{:<10}`\n", name, "0", "0", "0", "100644", data.len()).into_bytes();
    assert_eq!(h.len(), 60);
    h.extend_from_slice(data);
    if data.len() % 2 == 1 {
        h.push(b'\n');
    }
    h
}

fn ar_archive(members: &[(&str, &[u8])]) -> Vec<u8> {
    let mut out = b"!<arch>\n".to_vec();
    for (n, d) in members {
        out.extend(ar_member(n, d));
    }
    out
}

#[test]
fn ar_members() {
    let a = ar_archive(&[("debian-binary", b"2.0\n"), ("control.tar.xz/", b"abc"), ("data.tar.xz/", b"DATA")]);
    assert_eq!(ar_extract(&a, "debian-binary"), Some(b"2.0\n".to_vec()));
    assert_eq!(ar_extract(&a, "control.tar.xz"), Some(b"abc".to_vec()));
    assert_eq!(ar_extract(&a, "data.tar.xz/"), Some(b"DATA".to_vec()));
    assert_eq!(ar_extract(&a, "missing"), None);
    assert_eq!(ar_extract(b"not an archive", "x"), None);
    // a member whose size runs past the end is cut at the end
    let mut cut = a.clone();
    cut.truncate(cut.len() - 2);
    assert_eq!(ar_extract(&cut, "data.tar.xz"), Some(b"DA".to_vec()));
}

#[test]
fn ar_member_names_as_text() {
    let mut a = b"!<arch>\n".to_vec();
    let mut h = vec![0xffu8];
    h.extend(format!("{:<15}{:<12}{:<6}{:<6}{:<8}{:<10}`\n", "x/", "0", "0", "0", "100644", 2).into_bytes());
    a.extend(h);
    a.extend(b"ab");
    assert_eq!(ar_extract(&a, "\u{fffd}x"), Some(b"ab".to_vec()));
    assert_eq!(ar_extract(&a, "x"), None);
}

#[test]
fn index_paragraphs() {
    let text = "Package: nodejs\nVersion: 20.1\nFilename: pool/n/nodejs.deb\nSize: 123\n\nPackage: nofile\nVersion: 1\n\nPackage: bash\r\nVersion: 5.2\r\nFilename: pool/b/bash.deb\r\nSize: x\r\n\nPackage: nodejs\nVersion: 21.0\nFilename: pool/n/nodejs21.deb\nSize: +7\n";
    let idx = parse_index(text);
    assert_eq!(idx.len(), 2);
    let n = &idx[find_pkg(&idx, "nodejs").unwrap()].1;
    assert_eq!((n.version.as_str(), n.filename.as_str(), n.size), ("21.0", "pool/n/nodejs21.deb", 7));
    let b = &idx[find_pkg(&idx, "bash").unwrap()].1;
    assert_eq!((b.version.as_str(), b.filename.as_str(), b.size), ("5.2", "pool/b/bash.deb", 0));
    assert_eq!(find_pkg(&idx, "nofile"), None);
    assert!(parse_index("").is_empty());
}

#[test]
fn deb_data_member() {
    let tar_bytes = b"pretend tar stream".to_vec();
    let mut xz = Vec::new();
    lzma_rs::xz_compress(&mut &tar_bytes[..], &mut xz).unwrap();
    let deb = ar_archive(&[("debian-binary", b"2.0\n"), ("data.tar.xz/", &xz)]);
    assert_eq!(deb_data_tar_bytes(&deb), Ok(tar_bytes));
    let none = ar_archive(&[("debian-binary", b"2.0\n")]);
    assert_eq!(deb_data_tar_bytes(&none), Err(NO_DATA_MEMBER.to_string()));
    let bad = ar_archive(&[("data.tar.xz/", b"not xz")]);
    assert!(deb_data_tar_bytes(&bad).unwrap_err().starts_with("xz: "));
    let ff = ar_archive(&[("data.tar.xz/", b"\xfd7zXZ\0\0\x04\xff\xff\xff\xff")]);
    assert_eq!(deb_data_tar_bytes(&ff), Err(XZ_FF_RUN.to_string()));
    // four 0xFF bytes off the 4-byte grid go to the decoder, which refuses the stream
    let off = ar_archive(&[("data.tar.xz/", b"\xfd7zXZ\0\xff\xff\xff\xff")]);
    let e = deb_data_tar_bytes(&off).unwrap_err();
    assert!(e.starts_with("xz: ") && e != XZ_FF_RUN);
}

#[test]
fn tar_members_without_dirs() {
    let mut b = tar::Builder::new(Vec::new());
    let mut dir = tar::Header::new_gnu();
    dir.set_entry_type(tar::EntryType::Directory);
    dir.set_size(0);
    dir.set_mode(0o755);
    dir.set_cksum();
    b.append_data(&mut dir, "usr/lib/", std::io::empty()).unwrap();
    let mut f = tar::Header::new_gnu();
    f.set_size(3);
    f.set_mode(0o644);
    f.set_cksum();
    b.append_data(&mut f, "usr/lib/libx.so", &b"abc"[..]).unwrap();
    let data = b.into_inner().unwrap();
    let files = tar_files(&data).unwrap();
    assert_eq!(files, vec![("usr/lib/libx.so".to_string(), b"abc".to_vec())]);
}

fn put(d: &mut Vec<u8>, off: usize, bytes: &[u8]) {
    if d.len() < off + bytes.len() {
        d.resize(off + bytes.len(), 0);
    }
    d[off..off + bytes.len()].copy_from_slice(bytes);
}

/// A minimal 64-bit ELF file: one PT_DYNAMIC header, a dynamic section and a string table.
fn tiny_elf() -> Vec<u8> {
    let mut d = vec![0u8; 64];
    put(&mut d, 0, b"\x7fELF");
    d[4] = 2;
    put(&mut d, 32, &64u64.to_le_bytes());
    put(&mut d, 54, &56u16.to_le_bytes());
    put(&mut d, 56, &1u16.to_le_bytes());
    put(&mut d, 64, &2u32.to_le_bytes());
    put(&mut d, 72, &200u64.to_le_bytes());
    let tags: [(u64, u64); 5] = [(5, 300), (1, 1), (14, 10), (1, 20), (29, 29)];
    for (i, (t, v)) in tags.iter().enumerate() {
        put(&mut d, 200 + 16 * i, &t.to_le_bytes());
        put(&mut d, 208 + 16 * i, &v.to_le_bytes());
    }
    put(&mut d, 200 + 16 * 5, &[0u8; 16]);
    put(&mut d, 300, b"\0libc.so\0\0libfoo.so\0libm.so\0\0$ORIGIN\0");
    d
}

#[test]
fn elf_dynamic_strings() {
    let d = tiny_elf();
    assert_eq!(elf_needed(&d), vec!["libc.so".to_string(), "libm.so".to_string()]);
    assert_eq!(elf_soname(&d), Some("libfoo.so".to_string()));
    let e = Elf::new(&d).unwrap();
    assert_eq!(e.check_needed(&vec!["libc.so".to_string()]), vec!["libm.so".to_string()]);
    assert_eq!(e.check_needed(&Vec::new()), e.needed());
    assert!(e.check_needed(&vec!["libm.so".to_string(), "x.so".to_string(), "libc.so".to_string()]).is_empty());
    let (st, rps) = e.runpath_info().unwrap();
    assert_eq!(st, 300);
    assert_eq!(rps, vec![(29, 29)]);
    assert!(elf_needed(b"not elf").is_empty());
    assert_eq!(elf_soname(b"not elf"), None);
    let mut no_dyn = d.clone();
    put(&mut no_dyn, 64, &1u32.to_le_bytes());
    assert!(elf_needed(&no_dyn).is_empty());
}

#[test]
fn run_path_rewrite() {
    let d = tiny_elf();
    let e = Elf::new(&d).unwrap();
    let (st, rps) = e.runpath_info().unwrap();
    assert!(runpaths_in_file(&d, st, &rps));
    assert_eq!(runpath_texts(&d, st, &rps), vec!["$ORIGIN".to_string()]);
    assert!(runpath_patch_ok(&d, st, &rps, "$X"));
    let (out, n) = patch_runpaths(&d, st, &rps, "$X").ok().unwrap();
    assert_eq!(n, 1);
    assert_eq!(&out[329..337], b"$X\0\0\0\0\0\0");
    assert_eq!(out.len(), d.len());
    assert_eq!(&out[..329], &d[..329]);
    // read back, the run path is the new text
    assert_eq!(runpath_texts(&out, st, &rps), vec!["$X".to_string()]);
    let (out2, _) = patch_runpaths(&d, st, &rps, "$ORIGIN").ok().unwrap();
    assert_eq!(runpath_texts(&out2, st, &rps), vec!["$ORIGIN".to_string()]);
    match patch_runpaths(&d, st, &rps, "$ORIGIN/../lib") {
        Err(t) => assert_eq!(t.old, "$ORIGIN"),
        Ok(_) => panic!("too long"),
    }
    assert!(!runpaths_in_file(&d, 1 << 40, &rps));
}
