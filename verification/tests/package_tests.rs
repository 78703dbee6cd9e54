use flate2::write::GzEncoder;
use flate2::Compression;

use creeper_term::plugin::loader::plugin_manifest;
use creeper_term::plugin::package::{package_manifest, PackageError};

fn package(files: &[(&str, &[u8])]) -> Vec<u8> {
    let enc = GzEncoder::new(Vec::new(), Compression::default());
    let mut tar = tar::Builder::new(enc);
    for (path, data) in files {
        let mut header = tar::Header::new_gnu();
        header.set_path(path).unwrap();
        header.set_size(data.len() as u64);
        header.set_mode(0o644);
        header.set_cksum();
        tar.append(&header, *data).unwrap();
    }
    tar.into_inner().unwrap().finish().unwrap()
}

#[test]
fn the_manifest_is_read_back_from_a_package() {
    let manifest = plugin_manifest("demo", "0.1.0", "A demo", "Me");
    let p = package(&[("src/main.lua", b"print(1)"), ("manifest.toml", manifest.as_bytes())]);
    assert_eq!(package_manifest(&p), Ok(manifest.into_bytes()));
}

#[test]
fn the_first_manifest_counts() {
    let p = package(&[("manifest.toml", b"first"), ("manifest.toml", b"second")]);
    assert_eq!(package_manifest(&p), Ok(b"first".to_vec()));
}

#[test]
fn a_package_without_a_manifest() {
    let p = package(&[("readme.txt", b"hi"), ("src/manifest.toml", b"no")]);
    assert_eq!(package_manifest(&p), Err(PackageError::NoManifest));
    let p = package(&[]);
    assert_eq!(package_manifest(&p), Err(PackageError::NoManifest));
}

#[test]
fn a_package_that_is_not_gzip_is_unreadable() {
    assert_eq!(package_manifest(b"not a package"), Err(PackageError::Unreadable));
    assert_eq!(package_manifest(b""), Err(PackageError::Unreadable));
}

#[test]
fn a_truncated_package_is_unreadable() {
    let p = package(&[("readme.txt", &[7u8; 3000]), ("manifest.toml", b"late")]);
    assert_eq!(package_manifest(&p[..p.len() / 2]), Err(PackageError::Unreadable));
}
