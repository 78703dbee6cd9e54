//! Plugin packages: a gzip-compressed tar archive that holds `manifest.toml`.
use vstd::prelude::*;

use crate::plugin::paths::{same_dir, same_dir_str};

verus! {

/// What decompressing gzip data gives: the bytes decoded (up to the first error)
/// and whether the whole stream decoded.
pub uninterp spec fn spec_gunzip(bytes: Seq<u8>) -> (Seq<u8>, bool);

/// Decompresses `bytes` with `flate2::read::GzDecoder` and `Read::read_to_end`.
/// The result is named by `spec_gunzip`: what was decoded before an error (which
/// `read_to_end` keeps), and whether no error came.
#[verifier::external_body]
fn gunzip(bytes: &[u8]) -> (r: (Vec<u8>, bool))
    ensures
        (r.0@, r.1) == spec_gunzip(bytes@),
{
    let mut out = Vec::new();
    let ok = std::io::Read::read_to_end(&mut flate2::read::GzDecoder::new(bytes), &mut out).is_ok();
    (out, ok)
}

/// What reading a tar archive gives: each entry's path and contents, in order, up
/// to the first entry that cannot be read, and whether every entry was read.
pub uninterp spec fn spec_tar_entries(bytes: Seq<u8>) -> (Seq<(Seq<char>, Seq<u8>)>, bool);

/// The path and contents of each entry, as values.
pub open spec fn entry_views(q: Seq<(String, Vec<u8>)>) -> Seq<(Seq<char>, Seq<u8>)> {
    q.map_values(|e: (String, Vec<u8>)| (e.0@, e.1@))
}

/// Reads the entries of the tar archive `bytes` with `tar::Archive::entries`:
/// each entry's path (by `Path::to_string_lossy`) and contents (by
/// `Read::read_to_end`), stopping at the first error. The result is named by
/// `spec_tar_entries`.
#[verifier::external_body]
fn tar_entries(bytes: &[u8]) -> (r: (Vec<(String, Vec<u8>)>, bool))
    ensures
        (entry_views(r.0@), r.1) == spec_tar_entries(bytes@),
{
    let mut found = Vec::new();
    let mut archive = tar::Archive::new(bytes);
    let entries = match archive.entries() { Ok(e) => e, Err(_) => return (found, false) };
    for entry in entries {
        let mut e = match entry { Ok(e) => e, Err(_) => return (found, false) };
        let path = match e.path() { Ok(p) => p.to_string_lossy().into_owned(), Err(_) => return (found, false) };
        let mut data = Vec::new();
        if std::io::Read::read_to_end(&mut e, &mut data).is_err() { return (found, false) }
        found.push((path, data));
    }
    (found, true)
}

/// Why no manifest could be taken from a package.
#[derive(Debug, Clone, Copy, PartialEq, Eq, Structural)]
pub enum PackageError {
    /// The package could not be decompressed or its archive read before the
    /// manifest was found.
    Unreadable,
    /// The archive was read to its end and holds no `manifest.toml`.
    NoManifest,
}

/// The first entry at or after `i` whose path is `path` (see `same_dir`).
pub open spec fn first_path(entries: Seq<(Seq<char>, Seq<u8>)>, path: Seq<char>, i: int) -> Option<
    int,
>
    decreases entries.len() - i,
{
    if i < 0 || i >= entries.len() {
        None
    } else if same_dir(entries[i].0, path) {
        Some(i)
    } else {
        first_path(entries, path, i + 1)
    }
}

/// The manifest of a package: the contents of the first entry named
/// `manifest.toml` among the entries that could be read; where there is none, the
/// archive was unreadable if decompressing or reading stopped at an error, and
/// holds no manifest otherwise.
pub open spec fn manifest_of(package: Seq<u8>) -> Result<Seq<u8>, PackageError> {
    let (tar, gz_ok) = spec_gunzip(package);
    let (entries, tar_ok) = spec_tar_entries(tar);
    match first_path(entries, "manifest.toml"@, 0) {
        Some(k) => Ok(entries[k].1),
        None => if gz_ok && tar_ok {
            Err(PackageError::NoManifest)
        } else {
            Err(PackageError::Unreadable)
        },
    }
}

/// The contents of `manifest.toml` in the package `package` (the bytes of a
/// `.ctp` file), or why there are none.
pub fn package_manifest(package: &[u8]) -> (r: Result<Vec<u8>, PackageError>)
    ensures
        match (r, manifest_of(package@)) {
            (Ok(m), Ok(n)) => m@ == n,
            (Err(e), Err(f)) => e == f,
            _ => false,
        },
{
    let (tar, gz_ok) = gunzip(package);
    let (mut entries, tar_ok) = tar_entries(tar.as_slice());
    let ghost es = entry_views(entries@);
    assert(spec_gunzip(package@) == (tar@, gz_ok));
    assert(spec_tar_entries(tar@) == (es, tar_ok));
    let n = entries.len();
    let mut i: usize = 0;
    while i < n
        invariant
            n == entries@.len(),
            es == entry_views(entries@),
            spec_gunzip(package@) == (tar@, gz_ok),
            spec_tar_entries(tar@) == (es, tar_ok),
            i <= n,
            first_path(es, "manifest.toml"@, 0) == first_path(es, "manifest.toml"@, i as int),
        decreases n - i,
    {
        assert(es[i as int].0 == entries@[i as int].0@);
        assert(es[i as int].1 == entries@[i as int].1@);
        if same_dir_str(entries[i].0.as_str(), "manifest.toml") {
            assert(first_path(es, "manifest.toml"@, i as int) == Some(i as int));
            let (_, m) = entries.remove(i);
            assert(m@ == es[i as int].1);
            return Ok(m);
        }
        i = i + 1;
    }
    if gz_ok && tar_ok {
        Err(PackageError::NoManifest)
    } else {
        Err(PackageError::Unreadable)
    }
}

} // verus!
