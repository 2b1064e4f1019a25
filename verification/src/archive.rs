//! Archive dispatch and normalization: the supported formats are chosen
//! strictly by file extension (case-insensitive), and an extracted tree
//! is republished rooted at the manifest anchor's parent directory.

use vstd::prelude::*;

use crate::ModError;
use crate::ascii::{DOT, SLASH, lower_seq, to_lower, subvec, bytes_eq, ext_zip, spec_ext_zip,
    ext_7z, spec_ext_7z, ext_rar, spec_ext_rar, ext_tgz, spec_ext_tgz, ext_gz, spec_ext_gz};
use crate::patch::find_last_byte;
use crate::fstree::{FsNode, node_view};
use crate::traversal::{manifest_of, find_modinfo_file};

verus! {

/// The archive formats an extractor exists for.
#[derive(Clone, Copy, Debug, PartialEq, Eq, Structural)]
pub enum ArchiveFormat {
    Zip,
    SevenZ,
    Rar,
    TarGz,
}

/// The last path component: everything after the last separator.
pub open spec fn last_component(path: Seq<u8>) -> Seq<u8> {
    path.skip(find_last_byte(path, SLASH) + 1)
}

/// The extension of a file name: the part after the last dot, which must
/// not be its first byte; empty when there is none.
pub open spec fn ext_of(name: Seq<u8>) -> Seq<u8> {
    let d = find_last_byte(name, DOT);
    if d > 0 {
        name.skip(d + 1)
    } else {
        Seq::empty()
    }
}

/// The archive format a path dispatches to, by the lower-cased extension
/// of its last component; `None` for every other extension.
pub open spec fn spec_archive_format(path: Seq<u8>) -> Option<ArchiveFormat> {
    let ext = lower_seq(ext_of(last_component(path)));
    if ext == spec_ext_zip() {
        Some(ArchiveFormat::Zip)
    } else if ext == spec_ext_7z() {
        Some(ArchiveFormat::SevenZ)
    } else if ext == spec_ext_rar() {
        Some(ArchiveFormat::Rar)
    } else if ext == spec_ext_tgz() || ext == spec_ext_gz() {
        Some(ArchiveFormat::TarGz)
    } else {
        None
    }
}

/// Extracts the last path component.
pub fn path_last_component(path: &Vec<u8>) -> (r: Vec<u8>)
    ensures
        r@ == last_component(path@),
{
    let mut i: usize = path.len();
    proof {
        assert(path@.take(i as int) =~= path@);
    }
    while i > 0
        invariant
            i <= path@.len(),
            find_last_byte(path@, SLASH) == find_last_byte(path@.take(i as int), SLASH),
        decreases i,
    {
        proof {
            assert(path@.take(i as int).last() == path@[i - 1]);
            assert(path@.take(i as int).drop_last() =~= path@.take(i - 1));
        }
        if path[i - 1] == SLASH {
            proof {
                assert(find_last_byte(path@, SLASH) == i - 1);
            }
            return subvec(path, i, path.len());
        }
        i = i - 1;
    }
    proof {
        assert(path@.take(0) =~= Seq::<u8>::empty());
        assert(find_last_byte(path@, SLASH) == -1);
        assert(path@.subrange(0, path@.len() as int) =~= path@.skip(0));
    }
    subvec(path, 0, path.len())
}

/// Extracts the extension of a file name.
pub fn name_ext(name: &Vec<u8>) -> (r: Vec<u8>)
    ensures
        r@ == ext_of(name@),
{
    let mut i: usize = name.len();
    proof {
        assert(name@.take(i as int) =~= name@);
    }
    while i > 0
        invariant
            i <= name@.len(),
            find_last_byte(name@, DOT) == find_last_byte(name@.take(i as int), DOT),
        decreases i,
    {
        proof {
            assert(name@.take(i as int).last() == name@[i - 1]);
            assert(name@.take(i as int).drop_last() =~= name@.take(i - 1));
        }
        if name[i - 1] == DOT {
            proof {
                assert(find_last_byte(name@, DOT) == i - 1);
            }
            if i - 1 == 0 {
                return Vec::new();
            }
            return subvec(name, i, name.len());
        }
        i = i - 1;
    }
    proof {
        assert(name@.take(0) =~= Seq::<u8>::empty());
        assert(find_last_byte(name@, DOT) == -1);
    }
    Vec::new()
}

/// Dispatches an archive path to its extractor by extension; any other
/// extension is rejected as an unsupported format, before any extraction
/// is attempted.
pub fn archive_format(path: &Vec<u8>) -> (r: Result<ArchiveFormat, ModError>)
    ensures
        match spec_archive_format(path@) {
            Some(f) => r == Ok::<ArchiveFormat, ModError>(f),
            None => r == Err::<ArchiveFormat, ModError>(ModError::UnsupportedFormat),
        },
{
    let comp = path_last_component(path);
    let e = name_ext(&comp);
    let ext = to_lower(&e);
    let z = ext_zip();
    if bytes_eq(&ext, &z) {
        return Ok(ArchiveFormat::Zip);
    }
    let s7 = ext_7z();
    if bytes_eq(&ext, &s7) {
        return Ok(ArchiveFormat::SevenZ);
    }
    let rr = ext_rar();
    if bytes_eq(&ext, &rr) {
        return Ok(ArchiveFormat::Rar);
    }
    let tg = ext_tgz();
    if bytes_eq(&ext, &tg) {
        return Ok(ArchiveFormat::TarGz);
    }
    let gz = ext_gz();
    if bytes_eq(&ext, &gz) {
        return Ok(ArchiveFormat::TarGz);
    }
    Err(ModError::UnsupportedFormat)
}

/// Locates the canonical mod content of an extracted tree: the manifest
/// anchor's containing directory; the archive root and any wrapper
/// folders above the anchor's directory are stripped. Fails when the
/// tree holds no manifest.
pub fn locate_mod_content<'a>(extracted: &'a FsNode) -> (r: Result<&'a FsNode, ModError>)
    ensures
        match manifest_of(node_view(*extracted)) {
            Some(g) => r matches Ok(n) && node_view(*n) == g.2,
            None => r == Err::<&'a FsNode, ModError>(ModError::ManifestNotFound),
        },
{
    match find_modinfo_file(extracted) {
        Some((path, bytes, parent)) => Ok(parent),
        None => Err(ModError::ManifestNotFound),
    }
}

} // verus!
