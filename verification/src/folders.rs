//! The platform-dependent location of the game's mods folder, given the
//! platform name and the home directory.

use vstd::prelude::*;

use crate::ascii::{subvec, append_bytes, bytes_eq, os_windows, spec_os_windows, os_macos,
    spec_os_macos, os_linux, spec_os_linux, mods_suffix_windows, spec_mods_suffix_windows,
    mods_suffix_macos, spec_mods_suffix_macos, mods_suffix_linux, spec_mods_suffix_linux};

verus! {

/// The mods folder for a platform: the home directory plus the
/// platform's fixed suffix; `None` on an unknown platform.
pub open spec fn spec_mods_folder(os: Seq<u8>, home: Seq<u8>) -> Option<Seq<u8>> {
    if os == spec_os_windows() {
        Some(home + spec_mods_suffix_windows())
    } else if os == spec_os_macos() {
        Some(home + spec_mods_suffix_macos())
    } else if os == spec_os_linux() {
        Some(home + spec_mods_suffix_linux())
    } else {
        None
    }
}

/// Builds the expected mods folder path for a platform; the caller
/// checks that it exists on disk.
pub fn get_civ7_mods_folder(os: &Vec<u8>, home: &Vec<u8>) -> (r: Option<Vec<u8>>)
    ensures
        match r {
            Some(p) => spec_mods_folder(os@, home@) == Some(p@),
            None => spec_mods_folder(os@, home@) is None,
        },
{
    let w = os_windows();
    let m = os_macos();
    let l = os_linux();
    let suffix: Vec<u8>;
    if bytes_eq(os, &w) {
        suffix = mods_suffix_windows();
    } else if bytes_eq(os, &m) {
        suffix = mods_suffix_macos();
    } else if bytes_eq(os, &l) {
        suffix = mods_suffix_linux();
    } else {
        return None;
    }
    let mut p = subvec(home, 0, home.len());
    append_bytes(&mut p, &suffix);
    proof {
        assert(home@.subrange(0, home@.len() as int) =~= home@);
    }
    Some(p)
}

} // verus!
