//! The data a game-installation probe hands back. The probing itself
//! (registry and launcher-manifest lookups) is outside this library.

use vstd::prelude::*;

verus! {

/// A located game installation and how to launch it.
#[derive(Debug)]
pub struct GameInstallation {
    pub path: Vec<u8>,
    pub method: Vec<u8>,
    pub launch_url: Option<Vec<u8>>,
}

/// The fields read from a launcher's game manifest.
#[derive(Debug)]
pub struct EpicGameManifest {
    pub catalog_namespace: Vec<u8>,
    pub catalog_item_id: Vec<u8>,
    pub display_name: Vec<u8>,
    pub app_name: Vec<u8>,
}

} // verus!
