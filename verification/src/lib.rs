//! Core engine of a game-mod manager: manifest sanitizing, reversible
//! manifest patching, content fingerprinting, archive normalization,
//! mod-directory scanning and profile/backup planning.

use vstd::prelude::*;

pub mod ascii;
pub mod xml;
pub mod sanitize;
pub mod patch;
pub mod fstree;
pub mod fingerprint;
pub mod xmltree;
pub mod schema;
pub mod traversal;
pub mod archive;
pub mod profiles;
pub mod backup;
pub mod folders;
pub mod installation;

verus! {

/// The error kinds the library surfaces to callers.
#[derive(Clone, Copy, Debug, PartialEq, Eq, Structural)]
pub enum ModError {
    /// A missing or non-directory input path.
    InvalidPath,
    /// An archive extension no extractor handles.
    UnsupportedFormat,
    /// A format-specific decode failure.
    ExtractionFailure,
    /// No manifest anchor file was found.
    ManifestNotFound,
    /// A structural markup error beyond the repair rules.
    MarkupParseError,
    /// A patch sidecar that does not apply to the manifest text.
    PatchApplyFailure,
    /// A copy, remove or permission failure.
    IoFailure,
}

} // verus!
