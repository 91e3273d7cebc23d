//! The bundled encoder's version record, as read from its version file by
//! the surrounding application.

use vstd::prelude::*;

verus! {

/// Version, build date, and the date the bundled binary was last updated.
#[derive(Debug, Clone)]
pub struct FFmpegVersionInfo {
    pub version: String,
    pub date: String,
    pub updated: String,
}

} // verus!
