//! The invocation arguments of the conversion tool, as plain values. The
//! executable wraps this in its own argument parser; the library only carries
//! the values.

use vstd::prelude::*;

verus! {

/// What one invocation of the converter was asked to do.
pub struct Args {
    /// The path to a WIT folder including dependencies and a world, or a
    /// built Wasm component.
    pub wit_folder_or_component: String,
    /// The world name to use to convert to a manifest, required if a WIT
    /// folder is provided.
    pub world_name: Option<String>,
    /// The name of the application to use in the manifest.
    pub app_name: Option<String>,
    /// The description of the application to use in the manifest.
    pub app_description: Option<String>,
    /// The version of the application to use in the manifest.
    pub app_version: Option<String>,
    /// The image to use in the manifest.
    pub app_image: Option<String>,
}

} // verus!
