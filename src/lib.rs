//! Download a web page together with the images, stylesheets and scripts
//! it references, and embed those resources in the page so that it renders
//! without any external reference.
//!
//! The library holds the logic: resolving and discovering resource
//! references, classifying image bytes, keeping the downloaded resources,
//! and planning and applying the rewrite of the document. Fetching over the
//! network is left to the caller.

pub mod address;
pub mod error;
pub mod html;
pub mod laws;
pub mod page_archive;
pub mod parsing;
pub mod sniff;

pub use address::Url;
pub use error::Error;
pub use page_archive::PageArchive;
pub use parsing::{ImageResource, Resource, ResourceMap, ResourceUrl};

use vstd::prelude::*;

verus! {

/// Configuration options to control aspects of the archiving behaviour.
pub struct ArchiveOptions {
    /// Accept invalid certificates or certificates that do not match
    /// the requested hostname. This is handed to the HTTP client as it is.
    ///
    /// Default: `false`
    pub accept_invalid_certificates: bool,
}

impl Default for ArchiveOptions {
    fn default() -> (r: Self)
        ensures
            !r.accept_invalid_certificates,
    {
        ArchiveOptions { accept_invalid_certificates: false }
    }
}

} // verus!
