use vstd::prelude::*;

verus! {

/// What the command line gives: where the local crate is, and where the
/// crates.io API and CDN are.
#[derive(Debug)]
pub struct Arguments {
    /// The path to the local crate to build the reverse dependencies for.
    pub local_crate: String,
    /// The base URL of the API to be querying for reverse dependencies and crates.
    pub api_base_url: String,
    /// The base URL of the CDN to download the reverse dependencies from.
    pub cdn_base_url: String,
}

} // verus!
