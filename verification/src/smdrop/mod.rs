//! The archive server: its directory listings, the branches and versions
//! they name, and the archives behind them.

use vstd::prelude::*;

pub mod archive;
pub mod branches;
pub mod listing;
pub mod versions;

verus! {

/// What a client of the archive server is made with.
#[derive(Debug, Clone, PartialEq, Eq, PartialOrd, Hash)]
pub struct ClientParams {
    /// Root URL of the server, which ends in a separator.
    pub root_url: String,
}

} // verus!
