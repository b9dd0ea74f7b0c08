//! A local DNS filter: a DNS wire codec, allow/deny check-lists with
//! wildcard patterns, and the per-query decisions of a filtering resolver.
use vstd::prelude::*;
use vstd::string::*;

pub mod allowlist;
pub mod composite;
pub mod dns;
pub mod error;
pub mod event;
pub mod ipctl;
pub mod resolved_data;
pub mod resolved_status;
pub mod server;
pub mod text;

pub use allowlist::{AllowList, CheckList};
pub use composite::{CheckStatus, CompositeCheckList};
pub use error::{Error, Result};
pub use resolved_data::ResolvedData;
pub use resolved_status::ResolvedStatus;

verus! {

/// The version of this library.
pub const VERSION: &'static str = "0.1.0";

/// The version of this library, as a text.
pub fn get_version() -> (r: String)
    ensures
        r@ == VERSION@,
{
    String::from_str(VERSION)
}

} // verus!
