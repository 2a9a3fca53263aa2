use vstd::prelude::*;

pub mod admin;
pub mod auth;
pub mod authn;
pub mod build_laws;
pub mod caller_laws;
pub mod control;
pub mod definition;
pub mod drift;
pub mod drive_laws;
pub mod endpoint;
pub mod engine;
pub mod error;
pub mod fanout;
pub mod fence;
pub mod fusion;
pub mod fusion_laws;
pub mod gateway;
pub mod group_laws;
pub mod growth_laws;
pub mod hydrate;
pub mod index_info;
pub mod ingestion;
pub mod ingestion_laws;
pub mod job_laws;
pub mod jobs;
pub mod jwt;
pub mod keys;
pub mod merge;
pub mod merge_laws;
pub mod metadata;
pub mod node_laws;
pub mod node_rebuild;
pub mod node_reconcile;
pub mod order;
pub mod page_laws;
pub mod place_laws;
pub mod placement;
pub mod query;
pub mod reconcile;
pub mod registry;
pub mod reindex_driver;
pub mod reindex_laws;
pub mod repair_laws;
pub mod report_laws;
pub mod request_laws;
pub mod requests;
pub mod reshard;
pub mod route_laws;
pub mod scroll_laws;
pub mod setup_laws;
pub mod stats;
pub mod status;
pub mod tally;
pub mod text;
pub mod text_laws;
pub mod throttle;
pub mod throttle_laws;
pub mod token_laws;
pub mod tokens;

verus! {

/// The version of this crate.
pub const VERSION: &'static str = "0.1.0";

/// The crate's version string.
pub fn version() -> (v: &'static str)
    ensures
        v@ == VERSION@,
{
    VERSION
}

} // verus!
