//! What the control plane tells of the indexes that it knows.
use vstd::prelude::*;
use vstd::string::*;

use crate::definition::{
    field_mappings, maps_fields, sends_windows, windowing_config, FieldMapping, ResolvedIndex,
    WindowingConfig,
};
use crate::ingestion::{status_name, status_str, IndexStatus, RoutingStrategy};
use crate::placement::{shard_statuses, shows_units, IndexPlacement, ShardStatus};
use crate::registry::{registry_answer, registry_status, RegistryError};
use crate::status::Status;

verus! {

/// What is registered of an index.
#[derive(Debug)]
pub struct IndexEntry {
    pub definition: ResolvedIndex,
    pub status: IndexStatus,
    /// The strategy that follows from the definition.
    pub routing: RoutingStrategy,
    pub placement: IndexPlacement,
    /// The owner of each bucket, none where the index is not bucketed.
    pub bucket_owners: Vec<u32>,
    pub generation: u64,
    pub definition_version: u64,
    /// The definition as JSON, where it could be written.
    pub definition_json: Option<String>,
}

/// An index as it is told to writers, gateways and booting nodes.
#[derive(Debug)]
pub struct IndexInfo {
    pub name: String,
    pub status: String,
    pub shard_count: u32,
    pub routing: RoutingStrategy,
    pub bucket_owners: Vec<u32>,
    pub fields: Vec<FieldMapping>,
    pub shard_status: Vec<ShardStatus>,
    pub windowing: Option<WindowingConfig>,
    pub generation: u64,
    pub definition_version: u64,
    pub definition_json: String,
}

/// Whether `info` tells of the index `name` what `entry` holds.
pub open spec fn tells(info: IndexInfo, name: Seq<char>, entry: IndexEntry, cap: u64) -> bool {
    &&& info.name@ == name
    &&& info.status@ == status_name(entry.status)
    &&& info.shard_count == entry.placement.shards@.len()
    &&& info.routing == entry.routing
    &&& info.bucket_owners@ == entry.bucket_owners@
    &&& maps_fields(info.fields@, entry.definition, cap)
    &&& shows_units(info.shard_status@, entry.placement)
    &&& sends_windows(info.windowing, entry.definition)
    &&& info.generation == entry.generation
    &&& info.definition_version == entry.definition_version
    &&& info.definition_json@ == (match entry.definition_json {
        Some(json) => json@,
        None => Seq::empty(),
    })
}

/// Tells of the index `name`, given what is registered of it. Fields of up to `cap` bytes are
/// cached. An index that is not registered is not found.
pub fn get_index(name: String, entry: Option<IndexEntry>, cap: u64) -> (r: Result<
    IndexInfo,
    Status,
>)
    requires
        entry matches Some(e) ==> e.placement.shards@.len() <= u32::MAX
            && e.placement.windows@.len() <= u32::MAX,
    ensures
        match entry {
            Some(e) => r matches Ok(info) && tells(info, name@, e, cap),
            None => r matches Err(s) && s@ == registry_answer(RegistryError::NotFound(name)),
        },
{
    match entry {
        None => Err(registry_status(RegistryError::NotFound(name))),
        Some(e) => {
            let fields = field_mappings(&e.definition, cap);
            let shard_status = shard_statuses(&e.placement);
            let windowing = windowing_config(&e.definition);
            let definition_json = match e.definition_json {
                Some(json) => json,
                None => String::new(),
            };
            Ok(
                IndexInfo {
                    name,
                    status: status_str(e.status).to_owned(),
                    shard_count: e.placement.shards.len() as u32,
                    routing: e.routing,
                    bucket_owners: e.bucket_owners,
                    fields,
                    shard_status,
                    windowing,
                    generation: e.generation,
                    definition_version: e.definition_version,
                    definition_json,
                },
            )
        },
    }
}

/// An index in a listing.
#[derive(Debug)]
pub struct IndexSummary {
    pub name: String,
    pub status: &'static str,
}

/// Lists the registered indexes, each with its status, in their order.
pub fn list_indexes(indexes: Vec<(String, IndexStatus)>) -> (out: Vec<IndexSummary>)
    ensures
        out@.len() == indexes@.len(),
        forall|i: int|
            0 <= i < out@.len() ==> (#[trigger] out@[i]).name@ == indexes@[i].0@ && out@[i].status@
                == status_name(indexes@[i].1),
{
    let mut out: Vec<IndexSummary> = Vec::new();
    let mut i: usize = 0;
    while i < indexes.len()
        invariant
            i <= indexes@.len(),
            out@.len() == i,
            forall|k: int|
                0 <= k < i ==> (#[trigger] out@[k]).name@ == indexes@[k].0@ && out@[k].status@
                    == status_name(indexes@[k].1),
        decreases indexes@.len() - i,
    {
        out.push(
            IndexSummary { name: indexes[i].0.clone(), status: status_str(indexes[i].1) },
        );
        i = i + 1;
    }
    out
}

} // verus!
