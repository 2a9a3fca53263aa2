//! What the registry refuses, and how an RPC answers it.
use vstd::prelude::*;
use vstd::string::*;

use crate::status::{plain, tagged, Code, Status, StatusView};
use crate::text::{append_decimal, decimal};

verus! {

/// The nodes that a deployment without a license may hold primaries on.
pub const FREE_NODE_LIMIT: usize = 3;

/// What the registry refuses.
#[derive(Debug)]
pub enum RegistryError {
    AlreadyExists(String),
    InvalidDefinition(String),
    PlacementConflict(String),
    EntitlementExceeded { nodes: usize, entitled: usize },
    NotFound(String),
    AliasNotFound(String),
    SavedQueryNotFound(String),
    JobNotFound(String),
    AliasNameClash(String),
    NotLeader(String),
    /// No node has reported yet; with the message to tell.
    NoLiveNode(String),
    /// Anything else, with the message to tell.
    Other(String),
}

fn quoted(before: &'static str, name: &String, after: &'static str) -> (m: String)
    ensures
        m@ == before@ + name@ + after@,
{
    let mut m = before.to_owned();
    m.append(name.as_str());
    m.append(after);
    m
}

/// The message of a reached scale limit.
pub open spec fn entitlement_text(nodes: usize, entitled: usize) -> Seq<char> {
    "scale limit reached: "@ + decimal(nodes as nat)
        + " primary-serving nodes in use, entitlement is "@ + decimal(entitled as nat)
        + " (free tier is "@ + decimal(FREE_NODE_LIMIT as nat)
        + "). Read replicas and additional indexes co-located on already-counted nodes are free; an Enterprise license raises the limit — see COMM-LICENSE.md."@
}

/// The status of what the registry refused.
pub open spec fn registry_answer(e: RegistryError) -> StatusView {
    match e {
        RegistryError::AlreadyExists(name) => tagged(
            Code::AlreadyExists,
            "ALREADY_EXISTS"@,
            "index `"@ + name@ + "` already exists"@,
        ),
        RegistryError::InvalidDefinition(detail) => tagged(
            Code::InvalidArgument,
            "INVALID_ARGUMENT"@,
            detail@,
        ),
        RegistryError::PlacementConflict(detail) => tagged(
            Code::FailedPrecondition,
            "PLACEMENT_CONFLICT"@,
            "placement conflict: "@ + detail@,
        ),
        RegistryError::EntitlementExceeded { nodes, entitled } => tagged(
            Code::ResourceExhausted,
            "RESOURCE_EXHAUSTED"@,
            entitlement_text(nodes, entitled),
        ),
        RegistryError::NotFound(name) => tagged(
            Code::NotFound,
            "NOT_FOUND"@,
            "index `"@ + name@ + "` not found"@,
        ),
        RegistryError::AliasNotFound(name) => tagged(
            Code::NotFound,
            "NOT_FOUND"@,
            "alias `"@ + name@ + "` not found"@,
        ),
        RegistryError::SavedQueryNotFound(id) => tagged(
            Code::NotFound,
            "NOT_FOUND"@,
            "saved query `"@ + id@ + "` not found"@,
        ),
        RegistryError::JobNotFound(id) => tagged(
            Code::NotFound,
            "NOT_FOUND"@,
            "job `"@ + id@ + "` not found"@,
        ),
        RegistryError::AliasNameClash(name) => tagged(
            Code::InvalidArgument,
            "INVALID_ARGUMENT"@,
            "alias `"@ + name@ + "` clashes with an existing index name"@,
        ),
        RegistryError::NotLeader(detail) => tagged(
            Code::FailedPrecondition,
            "NOT_LEADER"@,
            "not the registry leader: "@ + detail@,
        ),
        RegistryError::NoLiveNode(text) => tagged(Code::Internal, "INTERNAL"@, text@),
        RegistryError::Other(text) => tagged(Code::Internal, "INTERNAL"@, text@),
    }
}

/// The status of what the registry refused.
pub fn registry_status(e: RegistryError) -> (s: Status)
    ensures
        s@ == registry_answer(e),
{
    match e {
        RegistryError::AlreadyExists(name) => Status::with_reason(
            Code::AlreadyExists,
            "ALREADY_EXISTS",
            quoted("index `", &name, "` already exists"),
        ),
        RegistryError::InvalidDefinition(detail) => Status::with_reason(
            Code::InvalidArgument,
            "INVALID_ARGUMENT",
            detail,
        ),
        RegistryError::PlacementConflict(detail) => {
            let mut m = "placement conflict: ".to_owned();
            m.append(detail.as_str());
            Status::with_reason(Code::FailedPrecondition, "PLACEMENT_CONFLICT", m)
        },
        RegistryError::EntitlementExceeded { nodes, entitled } => {
            let mut m = "scale limit reached: ".to_owned();
            append_decimal(&mut m, nodes as u64);
            m.append(" primary-serving nodes in use, entitlement is ");
            append_decimal(&mut m, entitled as u64);
            m.append(" (free tier is ");
            append_decimal(&mut m, FREE_NODE_LIMIT as u64);
            m.append(
                "). Read replicas and additional indexes co-located on already-counted nodes are free; an Enterprise license raises the limit — see COMM-LICENSE.md.",
            );
            Status::with_reason(Code::ResourceExhausted, "RESOURCE_EXHAUSTED", m)
        },
        RegistryError::NotFound(name) => Status::with_reason(
            Code::NotFound,
            "NOT_FOUND",
            quoted("index `", &name, "` not found"),
        ),
        RegistryError::AliasNotFound(name) => Status::with_reason(
            Code::NotFound,
            "NOT_FOUND",
            quoted("alias `", &name, "` not found"),
        ),
        RegistryError::SavedQueryNotFound(id) => Status::with_reason(
            Code::NotFound,
            "NOT_FOUND",
            quoted("saved query `", &id, "` not found"),
        ),
        RegistryError::JobNotFound(id) => Status::with_reason(
            Code::NotFound,
            "NOT_FOUND",
            quoted("job `", &id, "` not found"),
        ),
        RegistryError::AliasNameClash(name) => Status::with_reason(
            Code::InvalidArgument,
            "INVALID_ARGUMENT",
            quoted("alias `", &name, "` clashes with an existing index name"),
        ),
        RegistryError::NotLeader(detail) => {
            let mut m = "not the registry leader: ".to_owned();
            m.append(detail.as_str());
            Status::with_reason(Code::FailedPrecondition, "NOT_LEADER", m)
        },
        RegistryError::NoLiveNode(text) => Status::internal(text),
        RegistryError::Other(text) => Status::internal(text),
    }
}

/// The status of a placement that the registry refused: that no node has reported yet passes, so
/// the caller may try again.
pub fn placement_status(e: RegistryError) -> (s: Status)
    ensures
        s@ == match e {
            RegistryError::NoLiveNode(text) => plain(Code::Unavailable, text@),
            _ => registry_answer(e),
        },
{
    match e {
        RegistryError::NoLiveNode(text) => Status::new(Code::Unavailable, text),
        other => registry_status(other),
    }
}

/// What creating an index on its node's announcement comes to: that another node announced it
/// first is no failure.
pub fn created_or_present(created: Result<(), RegistryError>) -> (r: Result<(), Status>)
    ensures
        match created {
            Ok(_) => r is Ok,
            Err(RegistryError::AlreadyExists(_)) => r is Ok,
            Err(e) => r matches Err(s) && s@ == registry_answer(e),
        },
{
    match created {
        Ok(_) => Ok(()),
        Err(RegistryError::AlreadyExists(_)) => Ok(()),
        Err(e) => Err(registry_status(e)),
    }
}

} // verus!
