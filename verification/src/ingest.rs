//! Adding a memory with deduplication by content: the decisions between
//! the store's calls, and the cognitive tasks queued for a new memory.
use vstd::prelude::*;
use crate::error::Error;
use crate::queue::{CognitiveTask, CognitiveTaskType};

verus! {

/// What adding a memory does next, given what the store has answered so
/// far.
#[derive(Debug, Clone, Copy, PartialEq, Eq, Structural)]
pub enum AddMemoryAction {
    /// A memory with the same content hash is stored: refresh its age
    RefreshExisting,
    /// Its age was refreshed: fetch it again by content hash
    Refetch,
    /// Return the memory fetched again; nothing new is stored
    ReturnRefetched,
    /// Build the new memory, store it and queue its cognitive tasks
    Ingest,
}

/// The message of the error given when a refreshed memory cannot be
/// fetched again.
pub open spec fn refetch_failed_message() -> Seq<char> {
    "Failed to re-fetch refreshed document"@
}

/// The next step of adding a memory. `found_existing` tells whether a
/// memory with the content's hash is stored; `refreshed` is the answer of
/// the age refresh, once made; `refetched_found` whether fetching it again
/// found it, once done. A failed refresh falls back to ingesting; a
/// refreshed memory that cannot be fetched again is an internal error.
pub fn add_memory_step(found_existing: bool, refreshed: Option<bool>, refetched_found: Option<bool>) -> (r: Result<
    AddMemoryAction,
    Error,
>)
    ensures
        !found_existing ==> r == Ok::<AddMemoryAction, Error>(AddMemoryAction::Ingest),
        found_existing && refreshed is None ==> r == Ok::<AddMemoryAction, Error>(AddMemoryAction::RefreshExisting),
        found_existing && refreshed == Some(false) ==> r == Ok::<AddMemoryAction, Error>(AddMemoryAction::Ingest),
        found_existing && refreshed == Some(true) && refetched_found is None ==> r == Ok::<AddMemoryAction, Error>(
            AddMemoryAction::Refetch,
        ),
        found_existing && refreshed == Some(true) && refetched_found == Some(true) ==> r == Ok::<
            AddMemoryAction,
            Error,
        >(AddMemoryAction::ReturnRefetched),
        found_existing && refreshed == Some(true) && refetched_found == Some(false) ==> (r matches Err(
            Error::Internal(m),
        ) && m@ == refetch_failed_message()),
{
    if !found_existing {
        return Ok(AddMemoryAction::Ingest);
    }
    match refreshed {
        None => Ok(AddMemoryAction::RefreshExisting),
        Some(false) => Ok(AddMemoryAction::Ingest),
        Some(true) => match refetched_found {
            None => Ok(AddMemoryAction::Refetch),
            Some(true) => Ok(AddMemoryAction::ReturnRefetched),
            Some(false) => Err(Error::Internal(String::from_str("Failed to re-fetch refreshed document"))),
        },
    }
}

/// The cognitive tasks queued for a newly stored memory `id`, in order,
/// each with whether it goes through batching: a committee evaluation
/// (priority 5, batched), then quantum routing and entanglement discovery
/// (priority 3, queued directly).
pub fn ingest_tasks(id: &str) -> (r: Vec<(CognitiveTask, bool)>)
    ensures
        r@.len() == 3,
        (r@[0].0.task_type, r@[0].0.priority, r@[0].1) == (CognitiveTaskType::CommitteeEvaluation, 5u8, true),
        (r@[1].0.task_type, r@[1].0.priority, r@[1].1) == (CognitiveTaskType::QuantumRouting, 3u8, false),
        (r@[2].0.task_type, r@[2].0.priority, r@[2].1) == (CognitiveTaskType::EntanglementDiscovery, 3u8, false),
        forall|i: int| 0 <= i < 3 ==> (#[trigger] r@[i]).0.memory_id@ == id@,
{
    let mut r: Vec<(CognitiveTask, bool)> = Vec::new();
    r.push((CognitiveTask::new(String::from_str(id), CognitiveTaskType::CommitteeEvaluation, 5), true));
    r.push((CognitiveTask::new(String::from_str(id), CognitiveTaskType::QuantumRouting, 3), false));
    r.push((CognitiveTask::new(String::from_str(id), CognitiveTaskType::EntanglementDiscovery, 3), false));
    r
}

} // verus!
