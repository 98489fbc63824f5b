use candle_memory::error::Error;
use candle_memory::ingest::{add_memory_step, ingest_tasks, AddMemoryAction};
use candle_memory::memory::{MemoryContent, MemoryNode};
use candle_memory::queue::{BatchAccumulator, CognitiveTask, CognitiveTaskType};
use candle_memory::repository::{order_filtered, sort_key_of, MemoryRepository, SortKey};
use candle_memory::retrieval::{search_admits, DomainMemoryType, TimeRange};
use candle_memory::types::MemoryTypeEnum;
use candle_memory::worker::{entanglement_step, BondOutcome, DiscoveryAction, DiscoveryEvent, DiscoveryState};
use std::sync::Arc;
use DiscoveryAction as A;
use DiscoveryEvent as E;
use DiscoveryState as S;

#[test]
fn adding_known_content_refreshes_instead_of_ingesting() {
    assert!(matches!(add_memory_step(false, None, None), Ok(AddMemoryAction::Ingest)));
    assert!(matches!(add_memory_step(true, None, None), Ok(AddMemoryAction::RefreshExisting)));
    assert!(matches!(add_memory_step(true, Some(false), None), Ok(AddMemoryAction::Ingest)));
    assert!(matches!(add_memory_step(true, Some(true), None), Ok(AddMemoryAction::Refetch)));
    assert!(matches!(add_memory_step(true, Some(true), Some(true)), Ok(AddMemoryAction::ReturnRefetched)));
    match add_memory_step(true, Some(true), Some(false)) {
        Err(Error::Internal(m)) => assert_eq!(m, "Failed to re-fetch refreshed document"),
        other => panic!("unexpected {:?}", other),
    }
}

#[test]
fn a_new_memory_queues_three_tasks() {
    let tasks = ingest_tasks("m1");
    assert_eq!(tasks.len(), 3);
    assert_eq!(tasks[0].0.task_type, CognitiveTaskType::CommitteeEvaluation);
    assert_eq!((tasks[0].0.priority, tasks[0].1), (5, true));
    assert_eq!(tasks[1].0.task_type, CognitiveTaskType::QuantumRouting);
    assert_eq!((tasks[1].0.priority, tasks[1].1), (3, false));
    assert_eq!(tasks[2].0.task_type, CognitiveTaskType::EntanglementDiscovery);
    assert_eq!((tasks[2].0.priority, tasks[2].1), (3, false));
    assert!(tasks.iter().all(|(t, _)| t.memory_id == "m1"));
}

fn ids(batch: &[CognitiveTask]) -> Vec<String> {
    batch.iter().map(|t| t.memory_id.clone()).collect()
}

#[test]
fn accumulator_holds_tasks_until_the_batch_is_full() {
    let mut acc = BatchAccumulator::new(2, 3_600_000);
    let t = |i: u32| CognitiveTask::new(format!("m{i}"), CognitiveTaskType::CommitteeEvaluation, 5);
    assert!(acc.add(t(1)).is_none());
    assert_eq!(ids(&acc.add(t(2)).unwrap()), vec!["m1", "m2"]);
    assert!(acc.add(t(3)).is_none());
    assert_eq!(ids(&acc.flush().unwrap()), vec!["m3"]);
    assert!(acc.flush().is_none());
}

#[test]
fn accumulator_releases_when_the_wait_is_over() {
    let mut acc = BatchAccumulator::new(10, 2000);
    let t = |i: u32| CognitiveTask::new(format!("m{i}"), CognitiveTaskType::CommitteeEvaluation, 5);
    assert!(acc.add_waited(t(1), 1999).is_none());
    assert_eq!(ids(&acc.add_waited(t(2), 2000).unwrap()), vec!["m1", "m2"]);
    assert!(acc.add_waited(t(3), 0).is_none());
}

#[test]
fn search_filter_combines_kinds_and_window() {
    let kinds = vec![MemoryTypeEnum::Semantic];
    let w = TimeRange { start: Some(1_500), end: Some(10_000) };
    assert!(search_admits(Some(&kinds), Some(w), DomainMemoryType::Fact, 1_000));
    assert!(!search_admits(Some(&kinds), Some(w), DomainMemoryType::Episode, 5_000));
    assert!(!search_admits(Some(&kinds), Some(w), DomainMemoryType::Semantic, 999));
    assert!(!search_admits(Some(&kinds), Some(w), DomainMemoryType::Semantic, 10_000));
    assert!(search_admits(None, None, DomainMemoryType::Emotional, -5));
    assert!(search_admits(None, Some(w), DomainMemoryType::Emotional, 9_999));
}

fn timed(id: &str, user: Option<&str>, agent: Option<&str>, created: i64, updated: i64) -> MemoryNode {
    let mut n = MemoryNode::with_id(id.to_string(), MemoryTypeEnum::Semantic, MemoryContent::new(id));
    n.metadata.user_id = user.map(|u| u.to_string());
    n.metadata.agent_id = agent.map(|a| a.to_string());
    n.created_at = created;
    n.updated_at = updated;
    n
}

fn names(v: &[Arc<MemoryNode>]) -> Vec<String> {
    v.iter().map(|m| m.id.clone()).collect()
}

#[test]
fn filtering_draws_by_user_then_agent_and_orders() {
    let mut r = MemoryRepository::new();
    r.add(timed("a", Some("u"), Some("g"), 30, 1));
    r.add(timed("b", Some("u"), None, 10, 3));
    r.add(timed("c", None, Some("g"), 20, 2));
    r.add(timed("d", Some("w"), None, 10, 4));
    assert_eq!(names(&r.filter_candidates(Some("u"), Some("g"))), vec!["a", "b"]);
    assert_eq!(names(&r.filter_candidates(None, Some("g"))), vec!["a", "c"]);
    assert_eq!(names(&r.filter_candidates(Some("nobody"), None)), Vec::<String>::new());
    let all = r.filter_candidates(None, None);
    assert_eq!(names(&all), vec!["a", "b", "c", "d"]);
    assert_eq!(names(&order_filtered(all.clone(), SortKey::CreatedAt, false, None)), vec!["b", "d", "c", "a"]);
    assert_eq!(names(&order_filtered(all.clone(), SortKey::CreatedAt, true, Some(2))), vec!["a", "c"]);
    assert_eq!(names(&order_filtered(all.clone(), SortKey::UpdatedAt, false, Some(10))), vec!["a", "c", "b", "d"]);
    assert_eq!(names(&order_filtered(all.clone(), SortKey::Unordered, true, None)), vec!["d", "c", "b", "a"]);
    assert_eq!(names(&order_filtered(all, SortKey::Importance, false, Some(0))), Vec::<String>::new());
    assert_eq!(sort_key_of("created_at"), SortKey::CreatedAt);
    assert_eq!(sort_key_of("updated_at"), SortKey::UpdatedAt);
    assert_eq!(sort_key_of("importance"), SortKey::Importance);
    assert_eq!(sort_key_of("size"), SortKey::Unordered);
}

#[test]
fn entanglement_run_stops_early_and_persists_after_bonds() {
    assert_eq!(entanglement_step(S::Fetching, E::Fetched(false)), (S::Done, A::End));
    assert_eq!(entanglement_step(S::Fetching, E::Fetched(true)), (S::Preparing, A::Prepare));
    assert_eq!(entanglement_step(S::Preparing, E::Prepared(false, true)), (S::Done, A::End));
    assert_eq!(entanglement_step(S::Preparing, E::Prepared(true, false)), (S::Done, A::End));
    let (mut s, a) = entanglement_step(S::Preparing, E::Prepared(true, true));
    assert_eq!((s, a), (S::Searching(0), A::Search));
    let events = [
        (E::Skipped, A::Next),
        (E::Bonded(BondOutcome::Refused), A::Next),
        (E::Bonded(BondOutcome::EdgeFailed), A::Next),
        (E::Bonded(BondOutcome::EdgeStored), A::PersistSignature),
    ];
    for (e, want) in events {
        let (next, a) = entanglement_step(s, e);
        assert_eq!(a, want);
        s = next;
    }
    assert_eq!(s, S::Searching(1));
    assert_eq!(entanglement_step(s, E::SearchEnded), (S::Done, A::PersistAndEnd));
    assert_eq!(entanglement_step(S::Searching(0), E::SearchEnded), (S::Done, A::End));
}
