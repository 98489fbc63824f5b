use candle_memory::error::Error;
use candle_memory::graph::RelationshipGraph;
use candle_memory::history::{ChangeType, MemoryHistory, MemoryVersion};
use candle_memory::memory::{MemoryContent, MemoryNode, MemoryRelationship};
use candle_memory::procedural::{Condition, ProceduralMemory, Step, StepStatus};
use candle_memory::queue::{BatchAccumulator, CognitiveProcessingQueue, CognitiveTask, CognitiveTaskType};
use candle_memory::repository::MemoryRepository;
use candle_memory::types::{MemoryTypeEnum, RelationshipType};
use serde_json::Value;

fn version(id: &str, n: u32, content: &str) -> MemoryVersion {
    MemoryVersion::new(id, "mem", n, ChangeType::Update, Some(content), None)
}

#[test]
fn history_keeps_versions_ordered() {
    let mut h = MemoryHistory::new("mem");
    h.add_version(version("v3", 3, "c")).unwrap();
    h.add_version(version("v1", 1, "a")).unwrap();
    h.add_version(version("v2", 2, "b")).unwrap();
    let numbers: Vec<u32> = h.versions.iter().map(|v| v.version).collect();
    assert_eq!(numbers, vec![1, 2, 3]);
    assert_eq!(h.current_version, 3);
    assert_eq!(h.get_current_version().unwrap().id, "v3");
    assert_eq!(h.get_version_by_id("v2").unwrap().version, 2);
    assert!(h.get_version(9).is_none());
}

#[test]
fn history_refuses_other_memories() {
    let mut h = MemoryHistory::new("mem");
    let v = MemoryVersion::creation("v1", "other", "x");
    match h.add_version(v) {
        Err(Error::ValidationError(m)) => {
            assert_eq!(m, "Version memory ID other does not match history memory ID mem")
        }
        other => panic!("unexpected {:?}", other),
    }
    assert!(h.versions.is_empty());
}

#[test]
fn history_paths_and_diffs() {
    let mut h = MemoryHistory::new("mem");
    h.add_version(version("v1", 1, "a\nb")).unwrap();
    h.add_version(version("v2", 2, "a\nc\nd")).unwrap();
    let path = h.get_version_path(1, 2).unwrap();
    assert_eq!(path.len(), 2);
    match h.get_version_path(2, 1) {
        Err(Error::ValidationError(m)) => assert_eq!(m, "From version 2 is greater than to version 1"),
        other => panic!("unexpected {:?}", other),
    }
    match h.get_version_path(1, 3) {
        Err(Error::NotFound(m)) => assert_eq!(m, "Version 3 not found"),
        other => panic!("unexpected {:?}", other),
    }
    assert_eq!(h.diff_versions(1, 2).unwrap(), "--- Version A\n+++ Version B\n a\n-b\n+c\n+d\n");
    match h.diff_versions(1, 5) {
        Err(Error::NotFound(m)) => assert_eq!(m, "Version 5 not found"),
        other => panic!("unexpected {:?}", other),
    }
}

#[test]
fn history_queries() {
    let mut h = MemoryHistory::new("mem");
    let mut a = MemoryVersion::creation("v1", "mem", "x");
    a.timestamp = 100;
    let mut b = version("v2", 2, "y");
    b.timestamp = 200;
    h.add_version(a).unwrap();
    h.add_version(b).unwrap();
    assert_eq!(h.get_versions_by_change_type(ChangeType::Creation).len(), 1);
    assert_eq!(h.get_versions_by_time_range(150, 200).len(), 1);
    assert_eq!(h.get_versions_by_time_range(100, 200).len(), 2);
    let hist = h.get_version_history();
    assert_eq!(hist, vec![(1, ChangeType::Creation, 100), (2, ChangeType::Update, 200)]);
}

#[test]
fn version_entity_round_trip() {
    let mut v = MemoryVersion::update("v2", "mem", 2, "text", "v1")
        .with_user_id("u")
        .with_related_version_id("v0")
        .with_change_summary("sum")
        .with_metadata("k", Value::from(5u32));
    v.timestamp = 1_700_000_000_000;
    let e = v.to_entity();
    assert_eq!(e.entity_type(), "memory_version");
    assert_eq!(e.get_attribute("metadata_k"), Some(&Value::from(5u32)));
    let back = MemoryVersion::from_entity(&e).unwrap();
    assert_eq!(back.id, "v2");
    assert_eq!(back.memory_id, "mem");
    assert_eq!(back.version, 2);
    assert_eq!(back.change_type, ChangeType::Update);
    assert_eq!(back.timestamp, 1_700_000_000_000);
    assert_eq!(back.user_id.as_deref(), Some("u"));
    assert_eq!(back.content.as_deref(), Some("text"));
    assert_eq!(back.previous_version_id.as_deref(), Some("v1"));
    assert_eq!(back.related_version_ids, vec!["v0".to_string()]);
    assert_eq!(back.change_summary.as_deref(), Some("sum"));
    assert!(back.diff.is_none());
    assert_eq!(back.metadata.get("k"), Some(&Value::from(5u32)));
}

#[test]
fn version_entity_errors() {
    let e = candle_memory::entity::BaseEntity::new("v".to_string(), "memory_version".to_string());
    match MemoryVersion::from_entity(&e) {
        Err(Error::ConversionError(m)) => assert_eq!(m, "Missing memory_id attribute"),
        other => panic!("unexpected {:?}", other),
    }
    let e = e
        .with_attribute("memory_id", Value::String("m".to_string()))
        .with_attribute("version", Value::String("two".to_string()));
    match MemoryVersion::from_entity(&e) {
        Err(Error::ConversionError(m)) => assert_eq!(m, "Invalid version attribute"),
        other => panic!("unexpected {:?}", other),
    }
    let e = e
        .with_attribute("version", Value::from(2u32))
        .with_attribute("change_type", Value::String("update".to_string()))
        .with_attribute("timestamp", Value::String("not a time".to_string()));
    match MemoryVersion::from_entity(&e) {
        Err(Error::ConversionError(m)) => assert!(m.starts_with("Invalid timestamp attribute: ")),
        other => panic!("unexpected {:?}", other),
    }
}

fn step(id: &str, order: u32) -> Step {
    Step::new(id, id, "", order, Value::Null)
}

#[test]
fn procedure_steps_are_ordered_stably() {
    let mut p = ProceduralMemory::new("p", "proc", "desc");
    assert_eq!(p.base.name, "Procedural Memory");
    p.add_step(step("b", 2));
    p.add_step(step("a", 1));
    p.add_step(step("b2", 2));
    let ids: Vec<&str> = p.steps.iter().map(|s| s.id.as_str()).collect();
    assert_eq!(ids, vec!["a", "b", "b2"]);
    assert_eq!(p.get_step("b2").unwrap().order, 2);
    assert_eq!(p.step_position("b2"), Some(2));
    assert!(p.current_step().is_none());
    assert_eq!(p.next_step().unwrap().id, "a");
    p.current_step = Some(1);
    assert_eq!(p.current_step().unwrap().id, "b");
    assert_eq!(p.next_step().unwrap().id, "b2");
    p.current_step = Some(2);
    assert!(p.next_step().is_none());
}

#[test]
fn procedure_conditions_and_step_builders() {
    let mut p = ProceduralMemory::new("p", "proc", "desc");
    p.add_condition(Condition::prerequisite("c1", "ready", Value::Bool(true), true));
    assert_eq!(p.get_condition("c1").unwrap().description, "ready");
    assert_eq!(p.condition_position("c1"), Some(0));
    assert!(p.get_condition("zz").is_none());
    let s = step("x", 1)
        .with_dependency("y")
        .with_status(StepStatus::Failed)
        .with_error("bad");
    assert_eq!(s.dependencies, vec!["y".to_string()]);
    assert_eq!(s.status, StepStatus::Failed);
    assert_eq!(s.error.as_deref(), Some("bad"));
}

#[test]
fn queue_batches_committee_evaluations() {
    let mut q = CognitiveProcessingQueue::new();
    for i in 0..4 {
        q.enqueue_with_batching(CognitiveTask::new(format!("m{}", i), CognitiveTaskType::CommitteeEvaluation, 1))
            .unwrap();
    }
    assert_eq!(q.get_depth(), 0);
    q.enqueue_with_batching(CognitiveTask::new("m4".to_string(), CognitiveTaskType::CommitteeEvaluation, 1))
        .unwrap();
    assert_eq!(q.get_depth(), 1);
    let t = q.try_dequeue().unwrap();
    assert_eq!(t.memory_id, "batch_5");
    assert_eq!(t.priority, 5);
    match t.task_type {
        CognitiveTaskType::BatchProcessing(ids) => assert_eq!(ids, vec!["m0", "m1", "m2", "m3", "m4"]),
        other => panic!("unexpected {:?}", other),
    }
    assert!(q.try_dequeue().is_none());
}

#[test]
fn queue_passes_other_tasks_and_flushes() {
    let mut q = CognitiveProcessingQueue::default();
    q.enqueue_with_batching(CognitiveTask::new("r".to_string(), CognitiveTaskType::QuantumRouting, 3)).unwrap();
    q.enqueue_with_batching(CognitiveTask::new("e".to_string(), CognitiveTaskType::CommitteeEvaluation, 3)).unwrap();
    assert_eq!(q.get_depth(), 1);
    q.flush_batches().unwrap();
    let all = q.batch_dequeue(10);
    assert_eq!(all.len(), 2);
    assert_eq!(all[0].memory_id, "r");
    assert_eq!(all[1].memory_id, "batch_flush_1");
    q.flush_batches().unwrap();
    assert_eq!(q.get_depth(), 0);
}

#[test]
fn accumulator_releases_full_batches() {
    let mut acc = BatchAccumulator::new(2, 60_000);
    assert!(acc.add(CognitiveTask::new("a".to_string(), CognitiveTaskType::CommitteeEvaluation, 0)).is_none());
    let batch = acc.add(CognitiveTask::new("b".to_string(), CognitiveTaskType::CommitteeEvaluation, 0)).unwrap();
    assert_eq!(batch.len(), 2);
    assert!(acc.flush().is_none());
    assert!(acc.batch_ready(0) == false);
}

#[test]
fn graph_relationships_and_paths() {
    let mut g = RelationshipGraph::new();
    g.add_relationship("a", "b", RelationshipType::CausedBy, 10);
    g.add_relationship("b", "c", RelationshipType::SimilarTo, 5);
    assert_eq!(g.get_outgoing("a").len(), 1);
    assert_eq!(g.get_incoming("b").len(), 2);
    assert_eq!(g.get_outgoing("c").len(), 1);
    assert_eq!(g.find_path("a", "c", 5), Some(vec!["a".to_string(), "b".to_string(), "c".to_string()]));
    assert_eq!(g.find_path("a", "a", 0), Some(vec!["a".to_string()]));
    assert_eq!(g.find_path("c", "a", 5), None);
    assert_eq!(g.find_path("a", "c", 1), None);
}

fn node(id: &str, kind: MemoryTypeEnum, user: Option<&str>, tags: &[&str]) -> MemoryNode {
    let mut n = MemoryNode::with_id(id.to_string(), kind, MemoryContent::new(id));
    n.metadata.user_id = user.map(|u| u.to_string());
    n.metadata.tags = tags.iter().map(|t| t.to_string()).collect();
    n
}

#[test]
fn repository_add_get_delete() {
    let mut r = MemoryRepository::new();
    r.add(node("a", MemoryTypeEnum::Semantic, Some("u1"), &["x", "y"]));
    r.add(node("b", MemoryTypeEnum::Episodic, Some("u2"), &["x"]));
    assert_eq!(r.get("a").unwrap().content.text, "a");
    assert!(r.get("zz").is_none());
    let stats = r.get_stats();
    assert_eq!(stats.total_memories, 2);
    assert_eq!(stats.unique_users, 2);
    assert_eq!(stats.unique_tags, 2);
    assert_eq!(stats.memories_by_type, vec![(MemoryTypeEnum::Semantic, 1), (MemoryTypeEnum::Episodic, 1)]);
    let gone = r.delete("a").unwrap();
    assert_eq!(gone.id, "a");
    assert!(r.get("a").is_none());
    assert!(r.delete("a").is_none());
    let stats = r.get_stats();
    assert_eq!(stats.total_memories, 1);
    assert_eq!(stats.memories_by_type, vec![(MemoryTypeEnum::Semantic, 0), (MemoryTypeEnum::Episodic, 1)]);
}

#[test]
fn repository_update_and_create() {
    let mut r = MemoryRepository::default();
    assert!(r.update(node("a", MemoryTypeEnum::Working, None, &[])).is_none());
    r.add(node("a", MemoryTypeEnum::Working, None, &[]));
    let updated = r.update(node("a", MemoryTypeEnum::LongTerm, None, &["t"])).unwrap();
    assert_eq!(updated.memory_type, MemoryTypeEnum::LongTerm);
    assert_eq!(r.get("a").unwrap().memory_type, MemoryTypeEnum::LongTerm);
    let template = node("tmp", MemoryTypeEnum::Semantic, None, &[]);
    let made = r.create("fresh", &template).unwrap();
    assert_eq!(made.id, "fresh");
    assert_eq!(made.content.text, "tmp");
    assert_eq!(r.get("fresh").unwrap().content.text, "tmp");
    assert_eq!(r.get_stats().total_memories, 2);
}

#[test]
fn repository_relationships() {
    let mut r = MemoryRepository::new();
    r.add_relationship(MemoryRelationship::with_id("r1".to_string(), "a".to_string(), "b".to_string(), "k".to_string()));
    r.add_relationship(MemoryRelationship::with_id("r2".to_string(), "a".to_string(), "c".to_string(), "k".to_string()));
    r.add_relationship(MemoryRelationship::with_id("r3".to_string(), "b".to_string(), "c".to_string(), "k".to_string()));
    let ids: Vec<String> = r.get_relationships("a").into_iter().map(|x| x.id).collect();
    assert_eq!(ids, vec!["r1".to_string(), "r2".to_string()]);
    assert!(r.get_relationships("c").is_empty());
    assert_eq!(r.get_stats().total_relationships, 3);
}

#[test]
fn readding_a_memory_counts_it_once() {
    let mut r = MemoryRepository::new();
    r.add(node("a", MemoryTypeEnum::Semantic, Some("u1"), &["t1"]));
    r.add(node("a", MemoryTypeEnum::Episodic, Some("u2"), &["t2"]));
    let stats = r.get_stats();
    assert_eq!(stats.total_memories, 1);
    assert_eq!(stats.memories_by_type, vec![(MemoryTypeEnum::Semantic, 0), (MemoryTypeEnum::Episodic, 1)]);
    let sum: usize = stats.memories_by_type.iter().map(|(_, c)| c).sum();
    assert_eq!(sum, stats.total_memories);
    assert_eq!(r.get("a").unwrap().memory_type, MemoryTypeEnum::Episodic);
}

#[test]
fn paths_found_are_shortest_and_edges_pair() {
    let mut g = RelationshipGraph::new();
    g.add_relationship("a", "b", RelationshipType::CausedBy, 1);
    g.add_relationship("b", "c", RelationshipType::CausedBy, 1);
    g.add_relationship("c", "d", RelationshipType::CausedBy, 1);
    g.add_relationship("a", "d", RelationshipType::CausedBy, 1);
    assert_eq!(g.find_path("a", "d", 10), Some(vec!["a".to_string(), "d".to_string()]));
    g.add_relationship("x", "y", RelationshipType::SimilarTo, 3);
    let out_x: Vec<_> = g.get_outgoing("x").into_iter().filter(|e| e.0 == "y").collect();
    let in_y: Vec<_> = g.get_incoming("y").into_iter().filter(|e| e.0 == "x").collect();
    assert_eq!(out_x.len(), in_y.len());
    assert_eq!(g.get_outgoing("y").len(), 1);
    assert_eq!(g.get_incoming("x").len(), 1);
}

#[test]
fn find_path_cutoff_counts_reached_memories() {
    let mut g = RelationshipGraph::new();
    g.add_relationship("a", "b", RelationshipType::CausedBy, 10);
    assert_eq!(g.find_path("a", "b", 2), Some(vec!["a".to_string(), "b".to_string()]));
    g.add_relationship("b", "c", RelationshipType::CausedBy, 10);
    assert_eq!(g.find_path("a", "c", 2), None);
    assert_eq!(g.find_path("a", "c", 3), Some(vec!["a".to_string(), "b".to_string(), "c".to_string()]));
}

#[test]
fn version_timestamps_beyond_four_digit_years_round_trip() {
    for ms in [253_402_300_800_000i64, -62_167_219_200_001i64, -62_167_219_200_000i64, 253_402_300_799_999i64] {
        let mut v = MemoryVersion::creation("v1", "mem", "x");
        v.timestamp = ms;
        let e = v.to_entity();
        let back = MemoryVersion::from_entity(&e).unwrap();
        assert_eq!(back.timestamp, ms);
    }
    let mut v = MemoryVersion::creation("v1", "mem", "x");
    v.timestamp = 253_402_300_800_000;
    let e = v.to_entity();
    assert_eq!(e.get_attribute("timestamp"), Some(&Value::from("+10000-01-01T00:00:00Z")));
}
