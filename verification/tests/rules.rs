use candle_memory::clock::{is_uuid, new_uuid, now_millis, parse_rfc3339_ms, rfc3339_text};
use candle_memory::episodic::{
    content_hash, event_source, EpisodicContext, EpisodicEvent, EpisodicMemory, EpisodicMemoryChunk, EventSource,
};
use candle_memory::error::Error;
use candle_memory::memory::{BaseMemory, MemoryContent, MemoryType};
use candle_memory::query::{
    content_search_query, edge_select_query, edge_update_batch, expansion_query, hybrid_search_query, join,
    memory_record_id, metadata_filter_query, metadata_param_name, pattern_search_query, traversal_query,
    vector_search_query, wildcard_pattern,
};
use candle_memory::retrieval::{
    default_recall_kinds, kind_allowed, pending_action, poll_step, search_window_admits, CandidateGathering,
    DomainMemoryType, LazyEvalStrategy, PendingAction, PollStep, TimeRange,
};
use candle_memory::types::MemoryTypeEnum;
use candle_memory::worker::{
    bond_kind_by_time, candidate_action, job_for, next_cursor, old_enough, record_batch_success, record_evaluation_failure,
    temporal_distance_ms, timed_out_message, AttemptOutcome, DecayWorkerConfig, EntanglementType, RetryAction,
    RetryPolicy, WorkerJob, CandidateAction, finish_decay_batch, after_bond, persist_after_search, BondOutcome,
    DecayOutcome,
};
use candle_memory::queue::CognitiveTaskType;
use serde_json::Value;

fn event_at(id: &str, t: i64) -> EpisodicEvent {
    let mut e = EpisodicEvent::new(id, MemoryContent::new(id));
    e.timestamp = t;
    e
}

#[test]
fn content_hash_is_fnv1a() {
    assert_eq!(content_hash(""), 14695981039346656037);
    assert_eq!(content_hash("abc"), 16654208175385433931);
    assert_eq!(EpisodicEvent::new("e", MemoryContent::new("hello")).content_hash, 11831194018420276491);
}

#[test]
fn episodic_events_by_time() {
    let mut m = EpisodicMemory::new("ep", "diary", "days");
    assert_eq!(m.memory_type(), MemoryTypeEnum::Episodic);
    assert_eq!(m.base.metadata.category, "episodic");
    for (id, t) in [("e3", 30), ("e1", 10), ("e2", 20), ("e4", 40)] {
        m.add_event(event_at(id, t));
    }
    let ids = |v: Vec<EpisodicEvent>| v.into_iter().map(|e| e.id).collect::<Vec<_>>();
    assert_eq!(ids(m.get_events_in_range(15, 30)), vec!["e2", "e3"]);
    assert_eq!(ids(m.get_events_in_range(50, 60)), Vec::<String>::new());
    assert_eq!(ids(m.get_last_n_events(2, 35)), vec!["e3", "e2"]);
    assert_eq!(ids(m.get_last_n_events(10, 15)), vec!["e1"]);
    m.add_event(event_at("e2b", 20));
    assert_eq!(ids(m.get_events_in_range(20, 20)), vec!["e2b"]);
    assert_eq!(m.entries().len(), 4);
}

#[test]
fn episodic_validation_and_entities() {
    let m = EpisodicMemory::new("ep", "diary", "days");
    assert!(m.validate().is_ok());
    let e = m.to_entity();
    assert_eq!(e.entity_type(), "episodic_memory");
    let back = EpisodicMemory::from_entity(e).unwrap();
    assert_eq!(back.base.name, "diary");
    let unnamed = EpisodicMemory::from_entity(candle_memory::entity::BaseEntity::new("x".to_string(), "t".to_string()))
        .unwrap();
    assert_eq!(unnamed.base.name, "Unnamed");
    assert_eq!(unnamed.base.description, "");
    assert_eq!(m.id(), "ep");
    assert_eq!(m.name(), "diary");
    assert_eq!(m.description(), "days");
    assert_eq!(m.updated_at(), m.base.updated_at);
    assert_eq!(m.metadata().category, "episodic");
    assert_eq!(m.content().text, "");
    let bad = EpisodicMemory::new("", "n", "d");
    match bad.validate() {
        Err(Error::InvalidInput(m)) => assert_eq!(m, "ID cannot be empty"),
        other => panic!("unexpected {:?}", other),
    }
}

#[test]
fn episodic_chunks() {
    let ok = EpisodicMemoryChunk::new(Ok(EpisodicMemory::new("a", "b", "c")));
    assert!(ok.success);
    assert_eq!(ok.error(), None);
    let failed = EpisodicMemoryChunk::new(Err(Error::InvalidInput("x".to_string())));
    assert!(!failed.success);
    assert!(failed.error().is_some());
    assert_eq!(EpisodicMemoryChunk::default().error(), Some("Default EpisodicMemoryChunk"));
    assert_eq!(EpisodicMemoryChunk::bad_chunk("e".to_string()).error(), Some("e"));
}

#[test]
fn episodic_contexts_and_sources() {
    let ctx = EpisodicContext::new("c", "location", "home").with_metadata("floor", Value::from(2u32));
    assert_eq!(ctx.metadata.get("floor"), Some(&Value::from(2u32)));
    let ev = event_at("e", 1).with_context(ctx);
    assert_eq!(ev.context.len(), 1);
    let mut text = BaseMemory::new("b", "n", "d", MemoryTypeEnum::Episodic, MemoryContent::new("{}"));
    assert_eq!(event_source(&text).unwrap(), EventSource::Text);
    text.content = MemoryContent::new("");
    match event_source(&text) {
        Err(Error::InvalidInput(m)) => assert_eq!(m, "No episodic events data found in memory content"),
        other => panic!("unexpected {:?}", other),
    }
    text.content.custom.insert("events".to_string(), Value::Null);
    assert_eq!(event_source(&text).unwrap(), EventSource::Custom);
}

#[test]
fn lazy_evaluation_rules() {
    assert_eq!(LazyEvalStrategy::default(), LazyEvalStrategy::ReturnPartial);
    assert_eq!(pending_action(LazyEvalStrategy::WaitForCompletion, true), PendingAction::Poll);
    assert_eq!(pending_action(LazyEvalStrategy::TriggerAndWait, true), PendingAction::Evaluate);
    assert_eq!(pending_action(LazyEvalStrategy::ReturnPartial, true), PendingAction::Keep);
    assert_eq!(pending_action(LazyEvalStrategy::TriggerAndWait, false), PendingAction::Keep);
    assert_eq!(poll_step(true, 9999), PollStep::Settled);
    assert_eq!(poll_step(false, 4999), PollStep::Sleep(100));
    assert_eq!(poll_step(false, 5000), PollStep::GiveUp);
}

#[test]
fn time_windows() {
    let w = TimeRange { start: Some(100), end: Some(200) };
    assert!(w.contains(100) && w.contains(199));
    assert!(!w.contains(200) && !w.contains(99));
    assert!(TimeRange { start: None, end: None }.contains(i64::MIN));
    let d = TimeRange::last_thirty_days(3_000_000_000);
    assert_eq!(d, TimeRange { start: Some(408_000_000), end: Some(3_000_000_000) });
    assert_eq!(TimeRange::or_last_thirty_days(Some(w), 5), w);
    let sw = TimeRange { start: Some(1_500), end: Some(3_999) };
    assert!(search_window_admits(sw, 1_000));
    assert!(!search_window_admits(sw, 999));
    assert!(!search_window_admits(sw, 3_000));
    assert!(search_window_admits(sw, 2_999));
}

#[test]
fn kinds_and_domain_mapping() {
    assert_eq!(
        default_recall_kinds(),
        vec![MemoryTypeEnum::Episodic, MemoryTypeEnum::Semantic, MemoryTypeEnum::Procedural]
    );
    assert!(kind_allowed(&default_recall_kinds(), MemoryTypeEnum::Semantic));
    assert!(!kind_allowed(&default_recall_kinds(), MemoryTypeEnum::Working));
    assert_eq!(DomainMemoryType::Fact.to_store_kind(), MemoryTypeEnum::Semantic);
    assert_eq!(DomainMemoryType::Implicit.to_store_kind(), MemoryTypeEnum::Procedural);
    assert_eq!(DomainMemoryType::Emotional.to_store_kind(), MemoryTypeEnum::Episodic);
    for t in [MemoryTypeEnum::Semantic, MemoryTypeEnum::Working, MemoryTypeEnum::LongTerm] {
        assert_eq!(DomainMemoryType::from_store_kind(t).to_store_kind(), t);
    }
}

#[test]
fn candidate_gathering() {
    let w = TimeRange { start: Some(0), end: Some(100) };
    let mut g = CandidateGathering::new(2, w);
    assert!(g.offer(5));
    assert!(!g.offer(500));
    assert!(!g.phase_full());
    for t in [1, 2, 3, 4, 5] {
        g.offer(t);
    }
    assert!(g.phase_full());
    assert_eq!(g.total(), 6);
    assert!(!g.finish_content());
    let mut g = CandidateGathering::new(2, w);
    assert!(g.offer(1));
    assert!(g.finish_content());
    g.start_kind();
    g.offer(2);
    g.offer(3);
    g.offer(4);
    g.offer(5);
    assert!(!g.phase_full());
    g.offer(6);
    assert!(g.phase_full());
    assert!(!g.finish_kind());
    assert_eq!(g.total(), 6);
}

#[test]
fn retry_policy_backs_off_and_gives_up() {
    let mut p = RetryPolicy::new(2);
    assert_eq!(p.after(AttemptOutcome::Failed), RetryAction::RetryAfter(100));
    assert_eq!(p.after(AttemptOutcome::TimedOut), RetryAction::RetryAfter(200));
    assert_eq!(p.after(AttemptOutcome::Failed), RetryAction::GiveUpFailed(3));
    let mut q = RetryPolicy::new(0);
    assert_eq!(q.after(AttemptOutcome::TimedOut), RetryAction::GiveUpTimedOut(1));
    let mut ok = RetryPolicy::new(2);
    assert_eq!(ok.after(AttemptOutcome::Succeeded), RetryAction::Done);
    assert_eq!(timed_out_message(3), "Evaluation timed out after 3 attempts");
}

#[test]
fn decay_rules() {
    let c = DecayWorkerConfig::default();
    assert_eq!((c.cycle_interval_secs, c.batch_size, c.min_age_hours), (3600, 500, 1));
    assert_eq!(next_cursor(1000, 0, 500), 0);
    assert_eq!(next_cursor(1000, 3, 500), 1500);
    assert_eq!(next_cursor(usize::MAX, 1, 2), 1);
    assert!(old_enough(3600, 1));
    assert!(!old_enough(3599, 1));
    assert!(old_enough(0, 0));
    assert!(!old_enough(-5, 0));
}

#[test]
fn entanglement_time_rules() {
    assert_eq!(temporal_distance_ms(1_000, 1_500), Some(500));
    assert_eq!(temporal_distance_ms(1_500, 1_000), Some(-500));
    assert_eq!(temporal_distance_ms(0, i64::MIN), None);
    assert_eq!(temporal_distance_ms(i64::MIN, i64::MAX), None);
    assert_eq!(bond_kind_by_time(Some(-999)), Some(EntanglementType::Causal));
    assert_eq!(bond_kind_by_time(Some(1000)), Some(EntanglementType::Temporal));
    assert_eq!(bond_kind_by_time(Some(-59_999)), Some(EntanglementType::Temporal));
    assert_eq!(bond_kind_by_time(Some(60_000)), None);
    assert_eq!(bond_kind_by_time(None), None);
}

#[test]
fn worker_jobs_and_metadata_marks() {
    assert!(matches!(job_for(CognitiveTaskType::CommitteeEvaluation), WorkerJob::Evaluate));
    assert!(matches!(job_for(CognitiveTaskType::QuantumRouting), WorkerJob::Defer));
    match job_for(CognitiveTaskType::BatchProcessing(vec!["a".to_string()])) {
        WorkerJob::EvaluateBatch(ids) => assert_eq!(ids, vec!["a".to_string()]),
        other => panic!("unexpected {:?}", other),
    }
    let mut m = candle_memory::memory::MemoryMetadata::new();
    record_batch_success(&mut m, "2024-01-01T00:00:00Z");
    assert_eq!(m.custom.get("evaluation_method"), Some(&Value::String("batch_committee".to_string())));
    assert_eq!(m.custom.get("evaluation_status"), Some(&Value::String("Success".to_string())));
    record_evaluation_failure(&mut m, "boom");
    assert_eq!(m.custom.get("evaluation_status"), Some(&Value::String("Failed".to_string())));
    assert_eq!(m.custom.get("error_message"), Some(&Value::String("boom".to_string())));
}

#[test]
fn query_texts() {
    assert_eq!(memory_record_id("42"), "memory:42");
    assert_eq!(wildcard_pattern("ab"), "%ab%");
    assert_eq!(join(&vec!["a".to_string(), "b".to_string(), "c".to_string()], ", "), "a, b, c");
    assert_eq!(join(&vec![], ", "), "");
    assert_eq!(
        traversal_query(2),
        "SELECT DISTINCT * FROM (SELECT ->entangled.out.* FROM $memory_id UNION SELECT ->entangled->memory->entangled.out.* FROM $memory_id) "
    );
    assert_eq!(traversal_query(0), "SELECT DISTINCT * FROM (SELECT ->entangled.out.* FROM $memory_id) ");
    assert_eq!(metadata_filter_query(&vec![]), "SELECT * FROM memory");
    assert_eq!(
        metadata_filter_query(&vec!["a".to_string(), "b".to_string()]),
        "SELECT * FROM memory WHERE metadata.custom.a = $param_0 AND metadata.custom.b = $param_1"
    );
    assert_eq!(metadata_param_name(3), "param_3");
    assert_eq!(
        edge_select_query("entangled"),
        "SELECT id, in, out, strength, created_at FROM entangled WHERE in = $memory_id OR out = $memory_id"
    );
    assert_eq!(
        edge_update_batch(&vec!["e:1".to_string(), "e:2".to_string()]),
        "UPDATE e:1 SET strength = $strength_0;\nUPDATE e:2 SET strength = $strength_1;"
    );
    assert_eq!(expansion_query(&vec![]), None);
    assert_eq!(
        expansion_query(&vec!["a".to_string(), "b".to_string()]).unwrap(),
        "\n                SELECT DISTINCT ->entangled[WHERE strength >= $min_strength].out.*\n                FROM memory:a, memory:b\n            "
    );
    assert!(vector_search_query("[1]", 7).ends_with("LIMIT 7;"));
    assert!(content_search_query(9).ends_with("LIMIT 9"));
    assert!(pattern_search_query(4).contains("LIKE $pattern"));
    let plain = hybrid_search_query("[0]", 3, 10, 0);
    assert!(plain.contains("LIMIT 10\n") && !plain.contains("$seeds"));
    let hybrid = hybrid_search_query("[0]", 3, 10, 9);
    assert!(hybrid.contains("LIMIT 3\n"));
    assert!(hybrid.contains("(depths 1..5)"));
    assert!(hybrid.contains(
        "SELECT DISTINCT out AS id FROM (SELECT VALUE id FROM $seeds)->entangled->memory->entangled WHERE strength >= 0.7"
    ));
}

#[test]
fn clock_wrappers() {
    assert_eq!(rfc3339_text(0), "1970-01-01T00:00:00Z");
    assert_eq!(rfc3339_text(1_500), "1970-01-01T00:00:01.500Z");
    assert_eq!(parse_rfc3339_ms("1970-01-01T00:00:01.500Z"), Some(1_500));
    assert_eq!(parse_rfc3339_ms("nope"), None);
    assert!(now_millis() > 1_600_000_000_000);
}

#[test]
fn episodic_metadata_and_error_text() {
    let m = EpisodicMemory::new("ep", "diary", "days");
    let mut expected = serde_json::Map::new();
    expected.insert("version".to_string(), Value::String("1.0".to_string()));
    assert_eq!(m.base.metadata.custom, Value::Object(expected));
    let failed = EpisodicMemoryChunk::new(Err(Error::InvalidInput("bad id".to_string())));
    assert_eq!(failed.error(), Some("InvalidInput(\"bad id\")"));
    let e = Error::ConversionError("quote \" and \\ slash".to_string());
    let expected = format!("{:?}", e);
    let quoted = EpisodicMemoryChunk::new(Err(e));
    assert_eq!(quoted.error(), Some(expected.as_str()));
}

#[test]
fn episodic_context_as_json() {
    let c = EpisodicContext::new("ctx", "location", "kitchen").with_metadata("floor", Value::from(1u32));
    let v = c.to_value().unwrap();
    assert_eq!(v["id"], Value::String("ctx".to_string()));
    assert_eq!(v["context_type"], Value::String("location".to_string()));
    assert_eq!(v["value"], Value::String("kitchen".to_string()));
    assert_eq!(v["metadata"]["floor"], Value::from(1u32));
    assert_eq!(v.as_object().map(|o| o.len()), Some(4));
}

#[test]
fn stored_base_of_new_episodic_memory() {
    let m = EpisodicMemory::new("ep", "diary", "days");
    let b = m.stored_base("{\"text\":\"\"}");
    assert_eq!(b.id, "ep");
    assert_eq!(b.name, "diary");
    assert_eq!(b.description, "days");
    assert_eq!(b.updated_at, m.base.updated_at);
    assert_eq!(b.metadata.created_at, m.base.metadata.created_at);
    assert_eq!(b.metadata.category, "episodic");
    assert_eq!(b.content.text, "{\"text\":\"\"}");
}

#[test]
fn entanglement_candidates() {
    let a = new_uuid();
    let b = new_uuid();
    assert!(is_uuid(&a) && is_uuid(&b));
    assert!(!is_uuid("not-a-uuid"));
    assert_eq!(candidate_action(&a, &a, true, true, Some(0)), CandidateAction::Skip);
    assert_eq!(candidate_action(&a, &b, false, true, Some(0)), CandidateAction::Skip);
    assert_eq!(candidate_action(&a, &b, true, false, Some(0)), CandidateAction::Skip);
    assert_eq!(candidate_action(&a, "m-2", true, true, Some(0)), CandidateAction::Skip);
    assert_eq!(
        candidate_action(&a, &b, true, true, Some(-500)),
        CandidateAction::Bond { by_time: Some(EntanglementType::Causal), causal: true }
    );
    assert_eq!(
        candidate_action(&a, &b, true, true, Some(30_000)),
        CandidateAction::Bond { by_time: Some(EntanglementType::Temporal), causal: true }
    );
    assert_eq!(
        candidate_action("m-1", &b, true, true, Some(3_600_000)),
        CandidateAction::Bond { by_time: None, causal: false }
    );
    assert_eq!(candidate_action(&a, &b, true, true, None), CandidateAction::Bond { by_time: None, causal: false });
}

#[test]
fn decay_batch_counts_decayed_memories_and_moves_the_cursor() {
    let outcomes = vec![
        DecayOutcome::Decayed,
        DecayOutcome::TooFresh,
        DecayOutcome::Failed,
        DecayOutcome::Unreadable,
        DecayOutcome::Decayed,
    ];
    assert_eq!(finish_decay_batch(1000, 500, &outcomes), (2, 1500));
    assert_eq!(finish_decay_batch(1000, 500, &Vec::new()), (0, 0));
    assert_eq!(finish_decay_batch(0, 500, &vec![DecayOutcome::TooFresh]), (0, 500));
}

#[test]
fn discovery_counts_only_stored_edges() {
    let mut bonded = 0usize;
    let mut persisted = 0;
    for outcome in [BondOutcome::Refused, BondOutcome::EdgeStored, BondOutcome::EdgeFailed, BondOutcome::EdgeStored] {
        let (n, persist) = after_bond(bonded, outcome);
        bonded = n;
        if persist {
            persisted += 1;
        }
    }
    assert_eq!(bonded, 2);
    assert_eq!(persisted, 2);
    assert!(persist_after_search(bonded));
    assert!(!persist_after_search(0));
    assert_eq!(after_bond(0, BondOutcome::Refused), (0, false));
}
