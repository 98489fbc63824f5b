use candle_memory::error::Error;
use candle_memory::history::ChangeType;
use candle_memory::procedural::{ConditionType, StepStatus};
use candle_memory::types::{MemoryTypeEnum, RelationshipType};
use std::str::FromStr;

#[test]
fn memory_type_names_round_trip() {
    for t in [
        MemoryTypeEnum::Semantic,
        MemoryTypeEnum::Episodic,
        MemoryTypeEnum::Procedural,
        MemoryTypeEnum::Working,
        MemoryTypeEnum::LongTerm,
    ] {
        assert_eq!(MemoryTypeEnum::from_string(t.as_str()).unwrap(), t);
        assert_eq!(MemoryTypeEnum::from_str(&t.to_string()).unwrap(), t);
    }
    assert_eq!(MemoryTypeEnum::LongTerm.as_str(), "long_term");
    assert_eq!(MemoryTypeEnum::default(), MemoryTypeEnum::LongTerm);
}

#[test]
fn memory_type_rejects_unknown_names() {
    match MemoryTypeEnum::from_string("Semantic") {
        Err(Error::InvalidInput(m)) => assert_eq!(m, "Invalid memory type: Semantic"),
        other => panic!("unexpected {:?}", other),
    }
    assert!(MemoryTypeEnum::from_string("").is_err());
}

#[test]
fn relationship_kinds() {
    assert!(RelationshipType::SimilarTo.is_bidirectional());
    assert!(RelationshipType::Contradicts.is_bidirectional());
    assert!(RelationshipType::AssociatedWith.is_bidirectional());
    assert!(!RelationshipType::CausedBy.is_bidirectional());
    assert_eq!(RelationshipType::SimilarTo.inverse(), None);
    assert_eq!(RelationshipType::GeneralizationOf.inverse(), Some(RelationshipType::SpecializationOf));
    assert_eq!(RelationshipType::SpecializationOf.inverse(), Some(RelationshipType::GeneralizationOf));
    assert_eq!(RelationshipType::CausedBy.inverse(), Some(RelationshipType::Custom("causes".to_string())));
    assert_eq!(
        RelationshipType::PrecedesTemporally.inverse(),
        Some(RelationshipType::Custom("follows_temporally".to_string()))
    );
    assert_eq!(RelationshipType::PartOf.inverse(), Some(RelationshipType::Custom("has_part".to_string())));
    assert_eq!(RelationshipType::Supports.inverse(), Some(RelationshipType::Custom("supported_by".to_string())));
    assert_eq!(RelationshipType::Custom("x".to_string()).inverse(), None);
}

#[test]
fn relationship_from_names() {
    assert_eq!(RelationshipType::from_name("caused_by"), RelationshipType::CausedBy);
    assert_eq!(RelationshipType::from_name("part_of"), RelationshipType::PartOf);
    assert_eq!(RelationshipType::from_name("mentions"), RelationshipType::Custom("mentions".to_string()));
}

#[test]
fn bidirectional_kinds_have_no_inverse_and_inverse_is_involutive() {
    for r in [
        RelationshipType::SimilarTo,
        RelationshipType::Contradicts,
        RelationshipType::AssociatedWith,
    ] {
        assert!(r.is_bidirectional());
        assert!(r.inverse().is_none());
    }
    let g = RelationshipType::GeneralizationOf;
    assert_eq!(g.inverse().unwrap().inverse().unwrap(), g);
}

#[test]
fn change_type_parsing() {
    assert_eq!(ChangeType::parse_from_str("creation").unwrap(), ChangeType::Creation);
    assert_eq!(ChangeType::parse_from_str("CREATION").unwrap(), ChangeType::Creation);
    assert_eq!(ChangeType::parse_from_str("Split").unwrap(), ChangeType::Split);
    assert_eq!(ChangeType::parse_from_str("custom7").unwrap(), ChangeType::Custom(7));
    assert_eq!(ChangeType::parse_from_str("Custom 42 ").unwrap(), ChangeType::Custom(42));
    assert_eq!(ChangeType::parse_from_str("custom").unwrap(), ChangeType::Custom(0));
    assert_eq!(ChangeType::parse_from_str("customX").unwrap(), ChangeType::Custom(0));
    assert_eq!(ChangeType::parse_from_str("custom300").unwrap(), ChangeType::Custom(0));
    match ChangeType::parse_from_str("Rename") {
        Err(Error::ValidationError(m)) => assert_eq!(m, "Invalid change type: Rename"),
        other => panic!("unexpected {:?}", other),
    }
}

#[test]
fn change_type_text_round_trip() {
    for c in [
        ChangeType::Creation,
        ChangeType::Update,
        ChangeType::Deletion,
        ChangeType::Restoration,
        ChangeType::Merge,
        ChangeType::Split,
        ChangeType::Custom(0),
        ChangeType::Custom(255),
    ] {
        assert_eq!(ChangeType::parse_from_str(&c.to_value_text()).unwrap(), c);
        assert_eq!(ChangeType::from_value(&c.to_value()).unwrap(), c);
    }
    assert_eq!(ChangeType::Custom(9).as_str(), "custom");
    assert_eq!(ChangeType::Custom(9).to_value_text(), "custom9");
    assert_eq!(ChangeType::Merge.to_value(), serde_json::Value::String("merge".to_string()));
}

#[test]
fn change_type_from_non_string_value() {
    match ChangeType::from_value(&serde_json::Value::from(3u32)) {
        Err(Error::ConversionError(m)) => assert_eq!(m, "Invalid change type value"),
        other => panic!("unexpected {:?}", other),
    }
}

#[test]
fn step_status_and_condition_type_parsing() {
    assert_eq!(StepStatus::parse_from_str("EXECUTING").unwrap(), StepStatus::Executing);
    assert_eq!(StepStatus::parse_from_str("completed").unwrap(), StepStatus::Completed);
    assert_eq!(StepStatus::Executing.as_str(), "executing");
    assert!(StepStatus::parse_from_str("done").is_err());
    assert_eq!(ConditionType::parse_from_str("Prerequisite").unwrap(), ConditionType::Prerequisite);
    assert_eq!(ConditionType::Invariant.as_str(), "invariant");
    assert!(ConditionType::parse_from_str("pre").is_err());
    for s in [
        StepStatus::Pending,
        StepStatus::Executing,
        StepStatus::Completed,
        StepStatus::Failed,
        StepStatus::Skipped,
    ] {
        assert_eq!(StepStatus::parse_from_str(s.as_str()).unwrap(), s);
    }
}
