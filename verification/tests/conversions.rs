use candle_memory::clock::new_uuid;
use candle_memory::convert::{check_node_id, custom_from_metadata, domain_custom, metadata_from_domain};
use candle_memory::memory::MemoryMetadata;
use candle_memory::error::Error;
use candle_memory::value::FieldMap;
use serde_json::Value;

fn s(t: &str) -> Value {
    Value::String(t.to_string())
}

#[test]
fn metadata_from_domain_reads_custom_entries() {
    let mut custom = FieldMap::new();
    custom.insert("user_id".to_string(), s("u1"));
    custom.insert("context".to_string(), s("chat"));
    custom.insert("source".to_string(), Value::from(5u32));
    let m = metadata_from_domain(
        &custom,
        vec!["k".to_string()],
        vec!["t".to_string()],
        0.5f32.to_bits(),
        1_000,
        2_000,
        Some(vec![1.0f32.to_bits()]),
    );
    assert_eq!(m.user_id.as_deref(), Some("u1"));
    assert!(m.agent_id.is_none());
    assert_eq!(m.context, "chat");
    assert_eq!(m.category, "general");
    assert!(m.source.is_none());
    assert_eq!(m.keywords, vec!["k".to_string()]);
    assert_eq!(m.tags, vec!["t".to_string()]);
    assert_eq!(m.importance, 0.5f32.to_bits());
    assert_eq!(m.created_at, 1_000);
    assert_eq!(m.last_accessed_at, Some(2_000));
    assert_eq!(m.custom["user_id"], s("u1"));
    assert_eq!(m.custom.as_object().map(|o| o.len()), Some(3));
    let empty = metadata_from_domain(&FieldMap::new(), vec![], vec![], 0, 0, 0, None);
    assert_eq!(empty.context, "default");
    assert_eq!(empty.custom, Value::Object(serde_json::Map::new()));
}

#[test]
fn domain_custom_adds_evaluation_status() {
    let mut obj = serde_json::Map::new();
    obj.insert("a".to_string(), Value::from(1u32));
    let f = domain_custom(&Value::Object(obj), s("Pending"));
    assert_eq!(f.len(), 2);
    assert_eq!(f.get("a"), Some(&Value::from(1u32)));
    assert_eq!(f.get("evaluation_status"), Some(&s("Pending")));
    let g = domain_custom(&s("not an object"), Value::Null);
    assert_eq!(g.len(), 1);
    assert_eq!(g.get("evaluation_status"), Some(&Value::Null));
}

#[test]
fn node_ids_must_be_uuids() {
    assert!(check_node_id(&new_uuid()).is_ok());
    match check_node_id("m-1") {
        Err(Error::Internal(m)) => assert!(m.starts_with("Invalid UUID in memory node m-1: ")),
        other => panic!("unexpected {:?}", other),
    }
}

#[test]
fn custom_entries_from_metadata() {
    let mut m = MemoryMetadata::new();
    m.user_id = Some("u".to_string());
    m.context = "chat".to_string();
    let f = custom_from_metadata(&m);
    assert_eq!(f.len(), 2);
    assert_eq!(f.key_at(0), "user_id");
    assert_eq!(f.get("context"), Some(&s("chat")));
    assert!(f.get("agent_id").is_none());
    let back = metadata_from_domain(&f, vec![], vec![], 0, 0, 0, None);
    assert_eq!(back.user_id.as_deref(), Some("u"));
    assert_eq!(back.context, "chat");
}
