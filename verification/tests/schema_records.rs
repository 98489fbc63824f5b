use candle_memory::schema::Memory;
use candle_memory::types::MemoryTypeEnum;
use serde_json::Value;

#[test]
fn new_memory_is_fresh() {
    let m = Memory::new("remember this".to_string(), MemoryTypeEnum::Semantic);
    assert_eq!(m.id.len(), 36);
    assert_eq!(m.content, "remember this");
    assert_eq!(m.memory_type, MemoryTypeEnum::Semantic);
    assert!(m.embedding.is_none());
    assert!(m.score.is_none());
    assert_eq!(m.metadata, Value::Object(serde_json::Map::new()));
    assert_eq!(m.created_at, m.updated_at);
    assert_eq!(m.created_at, m.last_accessed_at);
    let other = Memory::new("remember this".to_string(), MemoryTypeEnum::Semantic);
    assert_ne!(m.id, other.id);
}

#[test]
fn metadata_entries_are_set_and_removed() {
    let mut m = Memory::new("x".to_string(), MemoryTypeEnum::Episodic);
    m.add_metadata("source".to_string(), Value::String("chat".to_string()));
    m.add_metadata("turn".to_string(), Value::from(3u32));
    assert_eq!(m.metadata["source"], Value::String("chat".to_string()));
    assert_eq!(m.metadata["turn"], Value::from(3u32));
    m.add_metadata("turn".to_string(), Value::from(4u32));
    assert_eq!(m.metadata["turn"], Value::from(4u32));
    assert_eq!(m.metadata.as_object().map(|o| o.len()), Some(2));
    m.remove_metadata("source");
    assert!(m.metadata.get("source").is_none());
    assert_eq!(m.metadata.as_object().map(|o| o.len()), Some(1));
    m.remove_metadata("absent");
    assert_eq!(m.metadata.as_object().map(|o| o.len()), Some(1));
}

#[test]
fn metadata_that_is_not_an_object_is_left_alone() {
    let mut m = Memory::new("x".to_string(), MemoryTypeEnum::Working);
    m.metadata = Value::String("plain".to_string());
    m.add_metadata("k".to_string(), Value::Bool(true));
    assert_eq!(m.metadata, Value::String("plain".to_string()));
    m.remove_metadata("k");
    assert_eq!(m.metadata, Value::String("plain".to_string()));
}

#[test]
fn embedding_and_access_time() {
    let mut m = Memory::new("x".to_string(), MemoryTypeEnum::Semantic);
    let created = m.created_at;
    m.set_embedding(vec![0.5f32.to_bits(), 1.0f32.to_bits()]);
    assert_eq!(m.embedding, Some(vec![0.5f32.to_bits(), 1.0f32.to_bits()]));
    assert!(m.updated_at >= created);
    m.touch();
    assert!(m.last_accessed_at >= created);
    assert_eq!(m.content, "x");
    let c = m.clone();
    assert_eq!(c.id, m.id);
    assert_eq!(c.embedding, m.embedding);
    assert_eq!(c.metadata, m.metadata);
}

#[test]
fn kinds_parse_with_from_str() {
    assert_eq!("working".parse::<MemoryTypeEnum>().ok(), Some(MemoryTypeEnum::Working));
    match "Working".parse::<MemoryTypeEnum>() {
        Err(candle_memory::error::Error::InvalidInput(m)) => assert_eq!(m, "Invalid memory type: Working"),
        other => panic!("unexpected {:?}", other),
    }
}

#[test]
fn touch_reads_the_clock() {
    let mut m = Memory::new("x".to_string(), MemoryTypeEnum::Semantic);
    m.last_accessed_at = u64::MAX;
    m.touch();
    assert!(m.last_accessed_at <= candle_memory::clock::TIME_MAX_MS as u64);
    assert!(m.last_accessed_at >= m.created_at);
}
