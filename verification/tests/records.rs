use candle_memory::entity::{BaseEntity, Node};
use candle_memory::error::{Error, GraphError};
use candle_memory::memory::{
    keyword_tag_fields, BaseMemory, MemoryContent, MemoryMetadata, MemoryNode, MemoryRelationship, MemoryType,
    DEFAULT_IMPORTANCE_BITS,
};
use candle_memory::types::MemoryTypeEnum;
use candle_memory::value::FieldMap;
use serde_json::Value;

fn s(t: &str) -> Value {
    Value::String(t.to_string())
}

#[test]
fn content_constructors() {
    let c = MemoryContent::new("hello");
    assert_eq!(c.text, "hello");
    assert!(c.embedding.is_none() && c.image_data.is_none());
    assert_eq!(c.custom.len(), 0);
    let mut map = serde_json::Map::new();
    map.insert("a".to_string(), Value::from(1u32));
    let j = MemoryContent::json(Value::Object(map));
    assert_eq!(j.text, "{\"a\":1}");
    let d = MemoryContent::default();
    assert_eq!(d.text, "");
}

#[test]
fn image_is_base64_encoded() {
    let c = MemoryContent::new("x").with_image(b"hello");
    assert_eq!(c.image_data.as_deref(), Some("aGVsbG8="));
    assert_eq!(c.text, "x");
}

#[test]
fn metadata_defaults() {
    let m = MemoryMetadata::new();
    assert_eq!(m.category, "general");
    assert_eq!(m.context, "default");
    assert_eq!(m.importance, DEFAULT_IMPORTANCE_BITS);
    assert_eq!(f32::from_bits(m.importance), 0.5f32);
    assert!(m.user_id.is_none() && m.tags.is_empty());
    let e = MemoryMetadata::with_type(MemoryTypeEnum::Episodic);
    assert_eq!(e.category, "episodic");
}

#[test]
fn metadata_custom_entries() {
    let mut m = MemoryMetadata::new();
    m.set_custom("k", Value::from(3u32));
    assert_eq!(m.custom.get("k"), Some(&Value::from(3u32)));
}

#[test]
fn node_constructors_and_builders() {
    let n = MemoryNode::new(MemoryTypeEnum::Semantic, MemoryContent::new("fact"));
    assert_eq!(n.id.len(), 36);
    assert_eq!(n.created_at, n.updated_at);
    assert_eq!(n.metadata.category, "semantic");
    let n = n.with_importance(0.9f32.to_bits()).with_embedding(vec![1.0f32.to_bits()]);
    assert_eq!(f32::from_bits(n.importance()), 0.9f32);
    assert_eq!(n.embedding, Some(vec![1.0f32.to_bits()]));
    let c = n.clone();
    assert_eq!(c.id, n.id);
    assert_eq!(c.content.text, "fact");
}

#[test]
fn node_error_chunks() {
    let bad = MemoryNode::bad_chunk("boom".to_string());
    assert_eq!(bad.error(), Some("ERROR: boom"));
    let good = MemoryNode::with_id("n1".to_string(), MemoryTypeEnum::Working, MemoryContent::new("ok"));
    assert_eq!(good.error(), None);
}

#[test]
fn relationship_constructors() {
    let r = MemoryRelationship::new("a".to_string(), "b".to_string(), "related".to_string());
    assert_eq!(r.id.len(), 36);
    assert!(r.metadata.is_none());
    let r = r.with_metadata(s("m"));
    assert_eq!(r.metadata, Some(s("m")));
    let bad = MemoryRelationship::bad_chunk("oops".to_string());
    assert_eq!(bad.source_id, "error");
    assert_eq!(bad.error(), Some("oops".to_string()));
    let d = MemoryRelationship::default();
    assert_eq!(d.relationship_type, "unknown");
}

#[test]
fn base_memory_validation() {
    let ok = BaseMemory::new("id", "name", "d", MemoryTypeEnum::Semantic, MemoryContent::new("t"));
    assert!(ok.validate().is_ok());
    assert_eq!(ok.id(), "id");
    assert_eq!(ok.name(), "name");
    assert_eq!(ok.description(), "d");
    assert_eq!(ok.updated_at(), ok.updated_at);
    assert_eq!(ok.metadata().category, "semantic");
    assert_eq!(ok.content().text, "t");
    let no_id = BaseMemory::new("", "name", "d", MemoryTypeEnum::Semantic, MemoryContent::new("t"));
    match no_id.validate() {
        Err(Error::InvalidInput(m)) => assert_eq!(m, "Memory ID cannot be empty"),
        other => panic!("unexpected {:?}", other),
    }
    let no_text = BaseMemory::new("id", "name", "d", MemoryTypeEnum::Semantic, MemoryContent::new(""));
    match no_text.validate() {
        Err(Error::InvalidInput(m)) => assert_eq!(m, "Memory content text cannot be empty"),
        other => panic!("unexpected {:?}", other),
    }
}

#[test]
fn field_map_insert_get_remove() {
    let mut m = FieldMap::new();
    m.insert("a".to_string(), Value::from(1u32));
    m.insert("b".to_string(), Value::from(2u32));
    m.insert("a".to_string(), Value::from(3u32));
    assert_eq!(m.len(), 2);
    assert_eq!(m.get("a"), Some(&Value::from(3u32)));
    assert_eq!(m.key_at(0), "a");
    m.remove("a");
    assert_eq!(m.len(), 1);
    assert_eq!(m.get("a"), None);
    assert_eq!(m.key_at(0), "b");
}

#[test]
fn entity_attributes_and_validation() {
    let e = BaseEntity::new("e1".to_string(), "thing".to_string())
        .with_attribute("color", s("red"))
        .with_attribute("size", Value::from(4u32));
    assert_eq!(e.id(), "e1");
    assert_eq!(e.entity_type(), "thing");
    assert_eq!(e.get_attribute("color"), Some(&s("red")));
    assert!(e.has_required_attributes(&["color", "size"]));
    assert!(!e.has_required_attributes(&["color", "weight"]));
    assert!(e.validate().is_ok());
    assert_eq!(e.memory_usage(), 2 + 5 + 2 * 64);
    let mut e = e;
    e.remove_attributes(&["color"]);
    assert_eq!(e.get_attribute("color"), None);
    let empty = BaseEntity::new(String::new(), "t".to_string());
    match empty.validate() {
        Err(GraphError::ValidationError(m)) => assert_eq!(m, "Entity ID cannot be empty"),
        other => panic!("unexpected {:?}", other),
    }
    let untyped = BaseEntity::new("x".to_string(), String::new());
    match untyped.validate() {
        Err(GraphError::ValidationError(m)) => assert_eq!(m, "Entity type cannot be empty"),
        other => panic!("unexpected {:?}", other),
    }
}

#[test]
fn entity_node_round_trip() {
    let e = BaseEntity::new("e1".to_string(), "thing".to_string()).with_attribute("color", s("red"));
    let node = e.to_node();
    assert_eq!(node.id, "e1");
    assert_eq!(node.labels, vec!["thing".to_string()]);
    assert_eq!(node.properties.get("id"), Some(&s("e1")));
    assert_eq!(node.properties.get("entity_type"), Some(&s("thing")));
    let back = BaseEntity::from_node(node).unwrap();
    assert_eq!(back.id(), "e1");
    assert_eq!(back.entity_type(), "thing");
    assert_eq!(back.get_attribute("color"), Some(&s("red")));
    assert_eq!(back.attributes().len(), 1);
}

#[test]
fn node_without_id_is_refused() {
    let mut props = FieldMap::new();
    props.insert("entity_type".to_string(), s("t"));
    let node = Node { id: "n".to_string(), properties: props, labels: vec![] };
    match BaseEntity::from_node(node) {
        Err(GraphError::ValidationError(m)) => assert_eq!(m, "Node missing ID"),
        other => panic!("unexpected {:?}", other),
    }
    let mut props = FieldMap::new();
    props.insert("id".to_string(), s("n"));
    props.insert("entity_type".to_string(), Value::from(1u32));
    let node = Node { id: "n".to_string(), properties: props, labels: vec![] };
    match BaseEntity::from_node(node) {
        Err(GraphError::ValidationError(m)) => assert_eq!(m, "Node missing entity_type"),
        other => panic!("unexpected {:?}", other),
    }
}

#[test]
fn content_entity_conversion() {
    let c = MemoryContent::new("body").with_image(b"a");
    let attrs = c.to_entity();
    assert_eq!(attrs.get("content_text"), Some(&s("body")));
    assert_eq!(attrs.get("content_image_data"), Some(&s("YQ==")));
    let back = MemoryContent::from_entity(&attrs).unwrap();
    assert_eq!(back.text, "body");
    assert_eq!(back.image_data.as_deref(), Some("YQ=="));
    assert!(back.audio_data.is_none());
    match MemoryContent::from_entity(&FieldMap::new()) {
        Err(Error::ConversionError(m)) => assert_eq!(m, "Missing content_text"),
        other => panic!("unexpected {:?}", other),
    }
}

#[test]
fn base_memory_entity_conversion() {
    let mut m = BaseMemory::new("m1", "note", "a note", MemoryTypeEnum::Semantic, MemoryContent::new("text"));
    m.updated_at = 1_700_000_000_123;
    m.metadata.created_at = 1_600_000_000_000;
    m.metadata.user_id = Some("u".to_string());
    m.metadata.tags = vec!["t1".to_string()];
    let e = m.to_entity();
    assert_eq!(e.entity_type(), "memory_semantic");
    assert_eq!(e.get_attribute("updated_at"), Some(&s("2023-11-14T22:13:20.123Z")));
    assert_eq!(e.get_attribute("user_id"), Some(&s("u")));
    assert_eq!(e.get_attribute("agent_id"), Some(&Value::Null));
    let back = BaseMemory::from_entity(e).unwrap();
    assert_eq!(back.id, "m1");
    assert_eq!(back.name, "note");
    assert_eq!(back.updated_at, 1_700_000_000_123);
    assert_eq!(back.metadata.created_at, 1_600_000_000_000);
    assert_eq!(back.metadata.user_id.as_deref(), Some("u"));
    assert_eq!(back.metadata.tags, vec!["t1".to_string()]);
    assert_eq!(back.metadata.category, "semantic");
    assert_eq!(back.content.text, "text");
}

#[test]
fn base_memory_entity_roundtrip_keeps_fields() {
    let mut content = MemoryContent::new("body").with_image(&[1u8, 2, 3]);
    content.custom.insert("mood".to_string(), s("calm"));
    let mut m = BaseMemory::new("m2", "entry", "diary entry", MemoryTypeEnum::Episodic, content);
    m.metadata.keywords = vec!["k1".to_string(), "k2".to_string()];
    m.metadata.agent_id = Some("agent".to_string());
    m.metadata.source = Some("chat".to_string());
    m.metadata.set_custom("origin", s("import"));
    let back = BaseMemory::from_entity(m.to_entity()).unwrap();
    assert_eq!(back.id, m.id);
    assert_eq!(back.description, "diary entry");
    assert_eq!(back.updated_at, m.updated_at);
    assert_eq!(back.metadata.created_at, m.metadata.created_at);
    assert_eq!(back.metadata.keywords, m.metadata.keywords);
    assert_eq!(back.metadata.agent_id, m.metadata.agent_id);
    assert_eq!(back.metadata.source, m.metadata.source);
    assert_eq!(back.metadata.context, "default");
    assert_eq!(back.content.text, "body");
    assert_eq!(back.content.image_data, m.content.image_data);
    let mut expected = serde_json::Map::new();
    expected.insert("mood".to_string(), s("calm"));
    assert_eq!(back.metadata.custom, Value::Object(expected));
    assert_eq!(back.content.custom.get("mood"), Some(&s("calm")));
}

#[test]
fn base_memory_entity_errors() {
    let e = BaseEntity::new("x".to_string(), "note".to_string());
    match BaseMemory::from_entity(e) {
        Err(Error::ConversionError(m)) => assert_eq!(m, "Invalid entity type for memory: note"),
        other => panic!("unexpected {:?}", other),
    }
    let e = BaseEntity::new("x".to_string(), "memory_general".to_string());
    match BaseMemory::from_entity(e) {
        Err(Error::InvalidInput(m)) => assert_eq!(m, "Invalid memory type: general"),
        other => panic!("unexpected {:?}", other),
    }
    let e = BaseEntity::new("x".to_string(), "memory_working".to_string()).with_attribute("name", s("n"));
    match BaseMemory::from_entity(e) {
        Err(Error::ConversionError(m)) => assert_eq!(m, "Missing attribute 'description' in entity"),
        other => panic!("unexpected {:?}", other),
    }
    let e = BaseEntity::new("x".to_string(), "memory_working".to_string())
        .with_attribute("name", s("n"))
        .with_attribute("description", s("d"))
        .with_attribute("updated_at", s("yesterday"));
    match BaseMemory::from_entity(e) {
        Err(Error::ConversionError(m)) => assert_eq!(m, "Invalid format for updated_at"),
        other => panic!("unexpected {:?}", other),
    }
}

#[test]
fn keyword_and_tag_fields() {
    let f = keyword_tag_fields(&vec!["rust".to_string()], &vec!["lang".to_string(), "code".to_string()]);
    assert_eq!(f.len(), 3);
    assert_eq!(f.key_at(0), "keyword_rust");
    assert_eq!(f.get("tag_code"), Some(&s("code")));
}

#[test]
fn content_custom_fields_survive_entity_conversion() {
    let mut c = MemoryContent::new("body");
    c.custom.insert("lang".to_string(), s("en"));
    let attrs = c.to_entity();
    let mut expected = serde_json::Map::new();
    expected.insert("lang".to_string(), s("en"));
    assert_eq!(attrs.get("custom"), Some(&Value::Object(expected)));
    let back = MemoryContent::from_entity(&attrs).unwrap();
    assert_eq!(back.custom.get("lang"), Some(&s("en")));
}

#[test]
fn set_custom_keeps_other_entries() {
    let mut m = MemoryMetadata::new();
    m.set_custom("a", Value::from(1u32));
    m.set_custom("b", s("x"));
    m.set_custom("a", Value::from(2u32));
    assert_eq!(m.custom["a"], Value::from(2u32));
    assert_eq!(m.custom["b"], s("x"));
    assert_eq!(m.custom.as_object().map(|o| o.len()), Some(2));
    m.custom = s("plain");
    m.set_custom("k", Value::Bool(true));
    let mut only = serde_json::Map::new();
    only.insert("k".to_string(), Value::Bool(true));
    assert_eq!(m.custom, Value::Object(only));
}

fn six_bit_char(n: u32) -> char {
    match n {
        0..=25 => char::from_u32(65 + n).unwrap(),
        26..=51 => char::from_u32(97 + n - 26).unwrap(),
        52..=61 => char::from_u32(48 + n - 52).unwrap(),
        62 => '+',
        _ => '/',
    }
}

fn groups_of_three(bytes: &[u8]) -> String {
    let mut out = String::new();
    for chunk in bytes.chunks(3) {
        let a = chunk[0] as u32;
        match chunk.len() {
            1 => {
                out.push(six_bit_char(a / 4));
                out.push(six_bit_char((a % 4) * 16));
                out.push_str("==");
            }
            2 => {
                let b = chunk[1] as u32;
                out.push(six_bit_char(a / 4));
                out.push(six_bit_char((a % 4) * 16 + b / 16));
                out.push(six_bit_char((b % 16) * 4));
                out.push('=');
            }
            _ => {
                let b = chunk[1] as u32;
                let c = chunk[2] as u32;
                out.push(six_bit_char(a / 4));
                out.push(six_bit_char((a % 4) * 16 + b / 16));
                out.push(six_bit_char((b % 16) * 4 + c / 64));
                out.push(six_bit_char(c % 64));
            }
        }
    }
    out
}

#[test]
fn image_encoding_follows_groups_of_three() {
    assert_eq!(MemoryContent::new("x").with_image(b"M").image_data.as_deref(), Some("TQ=="));
    assert_eq!(MemoryContent::new("x").with_image(b"Ma").image_data.as_deref(), Some("TWE="));
    assert_eq!(MemoryContent::new("x").with_image(b"Man").image_data.as_deref(), Some("TWFu"));
    assert_eq!(MemoryContent::new("x").with_image(b"").image_data.as_deref(), Some(""));
    let bytes: Vec<u8> = (0u32..=255).map(|i| (i * 97 % 256) as u8).chain([0xfbu8, 0xff, 0xfe]).collect();
    for n in 0..bytes.len() {
        let got = MemoryContent::new("x").with_image(&bytes[..n]).image_data.unwrap();
        assert_eq!(got, groups_of_three(&bytes[..n]));
    }
}
