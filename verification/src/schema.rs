//! The stored form of a memory: its text, kind, metadata document and the
//! instants at which it was made, changed and last read.
use vstd::prelude::*;
use crate::clock::{new_uuid, now_millis, TIME_MAX_MS};
use crate::memory::{copy_opt_bits, json_object_new, opt_bits};
use crate::types::MemoryTypeEnum;
use crate::value::{clone_json, keyed_insert, keyed_remove, json_fields_of, json_object, json_as_fields, json_from_fields};

verus! {

/// A stored memory. Embedding components and the score are kept as the bit
/// patterns of their `f32` values; instants are milliseconds since the Unix
/// epoch.
#[derive(Debug)]
pub struct Memory {
    /// Unique identifier
    pub id: String,
    /// Kind of memory
    pub memory_type: MemoryTypeEnum,
    /// Text of the memory
    pub content: String,
    /// Embedding, as `f32` bit patterns
    pub embedding: Option<Vec<u32>>,
    /// Metadata document (a JSON object when made by `new`)
    pub metadata: serde_json::Value,
    /// When the memory was made
    pub created_at: u64,
    /// When the memory was last changed
    pub updated_at: u64,
    /// When the memory was last read
    pub last_accessed_at: u64,
    /// Score given by a search, as an `f32` bit pattern
    pub score: Option<u32>,
}

/// Whether two stored memories hold the same values.
pub open spec fn same_memory(a: Memory, b: Memory) -> bool {
    &&& a.id@ == b.id@
    &&& a.memory_type == b.memory_type
    &&& a.content@ == b.content@
    &&& opt_bits(a.embedding) == opt_bits(b.embedding)
    &&& a.metadata == b.metadata
    &&& a.created_at == b.created_at
    &&& a.updated_at == b.updated_at
    &&& a.last_accessed_at == b.last_accessed_at
    &&& a.score == b.score
}

/// The metadata document after setting `key` to `value`: the entry is set
/// when the document is a JSON object, and any other document is left as
/// it is.
pub open spec fn metadata_with(doc: serde_json::Value, key: Seq<char>, value: serde_json::Value) -> serde_json::Value {
    match json_fields_of(doc) {
        Some(fields) => json_object(keyed_insert(fields, key, value)),
        None => doc,
    }
}

/// The metadata document after removing `key`: the entry goes when the
/// document is a JSON object, and any other document is left as it is.
pub open spec fn metadata_without(doc: serde_json::Value, key: Seq<char>) -> serde_json::Value {
    match json_fields_of(doc) {
        Some(fields) => json_object(keyed_remove(fields, key)),
        None => doc,
    }
}

/// Whether `t` is an instant the clock can read: not after the last
/// millisecond that the time library holds.
pub open spec fn clock_reading(t: u64) -> bool {
    t <= TIME_MAX_MS
}

/// The current instant in milliseconds since the Unix epoch, and 0 for an
/// instant before it.
fn now_unsigned() -> (r: u64)
    ensures
        clock_reading(r),
{
    let now = now_millis();
    if now < 0 {
        0
    } else {
        now as u64
    }
}

impl Clone for Memory {
    /// A copy holding the same values.
    fn clone(&self) -> (r: Memory)
        ensures
            same_memory(r, *self),
    {
        Memory {
            id: self.id.clone(),
            memory_type: self.memory_type,
            content: self.content.clone(),
            embedding: copy_opt_bits(&self.embedding),
            metadata: clone_json(&self.metadata),
            created_at: self.created_at,
            updated_at: self.updated_at,
            last_accessed_at: self.last_accessed_at,
            score: self.score,
        }
    }
}

impl Memory {
    /// A new memory of kind `memory_type` holding `content`, with a fresh
    /// random identifier, no embedding, no score, an empty metadata object,
    /// and one instant as its creation, change and access time.
    pub fn new(content: String, memory_type: MemoryTypeEnum) -> (r: Memory)
        ensures
            r.id@.len() == 36,
            r.memory_type == memory_type,
            r.content@ == content@,
            r.embedding is None,
            r.metadata == json_object(Seq::empty()),
            r.updated_at == r.created_at,
            r.last_accessed_at == r.created_at,
            r.score is None,
    {
        let now = now_unsigned();
        Memory {
            id: new_uuid(),
            memory_type,
            content,
            embedding: None,
            metadata: json_object_new(),
            created_at: now,
            updated_at: now,
            last_accessed_at: now,
            score: None,
        }
    }

    /// Marks the memory as read now: its access time becomes a reading of
    /// the clock; nothing else changes.
    pub fn touch(&mut self)
        ensures
            *final(self) == (Memory { last_accessed_at: final(self).last_accessed_at, ..*old(self) }),
            clock_reading(final(self).last_accessed_at),
    {
        self.last_accessed_at = now_unsigned();
    }

    /// Sets the embedding and marks the memory as changed now.
    pub fn set_embedding(&mut self, embedding: Vec<u32>)
        ensures
            *final(self) == (Memory { embedding: Some(embedding), updated_at: final(self).updated_at, ..*old(self) }),
    {
        self.embedding = Some(embedding);
        self.updated_at = now_unsigned();
    }

    /// Sets the metadata entry `key` to `value` when the metadata is a JSON
    /// object, and marks the memory as changed now in either case.
    pub fn add_metadata(&mut self, key: String, value: serde_json::Value)
        ensures
            *final(self) == (Memory {
                metadata: metadata_with(old(self).metadata, key@, value),
                updated_at: final(self).updated_at,
                ..*old(self)
            }),
    {
        let fields = json_as_fields(&self.metadata);
        if let Some(mut m) = fields {
            m.insert(key, value);
            self.metadata = json_from_fields(&m);
        }
        self.updated_at = now_unsigned();
    }

    /// Removes the metadata entry `key` when the metadata is a JSON object,
    /// and marks the memory as changed now in either case.
    pub fn remove_metadata(&mut self, key: &str)
        ensures
            *final(self) == (Memory {
                metadata: metadata_without(old(self).metadata, key@),
                updated_at: final(self).updated_at,
                ..*old(self)
            }),
    {
        let fields = json_as_fields(&self.metadata);
        if let Some(mut m) = fields {
            m.remove(key);
            self.metadata = json_from_fields(&m);
        }
        self.updated_at = now_unsigned();
    }
}

} // verus!
