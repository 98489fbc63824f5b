//! Memory records: content, metadata, base memories, memory nodes and the
//! relationships between them.
use vstd::prelude::*;
use crate::clock::{new_uuid, now_millis};
use crate::error::Error;
use crate::text::{starts_with, has_prefix, opt_view, string_views, suffix_from};
use crate::types::{MemoryTypeEnum, memory_type_name};
use crate::value::{FieldMap, clone_json, keyed_insert, lemma_insert_then_get, lemma_insert_keeps_others, keys_unique, keyed_get, json_text, json_opt_text, json_text_list, json_text_list_of,
    json_object, json_fields_of, json_str_of, json_from_str, json_from_opt_str, json_from_strings, json_as_strings, json_as_str,
    json_as_fields, json_from_fields};
use crate::clock::{rfc3339_of, rfc3339_ms_of, rfc3339_text, parse_rfc3339_ms, TIME_MIN_MS, TIME_MAX_MS, RFC3339_MIN_MS, RFC3339_MAX_MS};
use crate::entity::{BaseEntity, text_property, inserted_all};
use crate::error::message;
use base64::Engine;

verus! {

/// The text that `serde_json::to_string` gives for a JSON value.
pub uninterp spec fn json_text_of(v: serde_json::Value) -> Seq<char>;

/// The character of the standard Base64 alphabet for a six-bit value:
/// `A`-`Z`, `a`-`z`, `0`-`9`, `+` and `/`.
pub open spec fn base64_char(n: int) -> char {
    if n < 26 {
        (65 + n) as char
    } else if n < 52 {
        (97 + n - 26) as char
    } else if n < 62 {
        (48 + n - 52) as char
    } else if n == 62 {
        '+'
    } else {
        '/'
    }
}

/// The standard (padded) Base64 encoding of `bytes`: each group of three
/// bytes gives four characters, six bits each, high bits first; a last
/// group of one or two bytes gives two or three characters and is padded
/// with `=` to four.
pub open spec fn base64_of(bytes: Seq<u8>) -> Seq<char>
    decreases bytes.len(),
{
    if bytes.len() == 0 {
        Seq::empty()
    } else if bytes.len() == 1 {
        let a = bytes[0] as int;
        seq![base64_char(a / 4), base64_char((a % 4) * 16), '=', '=']
    } else if bytes.len() == 2 {
        let a = bytes[0] as int;
        let b = bytes[1] as int;
        seq![base64_char(a / 4), base64_char((a % 4) * 16 + b / 16), base64_char((b % 16) * 4), '=']
    } else {
        let a = bytes[0] as int;
        let b = bytes[1] as int;
        let c = bytes[2] as int;
        seq![base64_char(a / 4), base64_char((a % 4) * 16 + b / 16), base64_char((b % 16) * 4 + c / 64), base64_char(c % 64)]
            + base64_of(bytes.skip(3))
    }
}

/// The entries of custom data `v`: those of the JSON object it holds, and
/// none when it is not an object.
pub open spec fn custom_entries(v: serde_json::Value) -> Seq<(Seq<char>, serde_json::Value)> {
    match json_fields_of(v) {
        Some(f) => f,
        None => Seq::empty(),
    }
}

/// Custom data `v` after setting the entry `key` to `value`: the object
/// holding `v`'s entries (none when `v` is not an object) with that entry
/// set.
pub open spec fn with_custom_entry(v: serde_json::Value, key: Seq<char>, value: serde_json::Value) -> serde_json::Value {
    json_object(keyed_insert(custom_entries(v), key, value))
}

/// The JSON object `{"error": e}`.
pub open spec fn json_error_object(e: Seq<char>) -> serde_json::Value {
    json_object(seq![("error"@, json_text(e))])
}

/// The text held under "error" in the JSON value `v`, when `v` is an
/// object whose "error" entry is a string.
pub open spec fn json_error_field(v: serde_json::Value) -> Option<Seq<char>> {
    match json_fields_of(v) {
        Some(f) => match keyed_get(f, "error"@) {
            Some(x) => json_str_of(x),
            None => None,
        },
        None => None,
    }
}

/// Calls `serde_json::to_string` on a JSON value (which cannot fail for a
/// `Value`); the text is named by `json_text_of`.
#[verifier::external_body]
fn json_to_text(v: &serde_json::Value) -> (r: String)
    ensures
        r@ == json_text_of(*v),
{
    serde_json::to_string(v).unwrap_or_default()
}

/// Calls `base64::engine::general_purpose::STANDARD.encode`: the standard
/// alphabet with padding, four characters for every started group of three
/// bytes.
#[verifier::external_body]
fn base64_encode(bytes: &[u8]) -> (r: String)
    ensures
        r@ == base64_of(bytes@),
        r@.len() == 4 * ((bytes@.len() + 2) / 3),
{
    base64::engine::general_purpose::STANDARD.encode(bytes)
}

/// Builds the JSON object `{"error": e}` with `serde_json::Map::insert`;
/// reading its "error" entry as a string gives `e` back.
#[verifier::external_body]
fn json_error(e: &str) -> (r: serde_json::Value)
    ensures
        r == json_error_object(e@),
        json_error_field(r) == Some(e@),
{
    let mut map = serde_json::Map::new();
    map.insert("error".to_string(), serde_json::Value::String(e.to_string()));
    serde_json::Value::Object(map)
}

/// Reads the "error" entry of a JSON value with `Value::get` and
/// `Value::as_str`.
#[verifier::external_body]
fn json_get_error(v: &serde_json::Value) -> (r: Option<String>)
    ensures
        match r {
            Some(s) => json_error_field(*v) == Some(s@),
            None => json_error_field(*v) is None,
        },
{
    v.get("error").and_then(|e| e.as_str()).map(|s| s.to_string())
}

/// Builds an empty JSON object with `serde_json::Map::new`.
#[verifier::external_body]
pub(crate) fn json_object_new() -> (r: serde_json::Value)
    ensures
        r == json_object(Seq::empty()),
{
    serde_json::Value::Object(serde_json::Map::new())
}

/// The bit patterns of an optional embedding.
pub open spec fn opt_bits(o: Option<Vec<u32>>) -> Option<Seq<u32>> {
    match o {
        Some(v) => Some(v@),
        None => None,
    }
}

/// A copy of a vector of bit patterns.
fn copy_bits(v: &Vec<u32>) -> (r: Vec<u32>)
    ensures
        r@ == v@,
{
    let n = v.len();
    let mut out: Vec<u32> = Vec::new();
    let mut i: usize = 0;
    while i < n
        invariant
            n == v@.len(),
            i <= n,
            out@ == v@.subrange(0, i as int),
        decreases n - i,
    {
        out.push(v[i]);
        i = i + 1;
        assert(out@ =~= v@.subrange(0, i as int));
    }
    assert(v@.subrange(0, n as int) =~= v@);
    out
}

/// A copy of an optional vector of bit patterns.
pub(crate) fn copy_opt_bits(o: &Option<Vec<u32>>) -> (r: Option<Vec<u32>>)
    ensures
        opt_bits(r) == opt_bits(*o),
{
    match o {
        Some(v) => Some(copy_bits(v)),
        None => None,
    }
}

/// A copy of a vector of strings.
fn copy_strings(v: &Vec<String>) -> (r: Vec<String>)
    ensures
        r@ == v@,
{
    let n = v.len();
    let mut out: Vec<String> = Vec::new();
    let mut i: usize = 0;
    while i < n
        invariant
            n == v@.len(),
            i <= n,
            out@ == v@.subrange(0, i as int),
        decreases n - i,
    {
        out.push(v[i].clone());
        i = i + 1;
        assert(out@ =~= v@.subrange(0, i as int));
    }
    assert(v@.subrange(0, n as int) =~= v@);
    out
}

/// A copy of an optional string.
fn copy_opt_string(o: &Option<String>) -> (r: Option<String>)
    ensures
        r == *o,
{
    match o {
        Some(s) => Some(s.clone()),
        None => None,
    }
}

/// The content of a memory. Embeddings are held as the bit patterns of
/// their `f32` components (`f32::to_bits`).
#[derive(Debug)]
pub struct MemoryContent {
    /// Text content
    pub text: String,
    /// Embedding vector, as `f32` bit patterns
    pub embedding: Option<Vec<u32>>,
    /// Image data (base64 encoded)
    pub image_data: Option<String>,
    /// Audio data (base64 encoded)
    pub audio_data: Option<String>,
    /// Video data (base64 encoded)
    pub video_data: Option<String>,
    /// Custom content fields
    pub custom: FieldMap,
}

/// Whether `c` is plain text content: `text`, with no embedding, media or
/// custom fields.
pub open spec fn is_text_content(c: MemoryContent, text: Seq<char>) -> bool {
    &&& c.text@ == text
    &&& c.embedding is None
    &&& c.image_data is None
    &&& c.audio_data is None
    &&& c.video_data is None
    &&& c.custom@.len() == 0
    &&& c.custom.wf()
}

/// Whether two contents hold the same text, embedding, media and custom
/// fields.
pub open spec fn same_content(a: MemoryContent, b: MemoryContent) -> bool {
    &&& a.text@ == b.text@
    &&& opt_bits(a.embedding) == opt_bits(b.embedding)
    &&& opt_view(a.image_data) == opt_view(b.image_data)
    &&& opt_view(a.audio_data) == opt_view(b.audio_data)
    &&& opt_view(a.video_data) == opt_view(b.video_data)
    &&& a.custom@ == b.custom@
}

impl Clone for MemoryContent {
    /// A copy holding the same values.
    fn clone(&self) -> (r: MemoryContent)
        ensures
            same_content(r, *self),
    {
        MemoryContent {
            text: self.text.clone(),
            embedding: copy_opt_bits(&self.embedding),
            image_data: copy_opt_string(&self.image_data),
            audio_data: copy_opt_string(&self.audio_data),
            video_data: copy_opt_string(&self.video_data),
            custom: self.custom.clone(),
        }
    }
}

impl MemoryContent {
    /// Plain text content.
    pub fn new(text: &str) -> (r: MemoryContent)
        ensures
            is_text_content(r, text@),
    {
        MemoryContent {
            text: String::from_str(text),
            embedding: None,
            image_data: None,
            audio_data: None,
            video_data: None,
            custom: FieldMap::new(),
        }
    }

    /// Plain text content (same as `new`).
    pub fn text(text: &str) -> (r: MemoryContent)
        ensures
            is_text_content(r, text@),
    {
        MemoryContent::new(text)
    }

    /// Content whose text is the JSON rendering of `json_value`.
    pub fn json(json_value: serde_json::Value) -> (r: MemoryContent)
        ensures
            is_text_content(r, json_text_of(json_value)),
    {
        let t = json_to_text(&json_value);
        MemoryContent::new(t.as_str())
    }

    /// Sets the embedding (as `f32` bit patterns).
    pub fn with_embedding(self, embedding: Vec<u32>) -> (r: MemoryContent)
        ensures
            r == (MemoryContent { embedding: Some(embedding), ..self }),
    {
        MemoryContent { embedding: Some(embedding), ..self }
    }

    /// Sets the image data to the Base64 encoding of `image_bytes`.
    pub fn with_image(self, image_bytes: &[u8]) -> (r: MemoryContent)
        ensures
            r == (MemoryContent { image_data: r.image_data, ..self }),
            r.image_data matches Some(d) && d@ == base64_of(image_bytes@),
    {
        let encoded = base64_encode(image_bytes);
        MemoryContent { image_data: Some(encoded), ..self }
    }
}

impl Default for MemoryContent {
    /// Empty text content.
    fn default() -> (r: MemoryContent)
        ensures
            is_text_content(r, Seq::<char>::empty()),
    {
        let e = "";
        proof {
            reveal_strlit("");
            assert(e@.len() == 0);
            assert(e@ =~= Seq::<char>::empty());
        }
        MemoryContent::new(e)
    }
}

/// The importance of a new memory, 0.5, as an `f32` bit pattern.
pub const DEFAULT_IMPORTANCE_BITS: u32 = 0x3f00_0000;

/// Metadata of a memory. `importance` and `embedding` hold `f32` bit
/// patterns; times are milliseconds since the Unix epoch.
#[derive(Debug)]
pub struct MemoryMetadata {
    /// Owning user
    pub user_id: Option<String>,
    /// Owning agent
    pub agent_id: Option<String>,
    /// Free-form context
    pub context: String,
    /// Keywords
    pub keywords: Vec<String>,
    /// Tags
    pub tags: Vec<String>,
    /// Category; a memory of a given kind is filed under the kind's name
    pub category: String,
    /// Importance, as an `f32` bit pattern
    pub importance: u32,
    /// Source
    pub source: Option<String>,
    /// Creation time
    pub created_at: i64,
    /// Last access time
    pub last_accessed_at: Option<i64>,
    /// Embedding, as `f32` bit patterns
    pub embedding: Option<Vec<u32>>,
    /// Custom JSON data
    pub custom: serde_json::Value,
}

/// Whether `m` is fresh metadata filed under `category`: no owner or
/// source, the default context, no keywords or tags, default importance, never accessed, no
/// embedding, and an empty JSON object as custom data.
pub open spec fn is_fresh_metadata(m: MemoryMetadata, category: Seq<char>) -> bool {
    &&& m.user_id is None
    &&& m.agent_id is None
    &&& m.context@ == "default"@
    &&& m.keywords@.len() == 0
    &&& m.tags@.len() == 0
    &&& m.category@ == category
    &&& m.importance == DEFAULT_IMPORTANCE_BITS
    &&& m.source is None
    &&& m.last_accessed_at is None
    &&& m.embedding is None
    &&& m.custom == json_object(Seq::empty())
}

/// Whether two metadata records hold the same values.
pub open spec fn same_metadata(a: MemoryMetadata, b: MemoryMetadata) -> bool {
    &&& opt_view(a.user_id) == opt_view(b.user_id)
    &&& opt_view(a.agent_id) == opt_view(b.agent_id)
    &&& a.context@ == b.context@
    &&& string_views(a.keywords@) == string_views(b.keywords@)
    &&& string_views(a.tags@) == string_views(b.tags@)
    &&& a.category@ == b.category@
    &&& a.importance == b.importance
    &&& opt_view(a.source) == opt_view(b.source)
    &&& a.created_at == b.created_at
    &&& a.last_accessed_at == b.last_accessed_at
    &&& opt_bits(a.embedding) == opt_bits(b.embedding)
    &&& a.custom == b.custom
}

impl Clone for MemoryMetadata {
    /// A copy holding the same values.
    fn clone(&self) -> (r: MemoryMetadata)
        ensures
            same_metadata(r, *self),
    {
        MemoryMetadata {
            user_id: copy_opt_string(&self.user_id),
            agent_id: copy_opt_string(&self.agent_id),
            context: self.context.clone(),
            keywords: copy_strings(&self.keywords),
            tags: copy_strings(&self.tags),
            category: self.category.clone(),
            importance: self.importance,
            source: copy_opt_string(&self.source),
            created_at: self.created_at,
            last_accessed_at: self.last_accessed_at,
            embedding: copy_opt_bits(&self.embedding),
            custom: clone_json(&self.custom),
        }
    }
}

impl MemoryMetadata {
    /// Fresh metadata in the "general" category, created now.
    pub fn new() -> (r: MemoryMetadata)
        ensures
            is_fresh_metadata(r, "general"@),
    {
        MemoryMetadata::fresh("general")
    }

    /// Fresh metadata filed under the name of the memory kind `t`.
    pub fn with_type(t: MemoryTypeEnum) -> (r: MemoryMetadata)
        ensures
            is_fresh_metadata(r, memory_type_name(t)),
    {
        MemoryMetadata::fresh(t.as_str())
    }

    /// Fresh metadata filed under the name of the memory kind `t` (same as
    /// `with_type`).
    pub fn with_memory_type(t: MemoryTypeEnum) -> (r: MemoryMetadata)
        ensures
            is_fresh_metadata(r, memory_type_name(t)),
    {
        MemoryMetadata::with_type(t)
    }

    fn fresh(category: &str) -> (r: MemoryMetadata)
        ensures
            is_fresh_metadata(r, category@),
    {
        MemoryMetadata {
            user_id: None,
            agent_id: None,
            context: String::from_str("default"),
            keywords: Vec::new(),
            tags: Vec::new(),
            category: String::from_str(category),
            importance: DEFAULT_IMPORTANCE_BITS,
            source: None,
            created_at: now_millis(),
            last_accessed_at: None,
            embedding: None,
            custom: json_object_new(),
        }
    }

    /// Sets the custom entry `key` to `value`; custom data that is not a
    /// JSON object is replaced by an object holding only that entry.
    /// Reading the entry gives `value`, and every other entry reads as
    /// before.
    pub fn set_custom(&mut self, key: &str, value: serde_json::Value)
        ensures
            *final(self) == (MemoryMetadata { custom: with_custom_entry(old(self).custom, key@, value), ..*old(self) }),
            json_fields_of(final(self).custom) is Some,
            keyed_get(custom_entries(final(self).custom), key@) == Some(value),
            forall|k: Seq<char>| k != key@ ==> #[trigger] keyed_get(custom_entries(final(self).custom), k) == keyed_get(
                custom_entries(old(self).custom),
                k,
            ),
    {
        let ghost before = custom_entries(self.custom);
        let mut fields = match json_as_fields(&self.custom) {
            Some(m) => m,
            None => FieldMap::new(),
        };
        let ghost v = value;
        fields.insert(String::from_str(key), value);
        self.custom = json_from_fields(&fields);
        proof {
            assert forall|k: Seq<char>| k != key@ implies #[trigger] keyed_get(custom_entries(self.custom), k) == keyed_get(
                before,
                k,
            ) by {
                lemma_insert_then_get(before, key@, v, k);
            }
            lemma_insert_then_get(before, key@, v, key@);
        }
    }
}

impl Default for MemoryMetadata {
    /// Fresh metadata in the "general" category.
    fn default() -> (r: MemoryMetadata)
        ensures
            is_fresh_metadata(r, "general"@),
    {
        MemoryMetadata::new()
    }
}

/// A memory as a named record with metadata and content.
#[derive(Debug)]
pub struct BaseMemory {
    /// Unique identifier
    pub id: String,
    /// Name of the memory
    pub name: String,
    /// Description of the memory
    pub description: String,
    /// Last update, in milliseconds since the Unix epoch
    pub updated_at: i64,
    /// Metadata
    pub metadata: MemoryMetadata,
    /// Content
    pub content: MemoryContent,
}

/// Whether two base memories hold the same values.
pub open spec fn same_base_memory(a: BaseMemory, b: BaseMemory) -> bool {
    &&& a.id@ == b.id@
    &&& a.name@ == b.name@
    &&& a.description@ == b.description@
    &&& a.updated_at == b.updated_at
    &&& same_metadata(a.metadata, b.metadata)
    &&& same_content(a.content, b.content)
}

/// What every kind of memory offers: its identity, metadata and content,
/// a check of its required fields, and its entity form.
pub trait MemoryType: Sized {
    /// Whether the memory's instants can be written out as entity
    /// attributes by the time library.
    spec fn entity_writable(&self) -> bool;

    /// The unique identifier.
    fn id(&self) -> &str;

    /// The name.
    fn name(&self) -> &str;

    /// The description.
    fn description(&self) -> &str;

    /// The last update, in milliseconds since the Unix epoch.
    fn updated_at(&self) -> i64;

    /// The metadata.
    fn metadata(&self) -> &MemoryMetadata;

    /// The content.
    fn content(&self) -> &MemoryContent;

    /// Checks the memory's required fields.
    fn validate(&self) -> Result<(), Error>;

    /// The entity form of the memory.
    fn to_entity(&self) -> (r: BaseEntity)
        requires
            self.entity_writable(),
        ensures
            r.wf(),
    ;

    /// Reads a memory from its entity form.
    fn from_entity(entity: BaseEntity) -> Result<Self, Error>
        requires
            entity.wf(),
    ;
}

impl Clone for BaseMemory {
    /// A copy holding the same values.
    fn clone(&self) -> (r: BaseMemory)
        ensures
            same_base_memory(r, *self),
    {
        BaseMemory {
            id: self.id.clone(),
            name: self.name.clone(),
            description: self.description.clone(),
            updated_at: self.updated_at,
            metadata: self.metadata.clone(),
            content: self.content.clone(),
        }
    }
}

impl BaseMemory {
    /// A memory of kind `memory_type`, updated now.
    pub fn new(id: &str, name: &str, description: &str, memory_type: MemoryTypeEnum, content: MemoryContent) -> (r: BaseMemory)
        ensures
            r.id@ == id@,
            r.name@ == name@,
            r.description@ == description@,
            is_fresh_metadata(r.metadata, memory_type_name(memory_type)),
            r.content == content,
    {
        BaseMemory {
            id: String::from_str(id),
            name: String::from_str(name),
            description: String::from_str(description),
            updated_at: now_millis(),
            metadata: MemoryMetadata::with_type(memory_type),
            content,
        }
    }
}

/// A memory node of the store. Times are milliseconds since the Unix
/// epoch; the embedding holds `f32` bit patterns.
#[derive(Debug)]
pub struct MemoryNode {
    /// Unique identifier for the memory
    pub id: String,
    /// Content of the memory
    pub content: MemoryContent,
    /// Kind of memory
    pub memory_type: MemoryTypeEnum,
    /// Creation time
    pub created_at: i64,
    /// Last update time
    pub updated_at: i64,
    /// Embedding vector, as `f32` bit patterns
    pub embedding: Option<Vec<u32>>,
    /// Metadata associated with the memory
    pub metadata: MemoryMetadata,
}

/// The text that marks an error node.
pub open spec fn error_marker() -> Seq<char> {
    "ERROR: "@
}

/// Whether two nodes hold the same values.
pub open spec fn same_node(a: MemoryNode, b: MemoryNode) -> bool {
    &&& a.id@ == b.id@
    &&& same_content(a.content, b.content)
    &&& a.memory_type == b.memory_type
    &&& a.created_at == b.created_at
    &&& a.updated_at == b.updated_at
    &&& opt_bits(a.embedding) == opt_bits(b.embedding)
    &&& same_metadata(a.metadata, b.metadata)
}

impl Clone for MemoryNode {
    /// A copy holding the same values.
    fn clone(&self) -> (r: MemoryNode)
        ensures
            same_node(r, *self),
    {
        MemoryNode {
            id: self.id.clone(),
            content: self.content.clone(),
            memory_type: self.memory_type,
            created_at: self.created_at,
            updated_at: self.updated_at,
            embedding: copy_opt_bits(&self.embedding),
            metadata: self.metadata.clone(),
        }
    }
}

impl MemoryNode {
    /// A new node of kind `memory_type` with a fresh random ID, created and
    /// updated now, without embedding.
    pub fn new(memory_type: MemoryTypeEnum, content: MemoryContent) -> (r: MemoryNode)
        ensures
            r.id@.len() == 36,
            r.content == content,
            r.memory_type == memory_type,
            r.created_at == r.updated_at,
            r.embedding is None,
            is_fresh_metadata(r.metadata, memory_type_name(memory_type)),
    {
        let id = new_uuid();
        MemoryNode::with_id(id, memory_type, content)
    }

    /// A new node with the given ID, created and updated now, without
    /// embedding.
    pub fn with_id(id: String, memory_type: MemoryTypeEnum, content: MemoryContent) -> (r: MemoryNode)
        ensures
            r.id == id,
            r.content == content,
            r.memory_type == memory_type,
            r.created_at == r.updated_at,
            r.embedding is None,
            is_fresh_metadata(r.metadata, memory_type_name(memory_type)),
    {
        let now = now_millis();
        MemoryNode {
            id,
            content,
            memory_type,
            created_at: now,
            updated_at: now,
            embedding: None,
            metadata: MemoryMetadata::with_memory_type(memory_type),
        }
    }

    /// Sets the embedding (as `f32` bit patterns).
    pub fn with_embedding(self, embedding: Vec<u32>) -> (r: MemoryNode)
        ensures
            r == (MemoryNode { embedding: Some(embedding), ..self }),
    {
        MemoryNode { embedding: Some(embedding), ..self }
    }

    /// Sets the importance (as an `f32` bit pattern).
    pub fn with_importance(self, importance: u32) -> (r: MemoryNode)
        ensures
            r == (MemoryNode { metadata: MemoryMetadata { importance, ..self.metadata }, ..self }),
    {
        let mut this = self;
        this.metadata.importance = importance;
        this
    }

    /// Sets one entry of the custom metadata.
    pub fn with_custom_metadata(self, key: String, value: serde_json::Value) -> (r: MemoryNode)
        ensures
            r == (MemoryNode {
                metadata: MemoryMetadata {
                    custom: with_custom_entry(self.metadata.custom, key@, value),
                    ..self.metadata
                },
                ..self
            }),
    {
        let mut this = self;
        this.metadata.set_custom(key.as_str(), value);
        this
    }

    /// Records an access now: sets the last access time and the update time.
    pub fn update_last_accessed(&mut self)
        ensures
            final(self).id == old(self).id,
            final(self).content == old(self).content,
            final(self).memory_type == old(self).memory_type,
            final(self).created_at == old(self).created_at,
            final(self).embedding == old(self).embedding,
            final(self).metadata == (MemoryMetadata {
                last_accessed_at: final(self).metadata.last_accessed_at,
                ..old(self).metadata
            }),
            final(self).metadata.last_accessed_at is Some,
    {
        self.metadata.last_accessed_at = Some(now_millis());
        self.updated_at = now_millis();
    }

    /// The importance (as an `f32` bit pattern).
    pub fn importance(&self) -> (r: u32)
        ensures
            r == self.metadata.importance,
    {
        self.metadata.importance
    }

    /// The last access time.
    pub fn last_accessed(&self) -> (r: Option<i64>)
        ensures
            r == self.metadata.last_accessed_at,
    {
        self.metadata.last_accessed_at
    }

    /// The node itself, as its base memory.
    pub fn base_memory(&self) -> (r: &MemoryNode)
        ensures
            *r == *self,
    {
        self
    }

    /// A node that carries an error: its content is "ERROR: " and the
    /// message; everything else is as for a default node.
    pub fn bad_chunk(error: String) -> (r: MemoryNode)
        ensures
            r.content.text@ == error_marker() + error@,
            r.memory_type == MemoryTypeEnum::LongTerm,
    {
        let mut node = MemoryNode::default();
        let mut text = String::from_str("ERROR: ");
        text.append(error.as_str());
        node.content = MemoryContent::new(text.as_str());
        node
    }

    /// The error text of a node whose content starts with "ERROR: " (the
    /// whole content), or `None`.
    pub fn error(&self) -> (r: Option<&str>)
        ensures
            has_prefix(self.content.text@, error_marker()) ==> (r matches Some(t) && t@ == self.content.text@),
            !has_prefix(self.content.text@, error_marker()) ==> r is None,
    {
        if starts_with(self.content.text.as_str(), "ERROR: ") {
            Some(self.content.text.as_str())
        } else {
            None
        }
    }
}

impl Default for MemoryNode {
    /// A long-term node with empty content, a fresh random ID, created and
    /// updated now.
    fn default() -> (r: MemoryNode)
        ensures
            r.id@.len() == 36,
            is_text_content(r.content, Seq::<char>::empty()),
            r.memory_type == MemoryTypeEnum::LongTerm,
            r.created_at == r.updated_at,
            r.embedding is None,
            is_fresh_metadata(r.metadata, "general"@),
    {
        let now = now_millis();
        MemoryNode {
            id: new_uuid(),
            content: MemoryContent::default(),
            memory_type: MemoryTypeEnum::LongTerm,
            created_at: now,
            updated_at: now,
            embedding: None,
            metadata: MemoryMetadata::default(),
        }
    }
}

/// An error node reports its own content as its error.
pub proof fn lemma_bad_chunk_reports_error(error: Seq<char>, text: Seq<char>)
    requires
        text == error_marker() + error,
    ensures
        has_prefix(text, error_marker()),
{
    assert(text.subrange(0, error_marker().len() as int) =~= error_marker());
}

/// A relationship between two memory nodes.
#[derive(Debug)]
pub struct MemoryRelationship {
    /// Unique identifier for the relationship
    pub id: String,
    /// ID of the source memory node
    pub source_id: String,
    /// ID of the target memory node
    pub target_id: String,
    /// Kind of relationship
    pub relationship_type: String,
    /// Additional metadata
    pub metadata: Option<serde_json::Value>,
}

impl Clone for MemoryRelationship {
    /// A copy holding the same values.
    fn clone(&self) -> (r: MemoryRelationship)
        ensures
            r == *self,
    {
        MemoryRelationship {
            id: self.id.clone(),
            source_id: self.source_id.clone(),
            target_id: self.target_id.clone(),
            relationship_type: self.relationship_type.clone(),
            metadata: match &self.metadata {
                Some(m) => Some(clone_json(m)),
                None => None,
            },
        }
    }
}

impl MemoryRelationship {
    /// A relationship with a fresh random ID and no metadata.
    pub fn new(source_id: String, target_id: String, relationship_type: String) -> (r: MemoryRelationship)
        ensures
            r.id@.len() == 36,
            r.source_id == source_id,
            r.target_id == target_id,
            r.relationship_type == relationship_type,
            r.metadata is None,
    {
        MemoryRelationship::with_id(new_uuid(), source_id, target_id, relationship_type)
    }

    /// A relationship with the given ID and no metadata.
    pub fn with_id(id: String, source_id: String, target_id: String, relationship_type: String) -> (r: MemoryRelationship)
        ensures
            r == (MemoryRelationship { id, source_id, target_id, relationship_type, metadata: None }),
    {
        MemoryRelationship { id, source_id, target_id, relationship_type, metadata: None }
    }

    /// Sets the metadata.
    pub fn with_metadata(self, metadata: serde_json::Value) -> (r: MemoryRelationship)
        ensures
            r == (MemoryRelationship { metadata: Some(metadata), ..self }),
    {
        MemoryRelationship { metadata: Some(metadata), ..self }
    }

    /// A relationship that carries an error: source, target and kind are
    /// "error" and the metadata is `{"error": <error>}`.
    pub fn bad_chunk(error: String) -> (r: MemoryRelationship)
        ensures
            r.id@.len() == 36,
            r.source_id@ == "error"@,
            r.target_id@ == "error"@,
            r.relationship_type@ == "error"@,
            r.metadata == Some(json_error_object(error@)),
            json_error_field(r.metadata->0) == Some(error@),
    {
        let m = json_error(error.as_str());
        MemoryRelationship {
            id: new_uuid(),
            source_id: String::from_str("error"),
            target_id: String::from_str("error"),
            relationship_type: String::from_str("error"),
            metadata: Some(m),
        }
    }

    /// The text under "error" in the metadata, if there is one.
    pub fn error(&self) -> (r: Option<String>)
        ensures
            self.metadata is None ==> r is None,
            self.metadata matches Some(m) ==> (match r {
                Some(t) => json_error_field(m) == Some(t@),
                None => json_error_field(m) is None,
            }),
    {
        match &self.metadata {
            Some(m) => json_get_error(m),
            None => None,
        }
    }
}

impl Default for MemoryRelationship {
    /// An empty relationship of kind "unknown" with a fresh random ID.
    fn default() -> (r: MemoryRelationship)
        ensures
            r.id@.len() == 36,
            r.source_id@.len() == 0,
            r.target_id@.len() == 0,
            r.relationship_type@ == "unknown"@,
            r.metadata is None,
    {
        MemoryRelationship {
            id: new_uuid(),
            source_id: String::new(),
            target_id: String::new(),
            relationship_type: String::from_str("unknown"),
            metadata: None,
        }
    }
}


/// The attributes of a content's entity: its text, its image data when
/// there is one, and its custom fields as a JSON object. (Its embedding, a
/// list of floats, is written by the caller.)
pub open spec fn content_attributes(c: MemoryContent) -> Seq<(Seq<char>, serde_json::Value)> {
    let a = keyed_insert(Seq::empty(), "content_text"@, json_text(c.text@));
    let a = match c.image_data {
        Some(d) => keyed_insert(a, "content_image_data"@, json_text(d@)),
        None => a,
    };
    keyed_insert(a, "custom"@, json_object(c.custom@))
}

/// The entries of the attribute `key` when it is a JSON object, none
/// otherwise.
pub open spec fn fields_attr(s: Seq<(Seq<char>, serde_json::Value)>, key: Seq<char>) -> Seq<(Seq<char>, serde_json::Value)> {
    match keyed_get(s, key) {
        Some(v) => match json_fields_of(v) {
            Some(f) => f,
            None => Seq::empty(),
        },
        None => Seq::empty(),
    }
}

/// The texts of the attribute `key` when it is a list of strings.
pub open spec fn text_list_attr(s: Seq<(Seq<char>, serde_json::Value)>, key: Seq<char>) -> Option<Seq<Seq<char>>> {
    match keyed_get(s, key) {
        Some(v) => json_text_list_of(v),
        None => None,
    }
}

/// Whether `c` is the content read from these attributes (its embedding,
/// a list of floats, is read by the caller).
pub open spec fn read_content(c: MemoryContent, s: Seq<(Seq<char>, serde_json::Value)>) -> bool {
    &&& Some(c.text@) == text_property(s, "content_text"@)
    &&& c.embedding is None
    &&& opt_view(c.image_data) == text_property(s, "content_image_data"@)
    &&& opt_view(c.audio_data) == text_property(s, "content_audio"@)
    &&& opt_view(c.video_data) == text_property(s, "content_video"@)
    &&& c.custom@ == fields_attr(s, "custom"@)
    &&& c.custom.wf()
}

/// What a content's attributes hold: its text, its image when there is
/// one, and its custom data as a JSON object.
proof fn lemma_content_attributes_get(c: MemoryContent)
    ensures
        keys_unique(content_attributes(c)),
        keyed_get(content_attributes(c), "content_text"@) == Some(json_text(c.text@)),
        keyed_get(content_attributes(c), "content_image_data"@) == (match c.image_data {
            Some(d) => Some(json_text(d@)),
            None => None,
        }),
        keyed_get(content_attributes(c), "custom"@) == Some(json_object(c.custom@)),
{
    reveal_strlit("content_text");
    reveal_strlit("content_image_data");
    reveal_strlit("custom");
    assert("content_text"@.len() == 12 && "content_image_data"@.len() == 18 && "custom"@.len() == 6);
    let e = Seq::<(Seq<char>, serde_json::Value)>::empty();
    let t = json_text(c.text@);
    let u = json_object(c.custom@);
    let a1 = keyed_insert(e, "content_text"@, t);
    lemma_insert_keeps_others(e, "content_text"@, t);
    match c.image_data {
        Some(d) => {
            let i = json_text(d@);
            let a2 = keyed_insert(a1, "content_image_data"@, i);
            lemma_insert_keeps_others(a1, "content_image_data"@, i);
            lemma_insert_keeps_others(a2, "custom"@, u);
        },
        None => {
            lemma_insert_keeps_others(a1, "custom"@, u);
        },
    }
}

impl MemoryContent {
    /// The attributes of this content's entity.
    pub fn to_entity(&self) -> (r: FieldMap)
        ensures
            r.wf(),
            r@ == content_attributes(*self),
            text_property(r@, "content_text"@) == Some(self.text@),
            text_property(r@, "content_image_data"@) == opt_view(self.image_data),
    {
        let mut map = FieldMap::new();
        map.insert(String::from_str("content_text"), json_from_str(self.text.as_str()));
        match &self.image_data {
            Some(d) => map.insert(String::from_str("content_image_data"), json_from_str(d.as_str())),
            None => {},
        }
        map.insert(String::from_str("custom"), json_from_fields(&self.custom));
        proof {
            lemma_content_attributes_get(*self);
        }
        map
    }

    /// Reads content from entity attributes: the text is required; the
    /// image, audio and video data are read when they are strings, the
    /// custom fields when they form an object.
    pub fn from_entity(attributes: &FieldMap) -> (r: Result<MemoryContent, Error>)
        requires
            attributes.wf(),
        ensures
            r is Ok <==> text_property(attributes@, "content_text"@) is Some,
            r matches Ok(c) ==> read_content(c, attributes@),
            r is Err ==> (r matches Err(Error::ConversionError(m)) && m@ == "Missing content_text"@),
    {
        let text = match attributes.get("content_text") {
            Some(v) => json_as_str(v),
            None => None,
        };
        let text = match text {
            Some(t) => t,
            None => {
                return Err(Error::ConversionError(String::from_str("Missing content_text")));
            },
        };
        let image_data = text_field(attributes, "content_image_data");
        let audio_data = text_field(attributes, "content_audio");
        let video_data = text_field(attributes, "content_video");
        let custom = match attributes.get("custom") {
            Some(v) => match json_as_fields(v) {
                Some(f) => f,
                None => FieldMap::new(),
            },
            None => FieldMap::new(),
        };
        Ok(MemoryContent { text, embedding: None, image_data, audio_data, video_data, custom })
    }
}

/// The text of the attribute `key`, when it is a JSON string.
fn text_field(attributes: &FieldMap, key: &str) -> (r: Option<String>)
    requires
        attributes.wf(),
    ensures
        opt_view(r) == text_property(attributes@, key@),
{
    match attributes.get(key) {
        Some(v) => json_as_str(v),
        None => None,
    }
}

/// The RFC 3339 text of an optional instant.
pub open spec fn opt_time_text(o: Option<i64>) -> Option<Seq<char>> {
    match o {
        Some(t) => Some(rfc3339_of(t)),
        None => None,
    }
}

/// Whether an instant can be written by the time library.
pub open spec fn writable_time(t: i64) -> bool {
    TIME_MIN_MS <= t <= TIME_MAX_MS
}

/// The attributes of a base memory's entity before its content's: its
/// name, description and update time, then its metadata field by field.
#[verifier::opaque]
pub open spec fn memory_fields(m: BaseMemory) -> Seq<(Seq<char>, serde_json::Value)> {
    let a = keyed_insert(Seq::empty(), "name"@, json_text(m.name@));
    let a = keyed_insert(a, "description"@, json_text(m.description@));
    let a = keyed_insert(a, "updated_at"@, json_text(rfc3339_of(m.updated_at)));
    let a = keyed_insert(a, "user_id"@, json_opt_text(opt_view(m.metadata.user_id)));
    let a = keyed_insert(a, "agent_id"@, json_opt_text(opt_view(m.metadata.agent_id)));
    let a = keyed_insert(a, "context"@, json_text(m.metadata.context@));
    let a = keyed_insert(a, "keywords"@, json_text_list(string_views(m.metadata.keywords@)));
    let a = keyed_insert(a, "tags"@, json_text_list(string_views(m.metadata.tags@)));
    let a = keyed_insert(a, "category"@, json_text(m.metadata.category@));
    let a = keyed_insert(a, "source"@, json_opt_text(opt_view(m.metadata.source)));
    let a = keyed_insert(a, "created_at"@, json_text(rfc3339_of(m.metadata.created_at)));
    let a = keyed_insert(a, "last_accessed_at"@, json_opt_text(opt_time_text(m.metadata.last_accessed_at)));
    keyed_insert(a, "custom"@, m.metadata.custom)
}

/// The attributes of a base memory's entity: those of `memory_fields`,
/// then its content's attributes (whose "custom" entry replaces the
/// metadata's). The importance and embedding, which are floats, are
/// written by the caller.
pub open spec fn base_memory_attributes(m: BaseMemory) -> Seq<(Seq<char>, serde_json::Value)> {
    inserted_all(memory_fields(m), content_attributes(m.content))
}

/// Whether `m` is the memory read from an entity with ID `id` and these
/// attributes, `fresh` being the fresh metadata it started from. (The
/// importance, a float, is read by the caller.)
pub open spec fn read_base_memory(m: BaseMemory, id: Seq<char>, s: Seq<(Seq<char>, serde_json::Value)>, fresh: MemoryMetadata) -> bool {
    &&& m.id@ == id
    &&& m.name@ == (match text_property(s, "name"@) { Some(t) => t, None => Seq::empty() })
    &&& m.description@ == (match text_property(s, "description"@) { Some(t) => t, None => Seq::empty() })
    &&& text_property(s, "updated_at"@) matches Some(t) && rfc3339_ms_of(t) == Some(m.updated_at)
    &&& opt_view(m.metadata.user_id) == text_property(s, "user_id"@)
    &&& opt_view(m.metadata.agent_id) == text_property(s, "agent_id"@)
    &&& m.metadata.context@ == (match text_property(s, "context"@) { Some(t) => t, None => "default"@ })
    &&& m.metadata.category@ == (match text_property(s, "category"@) { Some(t) => t, None => "general"@ })
    &&& opt_view(m.metadata.source) == text_property(s, "source"@)
    &&& m.metadata.created_at == (match text_property(s, "created_at"@) {
        Some(t) => match rfc3339_ms_of(t) {
            Some(ms) => ms,
            None => fresh.created_at,
        },
        None => fresh.created_at,
    })
    &&& string_views(m.metadata.keywords@) == (match text_list_attr(s, "keywords"@) { Some(l) => l, None => Seq::empty() })
    &&& string_views(m.metadata.tags@) == (match text_list_attr(s, "tags"@) { Some(l) => l, None => Seq::empty() })
    &&& m.metadata.custom == (match keyed_get(s, "custom"@) { Some(v) => v, None => json_object(Seq::empty()) })
    &&& m.metadata.importance == DEFAULT_IMPORTANCE_BITS
    &&& m.metadata.last_accessed_at is None
    &&& m.metadata.embedding is None
    &&& read_content(m.content, s)
}

/// Whether the attributes `s` read back as the base memory `m`: every field
/// that `from_entity` takes from them holds `m`'s value, except the
/// metadata's custom data, under whose name the content's custom data
/// stands.
pub open spec fn base_memory_readable(s: Seq<(Seq<char>, serde_json::Value)>, m: BaseMemory) -> bool {
    &&& text_property(s, "name"@) == Some(m.name@)
    &&& text_property(s, "description"@) == Some(m.description@)
    &&& text_property(s, "updated_at"@) matches Some(t) && rfc3339_ms_of(t) == Some(m.updated_at)
    &&& text_property(s, "user_id"@) == opt_view(m.metadata.user_id)
    &&& text_property(s, "agent_id"@) == opt_view(m.metadata.agent_id)
    &&& text_property(s, "context"@) == Some(m.metadata.context@)
    &&& text_list_attr(s, "keywords"@) == Some(string_views(m.metadata.keywords@))
    &&& text_list_attr(s, "tags"@) == Some(string_views(m.metadata.tags@))
    &&& text_property(s, "category"@) == Some(m.metadata.category@)
    &&& text_property(s, "source"@) == opt_view(m.metadata.source)
    &&& text_property(s, "created_at"@) matches Some(t) && rfc3339_ms_of(t) == Some(m.metadata.created_at)
    &&& text_property(s, "content_text"@) == Some(m.content.text@)
    &&& text_property(s, "content_image_data"@) == opt_view(m.content.image_data)
    &&& keyed_get(s, "custom"@) == Some(json_object(m.content.custom@))
}

/// The entries of a content's attributes, in the order they are written.
proof fn lemma_content_attributes_shape(c: MemoryContent)
    ensures
        content_attributes(c) == (match c.image_data {
            Some(d) => seq![
                ("content_text"@, json_text(c.text@)),
                ("content_image_data"@, json_text(d@)),
                ("custom"@, json_object(c.custom@)),
            ],
            None => seq![("content_text"@, json_text(c.text@)), ("custom"@, json_object(c.custom@))],
        }),
{
    reveal_strlit("content_text");
    reveal_strlit("content_image_data");
    reveal_strlit("custom");
    let e = Seq::<(Seq<char>, serde_json::Value)>::empty();
    let t = ("content_text"@, json_text(c.text@));
    let u = ("custom"@, json_object(c.custom@));
    let a1 = keyed_insert(e, t.0, t.1);
    assert(a1 =~= seq![t]);
    assert("content_text"@.len() == 12 && "content_image_data"@.len() == 18 && "custom"@.len() == 6);
    match c.image_data {
        Some(d) => {
            let i = ("content_image_data"@, json_text(d@));
            let a2 = keyed_insert(a1, i.0, i.1);
            assert(!exists|j: int| 0 <= j < a1.len() && #[trigger] a1[j].0 == i.0);
            assert(a2 =~= seq![t, i]);
            assert(!exists|j: int| 0 <= j < a2.len() && #[trigger] a2[j].0 == u.0);
            assert(keyed_insert(a2, u.0, u.1) =~= seq![t, i, u]);
        },
        None => {
            assert(!exists|j: int| 0 <= j < a1.len() && #[trigger] a1[j].0 == u.0);
            assert(keyed_insert(a1, u.0, u.1) =~= seq![t, u]);
        },
    }
}

/// The field names of a base memory's entity are two by two distinct.
proof fn lemma_base_memory_keys()
    ensures
        "name"@ != "description"@, "name"@ != "updated_at"@, "name"@ != "user_id"@, "name"@ != "agent_id"@,
        "name"@ != "context"@, "name"@ != "keywords"@, "name"@ != "tags"@, "name"@ != "category"@,
        "name"@ != "source"@, "name"@ != "created_at"@, "name"@ != "last_accessed_at"@,
        "name"@ != "custom"@, "name"@ != "content_text"@, "name"@ != "content_image_data"@,
        "description"@ != "updated_at"@, "description"@ != "user_id"@, "description"@ != "agent_id"@,
        "description"@ != "context"@, "description"@ != "keywords"@, "description"@ != "tags"@,
        "description"@ != "category"@, "description"@ != "source"@, "description"@ != "created_at"@,
        "description"@ != "last_accessed_at"@, "description"@ != "custom"@,
        "description"@ != "content_text"@, "description"@ != "content_image_data"@,
        "updated_at"@ != "user_id"@, "updated_at"@ != "agent_id"@, "updated_at"@ != "context"@,
        "updated_at"@ != "keywords"@, "updated_at"@ != "tags"@, "updated_at"@ != "category"@,
        "updated_at"@ != "source"@, "updated_at"@ != "created_at"@, "updated_at"@ != "last_accessed_at"@,
        "updated_at"@ != "custom"@, "updated_at"@ != "content_text"@,
        "updated_at"@ != "content_image_data"@, "user_id"@ != "agent_id"@, "user_id"@ != "context"@,
        "user_id"@ != "keywords"@, "user_id"@ != "tags"@, "user_id"@ != "category"@,
        "user_id"@ != "source"@, "user_id"@ != "created_at"@, "user_id"@ != "last_accessed_at"@,
        "user_id"@ != "custom"@, "user_id"@ != "content_text"@, "user_id"@ != "content_image_data"@,
        "agent_id"@ != "context"@, "agent_id"@ != "keywords"@, "agent_id"@ != "tags"@,
        "agent_id"@ != "category"@, "agent_id"@ != "source"@, "agent_id"@ != "created_at"@,
        "agent_id"@ != "last_accessed_at"@, "agent_id"@ != "custom"@, "agent_id"@ != "content_text"@,
        "agent_id"@ != "content_image_data"@, "context"@ != "keywords"@, "context"@ != "tags"@,
        "context"@ != "category"@, "context"@ != "source"@, "context"@ != "created_at"@,
        "context"@ != "last_accessed_at"@, "context"@ != "custom"@, "context"@ != "content_text"@,
        "context"@ != "content_image_data"@, "keywords"@ != "tags"@, "keywords"@ != "category"@,
        "keywords"@ != "source"@, "keywords"@ != "created_at"@, "keywords"@ != "last_accessed_at"@,
        "keywords"@ != "custom"@, "keywords"@ != "content_text"@, "keywords"@ != "content_image_data"@,
        "tags"@ != "category"@, "tags"@ != "source"@, "tags"@ != "created_at"@,
        "tags"@ != "last_accessed_at"@, "tags"@ != "custom"@, "tags"@ != "content_text"@,
        "tags"@ != "content_image_data"@, "category"@ != "source"@, "category"@ != "created_at"@,
        "category"@ != "last_accessed_at"@, "category"@ != "custom"@, "category"@ != "content_text"@,
        "category"@ != "content_image_data"@, "source"@ != "created_at"@, "source"@ != "last_accessed_at"@,
        "source"@ != "custom"@, "source"@ != "content_text"@, "source"@ != "content_image_data"@,
        "created_at"@ != "last_accessed_at"@, "created_at"@ != "custom"@, "created_at"@ != "content_text"@,
        "created_at"@ != "content_image_data"@, "last_accessed_at"@ != "custom"@,
        "last_accessed_at"@ != "content_text"@, "last_accessed_at"@ != "content_image_data"@,
        "custom"@ != "content_text"@, "custom"@ != "content_image_data"@,
        "content_text"@ != "content_image_data"@,
{
    reveal_strlit("name");
    reveal_strlit("description");
    reveal_strlit("updated_at");
    reveal_strlit("user_id");
    reveal_strlit("agent_id");
    reveal_strlit("context");
    reveal_strlit("keywords");
    reveal_strlit("tags");
    reveal_strlit("category");
    reveal_strlit("source");
    reveal_strlit("created_at");
    reveal_strlit("last_accessed_at");
    reveal_strlit("custom");
    reveal_strlit("content_text");
    reveal_strlit("content_image_data");
    assert("name"@.len() == 4 && "description"@.len() == 11 && "updated_at"@.len() == 10 && "user_id"@.len() == 7 && "agent_id"@.len() == 8 && "context"@.len() == 7 && "keywords"@.len() == 8 && "tags"@.len() == 4);
    assert("category"@.len() == 8 && "source"@.len() == 6 && "created_at"@.len() == 10 && "last_accessed_at"@.len() == 16 && "custom"@.len() == 6 && "content_text"@.len() == 12 && "content_image_data"@.len() == 18);
    assert("name"@[0] != "tags"@[0]);
    assert("user_id"@[0] != "context"@[0]);
    assert("agent_id"@[0] != "keywords"@[0] && "agent_id"@[0] != "category"@[0] && "keywords"@[0] != "category"@[0]);
    assert("source"@[0] != "custom"@[0]);
    assert("updated_at"@[0] != "created_at"@[0]);
}

/// What the fields written before a base memory's content hold, and that
/// their names are distinct.
#[verifier::spinoff_prover]
#[verifier::rlimit(40)]
proof fn lemma_memory_fields_get(m: BaseMemory)
    ensures
        keys_unique(memory_fields(m)),
        keyed_get(memory_fields(m), "name"@) == Some(json_text(m.name@)),
        keyed_get(memory_fields(m), "description"@) == Some(json_text(m.description@)),
        keyed_get(memory_fields(m), "updated_at"@) == Some(json_text(rfc3339_of(m.updated_at))),
        keyed_get(memory_fields(m), "user_id"@) == Some(json_opt_text(opt_view(m.metadata.user_id))),
        keyed_get(memory_fields(m), "agent_id"@) == Some(json_opt_text(opt_view(m.metadata.agent_id))),
        keyed_get(memory_fields(m), "context"@) == Some(json_text(m.metadata.context@)),
        keyed_get(memory_fields(m), "keywords"@) == Some(json_text_list(string_views(m.metadata.keywords@))),
        keyed_get(memory_fields(m), "tags"@) == Some(json_text_list(string_views(m.metadata.tags@))),
        keyed_get(memory_fields(m), "category"@) == Some(json_text(m.metadata.category@)),
        keyed_get(memory_fields(m), "source"@) == Some(json_opt_text(opt_view(m.metadata.source))),
        keyed_get(memory_fields(m), "created_at"@) == Some(json_text(rfc3339_of(m.metadata.created_at))),
        keyed_get(memory_fields(m), "last_accessed_at"@) == Some(json_opt_text(opt_time_text(m.metadata.last_accessed_at))),
        keyed_get(memory_fields(m), "custom"@) == Some(m.metadata.custom),
        keyed_get(memory_fields(m), "content_image_data"@) is None,
{
    reveal(memory_fields);
    lemma_base_memory_keys();
    let a0 = Seq::<(Seq<char>, serde_json::Value)>::empty();
    let a1 = keyed_insert(a0, "name"@, json_text(m.name@));
    lemma_insert_keeps_others(a0, "name"@, json_text(m.name@));
    let a2 = keyed_insert(a1, "description"@, json_text(m.description@));
    lemma_insert_keeps_others(a1, "description"@, json_text(m.description@));
    let a3 = keyed_insert(a2, "updated_at"@, json_text(rfc3339_of(m.updated_at)));
    lemma_insert_keeps_others(a2, "updated_at"@, json_text(rfc3339_of(m.updated_at)));
    let a4 = keyed_insert(a3, "user_id"@, json_opt_text(opt_view(m.metadata.user_id)));
    lemma_insert_keeps_others(a3, "user_id"@, json_opt_text(opt_view(m.metadata.user_id)));
    let a5 = keyed_insert(a4, "agent_id"@, json_opt_text(opt_view(m.metadata.agent_id)));
    lemma_insert_keeps_others(a4, "agent_id"@, json_opt_text(opt_view(m.metadata.agent_id)));
    let a6 = keyed_insert(a5, "context"@, json_text(m.metadata.context@));
    lemma_insert_keeps_others(a5, "context"@, json_text(m.metadata.context@));
    let a7 = keyed_insert(a6, "keywords"@, json_text_list(string_views(m.metadata.keywords@)));
    lemma_insert_keeps_others(a6, "keywords"@, json_text_list(string_views(m.metadata.keywords@)));
    let a8 = keyed_insert(a7, "tags"@, json_text_list(string_views(m.metadata.tags@)));
    lemma_insert_keeps_others(a7, "tags"@, json_text_list(string_views(m.metadata.tags@)));
    let a9 = keyed_insert(a8, "category"@, json_text(m.metadata.category@));
    lemma_insert_keeps_others(a8, "category"@, json_text(m.metadata.category@));
    let a10 = keyed_insert(a9, "source"@, json_opt_text(opt_view(m.metadata.source)));
    lemma_insert_keeps_others(a9, "source"@, json_opt_text(opt_view(m.metadata.source)));
    let a11 = keyed_insert(a10, "created_at"@, json_text(rfc3339_of(m.metadata.created_at)));
    lemma_insert_keeps_others(a10, "created_at"@, json_text(rfc3339_of(m.metadata.created_at)));
    let a12 = keyed_insert(a11, "last_accessed_at"@, json_opt_text(opt_time_text(m.metadata.last_accessed_at)));
    lemma_insert_keeps_others(a11, "last_accessed_at"@, json_opt_text(opt_time_text(m.metadata.last_accessed_at)));
    let a13 = keyed_insert(a12, "custom"@, m.metadata.custom);
    lemma_insert_keeps_others(a12, "custom"@, m.metadata.custom);
    assert(memory_fields(m) == a13);
}

/// Writing a content's attributes over `s` sets its text, then its image
/// when there is one, then its custom data.
proof fn lemma_inserted_content(s: Seq<(Seq<char>, serde_json::Value)>, c: MemoryContent)
    ensures
        inserted_all(s, content_attributes(c)) == (match c.image_data {
            Some(d) => keyed_insert(
                keyed_insert(keyed_insert(s, "content_text"@, json_text(c.text@)), "content_image_data"@, json_text(d@)),
                "custom"@,
                json_object(c.custom@),
            ),
            None => keyed_insert(keyed_insert(s, "content_text"@, json_text(c.text@)), "custom"@, json_object(c.custom@)),
        }),
{
    lemma_content_attributes_shape(c);
    let ca = content_attributes(c);
    let t = ("content_text"@, json_text(c.text@));
    let u = ("custom"@, json_object(c.custom@));
    reveal_with_fuel(inserted_all, 4);
    match c.image_data {
        Some(d) => {
            let i = ("content_image_data"@, json_text(d@));
            assert(ca.drop_last() =~= seq![t, i]);
            assert(ca.drop_last().drop_last() =~= seq![t]);
            assert(ca.drop_last().drop_last().drop_last() =~= Seq::<(Seq<char>, serde_json::Value)>::empty());
        },
        None => {
            assert(ca.drop_last() =~= seq![t]);
            assert(ca.drop_last().drop_last() =~= Seq::<(Seq<char>, serde_json::Value)>::empty());
        },
    }
}

/// What the fields of a base memory's entity hold: each field written
/// holds the value written last under its name.
#[verifier::spinoff_prover]
#[verifier::rlimit(40)]
proof fn lemma_base_memory_attributes_get(m: BaseMemory)
    ensures
        keyed_get(base_memory_attributes(m), "name"@) == Some(json_text(m.name@)),
        keyed_get(base_memory_attributes(m), "description"@) == Some(json_text(m.description@)),
        keyed_get(base_memory_attributes(m), "updated_at"@) == Some(json_text(rfc3339_of(m.updated_at))),
        keyed_get(base_memory_attributes(m), "user_id"@) == Some(json_opt_text(opt_view(m.metadata.user_id))),
        keyed_get(base_memory_attributes(m), "agent_id"@) == Some(json_opt_text(opt_view(m.metadata.agent_id))),
        keyed_get(base_memory_attributes(m), "context"@) == Some(json_text(m.metadata.context@)),
        keyed_get(base_memory_attributes(m), "keywords"@) == Some(json_text_list(string_views(m.metadata.keywords@))),
        keyed_get(base_memory_attributes(m), "tags"@) == Some(json_text_list(string_views(m.metadata.tags@))),
        keyed_get(base_memory_attributes(m), "category"@) == Some(json_text(m.metadata.category@)),
        keyed_get(base_memory_attributes(m), "source"@) == Some(json_opt_text(opt_view(m.metadata.source))),
        keyed_get(base_memory_attributes(m), "created_at"@) == Some(json_text(rfc3339_of(m.metadata.created_at))),
        keyed_get(base_memory_attributes(m), "content_text"@) == Some(json_text(m.content.text@)),
        keyed_get(base_memory_attributes(m), "content_image_data"@) == (match m.content.image_data {
            Some(d) => Some(json_text(d@)),
            None => None,
        }),
        keyed_get(base_memory_attributes(m), "custom"@) == Some(json_object(m.content.custom@)),
{
    lemma_base_memory_keys();
    lemma_memory_fields_get(m);
    let a = memory_fields(m);
    let t = json_text(m.content.text@);
    let u = json_object(m.content.custom@);
    lemma_inserted_content(a, m.content);
    let b1 = keyed_insert(a, "content_text"@, t);
    lemma_insert_keeps_others(a, "content_text"@, t);
    match m.content.image_data {
        Some(d) => {
            let b2 = keyed_insert(b1, "content_image_data"@, json_text(d@));
            lemma_insert_keeps_others(b1, "content_image_data"@, json_text(d@));
            lemma_insert_keeps_others(b2, "custom"@, u);
        },
        None => {
            lemma_insert_keeps_others(b1, "custom"@, u);
        },
    }
}

impl MemoryType for BaseMemory {
    /// The update time, the metadata's creation time and its last access
    /// time (when there is one) are within the time library's range.
    open spec fn entity_writable(&self) -> bool {
        &&& writable_time(self.updated_at)
        &&& writable_time(self.metadata.created_at)
        &&& self.metadata.last_accessed_at matches Some(t) ==> writable_time(t)
    }

    fn id(&self) -> (r: &str)
        ensures
            r@ == self.id@,
    {
        self.id.as_str()
    }

    fn name(&self) -> (r: &str)
        ensures
            r@ == self.name@,
    {
        self.name.as_str()
    }

    fn description(&self) -> (r: &str)
        ensures
            r@ == self.description@,
    {
        self.description.as_str()
    }

    fn updated_at(&self) -> (r: i64)
        ensures
            r == self.updated_at,
    {
        self.updated_at
    }

    fn metadata(&self) -> (r: &MemoryMetadata)
        ensures
            *r == self.metadata,
    {
        &self.metadata
    }

    fn content(&self) -> (r: &MemoryContent)
        ensures
            *r == self.content,
    {
        &self.content
    }

    /// Checks that the ID, the name and the content text are not empty, in
    /// that order, refusing the first empty one with `InvalidInput`.
    fn validate(&self) -> (r: Result<(), Error>)
        ensures
            self.id@.len() == 0 ==> (r matches Err(Error::InvalidInput(m)) && m@ == "Memory ID cannot be empty"@),
            self.id@.len() > 0 && self.name@.len() == 0 ==> (r matches Err(Error::InvalidInput(m)) && m@
                == "Memory name cannot be empty"@),
            self.id@.len() > 0 && self.name@.len() > 0 && self.content.text@.len() == 0 ==> (r matches Err(
                Error::InvalidInput(m),
            ) && m@ == "Memory content text cannot be empty"@),
            self.id@.len() > 0 && self.name@.len() > 0 && self.content.text@.len() > 0 ==> r is Ok,
    {
        if self.id.as_str().unicode_len() == 0 {
            return Err(Error::InvalidInput(String::from_str("Memory ID cannot be empty")));
        }
        if self.name.as_str().unicode_len() == 0 {
            return Err(Error::InvalidInput(String::from_str("Memory name cannot be empty")));
        }
        if self.content.text.as_str().unicode_len() == 0 {
            return Err(Error::InvalidInput(String::from_str("Memory content text cannot be empty")));
        }
        Ok(())
    }

    /// The entity of this memory, of type "memory_<category>", with the
    /// attributes of `base_memory_attributes`.
    fn to_entity(&self) -> (r: BaseEntity)
        ensures
            r.wf(),
            r.id_view() == self.id@,
            r.type_view() == "memory_"@ + self.metadata.category@,
            r.attrs() == base_memory_attributes(*self),
            RFC3339_MIN_MS <= self.updated_at <= RFC3339_MAX_MS && RFC3339_MIN_MS <= self.metadata.created_at
                <= RFC3339_MAX_MS ==> base_memory_readable(r.attrs(), *self),
    {
        let mut e = BaseEntity::new(self.id.clone(), message("memory_", self.metadata.category.as_str()));
        proof {
            reveal(memory_fields);
            assert(e.attrs() =~= Seq::<(Seq<char>, serde_json::Value)>::empty());
        }
        e = e.with_attribute("name", json_from_str(self.name.as_str()));
        e = e.with_attribute("description", json_from_str(self.description.as_str()));
        let updated = rfc3339_text(self.updated_at);
        e = e.with_attribute("updated_at", json_from_str(updated.as_str()));
        e = e.with_attribute("user_id", json_from_opt_str(&self.metadata.user_id));
        e = e.with_attribute("agent_id", json_from_opt_str(&self.metadata.agent_id));
        e = e.with_attribute("context", json_from_str(self.metadata.context.as_str()));
        e = e.with_attribute("keywords", json_from_strings(&self.metadata.keywords));
        e = e.with_attribute("tags", json_from_strings(&self.metadata.tags));
        e = e.with_attribute("category", json_from_str(self.metadata.category.as_str()));
        e = e.with_attribute("source", json_from_opt_str(&self.metadata.source));
        let created = rfc3339_text(self.metadata.created_at);
        e = e.with_attribute("created_at", json_from_str(created.as_str()));
        let accessed: Option<String> = match self.metadata.last_accessed_at {
            Some(t) => Some(rfc3339_text(t)),
            None => None,
        };
        e = e.with_attribute("last_accessed_at", json_from_opt_str(&accessed));
        e = e.with_attribute("custom", clone_json(&self.metadata.custom));
        let content = self.content.to_entity();
        let ghost base = e.attrs();
        let n = content.len();
        let mut i: usize = 0;
        while i < n
            invariant
                n == content@.len(),
                i <= n,
                e.wf(),
                e.id_view() == self.id@,
                e.type_view() == "memory_"@ + self.metadata.category@,
                e.attrs() == inserted_all(base, content@.subrange(0, i as int)),
            decreases n - i,
        {
            e = e.with_attribute(content.key_at(i).as_str(), clone_json(content.value_at(i)));
            proof {
                let part = content@.subrange(0, i + 1);
                assert(part.drop_last() =~= content@.subrange(0, i as int));
            }
            i = i + 1;
        }
        assert(content@.subrange(0, n as int) =~= content@);
        proof {
            lemma_base_memory_attributes_get(*self);
            lemma_content_attributes_get(self.content);
        }
        e
    }

    /// Reads a memory from an entity whose type is "memory_" followed by a
    /// memory kind: the name, description and update time must be there
    /// (the time in RFC 3339), the metadata starts fresh and takes each
    /// field that is there and readable, and the content is read as
    /// `MemoryContent::from_entity` does.
    fn from_entity(entity: BaseEntity) -> (r: Result<BaseMemory, Error>)
        ensures
            !has_prefix(entity.type_view(), "memory_"@) ==> (r matches Err(Error::ConversionError(m))
                && m@ == "Invalid entity type for memory: "@ + entity.type_view()),
            has_prefix(entity.type_view(), "memory_"@) ==> ({
                let a = entity.attrs();
                let kind = crate::types::memory_type_named(entity.type_view().subrange(7, entity.type_view().len() as int));
                &&& kind is None ==> (r matches Err(Error::InvalidInput(m))
                    && m@ == "Invalid memory type: "@ + entity.type_view().subrange(7, entity.type_view().len() as int))
                &&& kind is Some && keyed_get(a, "name"@) is None ==> (r matches Err(Error::ConversionError(m))
                    && m@ == "Missing attribute 'name' in entity"@)
                &&& kind is Some && keyed_get(a, "name"@) is Some && keyed_get(a, "description"@) is None ==> (
                    r matches Err(Error::ConversionError(m)) && m@ == "Missing attribute 'description' in entity"@)
                &&& kind is Some && keyed_get(a, "name"@) is Some && keyed_get(a, "description"@) is Some
                    && keyed_get(a, "updated_at"@) is None ==> (r matches Err(Error::ConversionError(m))
                    && m@ == "Missing attribute 'updated_at' in entity"@)
                &&& kind is Some && keyed_get(a, "name"@) is Some && keyed_get(a, "description"@) is Some
                    && keyed_get(a, "updated_at"@) is Some && !(text_property(a, "updated_at"@) matches Some(t)
                    && rfc3339_ms_of(t) is Some) ==> (r matches Err(Error::ConversionError(m))
                    && m@ == "Invalid format for updated_at"@)
                &&& kind is Some && keyed_get(a, "name"@) is Some && keyed_get(a, "description"@) is Some
                    && (text_property(a, "updated_at"@) matches Some(t) && rfc3339_ms_of(t) is Some)
                    && text_property(a, "content_text"@) is None ==> (r matches Err(Error::ConversionError(m))
                    && m@ == "Missing content_text"@)
                &&& kind is Some && keyed_get(a, "name"@) is Some && keyed_get(a, "description"@) is Some
                    && (text_property(a, "updated_at"@) matches Some(t) && rfc3339_ms_of(t) is Some)
                    && text_property(a, "content_text"@) is Some ==> (r matches Ok(m)
                    && exists|fresh: MemoryMetadata| is_fresh_metadata(fresh, "general"@)
                        && #[trigger] read_base_memory(m, entity.id_view(), a, fresh))
            }),
    {
        let entity_type = entity.entity_type();
        if !starts_with(entity_type, "memory_") {
            return Err(Error::ConversionError(message("Invalid entity type for memory: ", entity_type)));
        }
        proof {
            reveal_strlit("memory_");
        }
        let rest = suffix_from(entity_type, 7);
        match MemoryTypeEnum::from_string(rest.as_str()) {
            Ok(_) => {},
            Err(e) => {
                return Err(e);
            },
        }
        let name = match entity.get_attribute("name") {
            Some(v) => match json_as_str(v) {
                Some(t) => t,
                None => String::new(),
            },
            None => {
                return Err(Error::ConversionError(String::from_str("Missing attribute 'name' in entity")));
            },
        };
        let description = match entity.get_attribute("description") {
            Some(v) => match json_as_str(v) {
                Some(t) => t,
                None => String::new(),
            },
            None => {
                return Err(Error::ConversionError(String::from_str("Missing attribute 'description' in entity")));
            },
        };
        let updated_at = match entity.get_attribute("updated_at") {
            Some(v) => {
                let parsed = match json_as_str(v) {
                    Some(t) => parse_rfc3339_ms(t.as_str()),
                    None => None,
                };
                match parsed {
                    Some(ms) => ms,
                    None => {
                        return Err(Error::ConversionError(String::from_str("Invalid format for updated_at")));
                    },
                }
            },
            None => {
                return Err(Error::ConversionError(String::from_str("Missing attribute 'updated_at' in entity")));
            },
        };
        let attributes = entity.attributes();
        let mut metadata = MemoryMetadata::new();
        let ghost fresh = metadata;
        metadata.user_id = text_field(attributes, "user_id");
        metadata.agent_id = text_field(attributes, "agent_id");
        match text_field(attributes, "context") {
            Some(t) => metadata.context = t,
            None => {},
        }
        match text_field(attributes, "category") {
            Some(t) => metadata.category = t,
            None => {},
        }
        metadata.source = text_field(attributes, "source");
        match text_field(attributes, "created_at") {
            Some(t) => match parse_rfc3339_ms(t.as_str()) {
                Some(ms) => metadata.created_at = ms,
                None => {},
            },
            None => {},
        }
        match attributes.get("keywords") {
            Some(v) => match json_as_strings(v) {
                Some(l) => metadata.keywords = l,
                None => {},
            },
            None => {},
        }
        match attributes.get("tags") {
            Some(v) => match json_as_strings(v) {
                Some(l) => metadata.tags = l,
                None => {},
            },
            None => {},
        }
        match attributes.get("custom") {
            Some(v) => metadata.custom = clone_json(v),
            None => {},
        }
        let content = match MemoryContent::from_entity(attributes) {
            Ok(c) => c,
            Err(e) => {
                return Err(e);
            },
        };
        let m = BaseMemory { id: String::from_str(entity.id()), name, description, updated_at, metadata, content };
        proof {
            reveal_strlit("default");
            reveal_strlit("general");
            let a = entity.attrs();
            assert(string_views(fresh.keywords@) =~= Seq::<Seq<char>>::empty());
            assert(string_views(fresh.tags@) =~= Seq::<Seq<char>>::empty());
            assert(m.id@ == entity.id_view());
            assert(m.name@ == (match text_property(a, "name"@) { Some(t) => t, None => Seq::<char>::empty() }));
            assert(m.metadata.context@ == (match text_property(a, "context"@) { Some(t) => t, None => "default"@ }));
            assert(m.metadata.category@ == (match text_property(a, "category"@) { Some(t) => t, None => "general"@ }));
            assert(string_views(m.metadata.keywords@) == (match text_list_attr(a, "keywords"@) { Some(l) => l, None => Seq::<Seq<char>>::empty() }));
            assert(m.metadata.custom == (match keyed_get(a, "custom"@) { Some(v) => v, None => json_object(Seq::empty()) }));
            assert(read_content(m.content, a));
            assert(read_base_memory(m, entity.id_view(), entity.attrs(), fresh));
        }
        Ok(m)
    }
}


/// A base memory written as an entity and read back keeps its identifier,
/// name, description, update time, user, agent, context, keywords, tags,
/// category, source, creation time, content text and image; its metadata's
/// custom data reads back as the content's custom data, which is written
/// under the same name after it. The entity's type names the category
/// after "memory_", and the fields that reading requires are there.
pub proof fn lemma_base_memory_entity_roundtrip(
    m: BaseMemory,
    entity_type: Seq<char>,
    s: Seq<(Seq<char>, serde_json::Value)>,
    back: BaseMemory,
    fresh: MemoryMetadata,
)
    requires
        entity_type == "memory_"@ + m.metadata.category@,
        base_memory_readable(s, m),
        read_base_memory(back, m.id@, s, fresh),
    ensures
        has_prefix(entity_type, "memory_"@),
        entity_type.subrange(7, entity_type.len() as int) == m.metadata.category@,
        keyed_get(s, "name"@) is Some,
        keyed_get(s, "description"@) is Some,
        text_property(s, "updated_at"@) matches Some(t) && rfc3339_ms_of(t) is Some,
        text_property(s, "content_text"@) is Some,
        back.id@ == m.id@,
        back.name@ == m.name@,
        back.description@ == m.description@,
        back.updated_at == m.updated_at,
        opt_view(back.metadata.user_id) == opt_view(m.metadata.user_id),
        opt_view(back.metadata.agent_id) == opt_view(m.metadata.agent_id),
        back.metadata.context@ == m.metadata.context@,
        string_views(back.metadata.keywords@) == string_views(m.metadata.keywords@),
        string_views(back.metadata.tags@) == string_views(m.metadata.tags@),
        back.metadata.category@ == m.metadata.category@,
        opt_view(back.metadata.source) == opt_view(m.metadata.source),
        back.metadata.created_at == m.metadata.created_at,
        back.metadata.custom == json_object(m.content.custom@),
        back.content.text@ == m.content.text@,
        opt_view(back.content.image_data) == opt_view(m.content.image_data),
{
    reveal_strlit("memory_");
    assert(entity_type.subrange(0, 7) =~= "memory_"@);
    assert(entity_type.subrange(7, entity_type.len() as int) =~= m.metadata.category@);
}

/// The entries after setting "<prefix><item>" to the item as a JSON string,
/// for each item in turn.
pub open spec fn with_prefixed_texts(
    s: Seq<(Seq<char>, serde_json::Value)>,
    prefix: Seq<char>,
    items: Seq<Seq<char>>,
) -> Seq<(Seq<char>, serde_json::Value)>
    decreases items.len(),
{
    if items.len() == 0 {
        s
    } else {
        keyed_insert(with_prefixed_texts(s, prefix, items.drop_last()), prefix + items.last(), json_text(items.last()))
    }
}

/// Sets "<prefix><item>" to the item as a JSON string in `fields`, for each
/// item in turn.
fn insert_prefixed_texts(fields: &mut FieldMap, prefix: &str, items: &Vec<String>)
    requires
        old(fields).wf(),
    ensures
        final(fields).wf(),
        final(fields)@ == with_prefixed_texts(old(fields)@, prefix@, string_views(items@)),
{
    let n = items.len();
    let mut i: usize = 0;
    while i < n
        invariant
            n == items@.len(),
            i <= n,
            fields.wf(),
            fields@ == with_prefixed_texts(old(fields)@, prefix@, string_views(items@).subrange(0, i as int)),
        decreases n - i,
    {
        fields.insert(message(prefix, items[i].as_str()), json_from_str(items[i].as_str()));
        proof {
            let part = string_views(items@).subrange(0, i + 1);
            assert(part.drop_last() =~= string_views(items@).subrange(0, i as int));
            assert(part.last() == items@[i as int]@);
        }
        i = i + 1;
    }
    assert(string_views(items@).subrange(0, n as int) =~= string_views(items@));
}

/// The custom metadata that marks a new memory's keywords and tags:
/// "keyword_<k>" holding `k` for each keyword, then "tag_<t>" holding `t`
/// for each tag.
pub fn keyword_tag_fields(keywords: &Vec<String>, tags: &Vec<String>) -> (r: FieldMap)
    ensures
        r.wf(),
        r@ == with_prefixed_texts(
            with_prefixed_texts(Seq::empty(), "keyword_"@, string_views(keywords@)),
            "tag_"@,
            string_views(tags@),
        ),
{
    let mut fields = FieldMap::new();
    insert_prefixed_texts(&mut fields, "keyword_", keywords);
    insert_prefixed_texts(&mut fields, "tag_", tags);
    fields
}

} // verus!
