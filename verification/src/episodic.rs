//! Episodic memory: events with a timestamp, content and context, kept in
//! an ordered map by timestamp so that time-range queries are cheap.
use vstd::prelude::*;
use crossbeam_skiplist::SkipMap;
use crate::clock::now_millis;
use crate::error::{Error, debug_text, error_debug_text};
use crate::memory::{BaseMemory, MemoryContent, MemoryMetadata, MemoryType, same_content};
use crate::types::{MemoryTypeEnum, memory_type_name};
use crate::value::{FieldMap, keyed_insert, json_text, json_object, json_from_str, json_from_fields, json_as_str};
use crate::entity::{BaseEntity, text_property};

verus! {

/// The outcome of building an episodic memory, as a stream item: success,
/// or the message of the error.
#[derive(Debug)]
pub struct EpisodicMemoryChunk {
    /// Whether the memory was built
    pub success: bool,
    /// The error, when it was not
    pub error_message: Option<String>,
}

impl EpisodicMemoryChunk {
    /// The chunk for an outcome: success with no message, or failure with
    /// the error's debug rendering.
    pub fn new(result: Result<EpisodicMemory, Error>) -> (r: EpisodicMemoryChunk)
        ensures
            r.success == result is Ok,
            r.error_message is None <==> result is Ok,
            result matches Err(e) ==> (r.error_message matches Some(m) && m@ == error_debug_text(e)),
    {
        match result {
            Ok(_) => EpisodicMemoryChunk { success: true, error_message: None },
            Err(e) => EpisodicMemoryChunk { success: false, error_message: Some(debug_text(&e)) },
        }
    }

    /// A failed chunk carrying `error`.
    pub fn bad_chunk(error: String) -> (r: EpisodicMemoryChunk)
        ensures
            !r.success,
            r.error_message == Some(error),
    {
        EpisodicMemoryChunk { success: false, error_message: Some(error) }
    }

    /// The error message, if any.
    pub fn error(&self) -> (r: Option<&str>)
        ensures
            match self.error_message {
                Some(m) => r matches Some(t) && t@ == m@,
                None => r is None,
            },
    {
        match &self.error_message {
            Some(m) => Some(m.as_str()),
            None => None,
        }
    }
}

impl Default for EpisodicMemoryChunk {
    /// A failed chunk with the message "Default EpisodicMemoryChunk".
    fn default() -> (r: EpisodicMemoryChunk)
        ensures
            !r.success,
            r.error_message matches Some(m) && m@ == "Default EpisodicMemoryChunk"@,
    {
        EpisodicMemoryChunk::bad_chunk(String::from_str("Default EpisodicMemoryChunk"))
    }
}

/// A piece of context of an event (a place, a person, an object, ...).
#[derive(Debug)]
pub struct EpisodicContext {
    /// Unique identifier for the context
    pub id: String,
    /// Kind of context (e.g. "location", "person", "object")
    pub context_type: String,
    /// Value of the context
    pub value: String,
    /// Additional metadata
    pub metadata: FieldMap,
}

/// Whether two contexts hold the same values.
pub open spec fn same_context(a: EpisodicContext, b: EpisodicContext) -> bool {
    &&& a.id@ == b.id@
    &&& a.context_type@ == b.context_type@
    &&& a.value@ == b.value@
    &&& a.metadata@ == b.metadata@
}

impl Clone for EpisodicContext {
    /// A copy holding the same values.
    fn clone(&self) -> (r: EpisodicContext)
        ensures
            same_context(r, *self),
    {
        EpisodicContext {
            id: self.id.clone(),
            context_type: self.context_type.clone(),
            value: self.value.clone(),
            metadata: self.metadata.clone(),
        }
    }
}

impl EpisodicContext {
    /// A context with no metadata.
    pub fn new(id: &str, context_type: &str, value: &str) -> (r: EpisodicContext)
        ensures
            r.id@ == id@,
            r.context_type@ == context_type@,
            r.value@ == value@,
            r.metadata@.len() == 0,
            r.metadata.wf(),
    {
        EpisodicContext {
            id: String::from_str(id),
            context_type: String::from_str(context_type),
            value: String::from_str(value),
            metadata: FieldMap::new(),
        }
    }

    /// Sets the metadata entry `key` to `value`.
    pub fn with_metadata(self, key: &str, value: serde_json::Value) -> (r: EpisodicContext)
        requires
            self.metadata.wf(),
        ensures
            r.id == self.id,
            r.context_type == self.context_type,
            r.value == self.value,
            r.metadata.wf(),
            r.metadata@ == keyed_insert(self.metadata@, key@, value),
    {
        let mut this = self;
        this.metadata.insert(String::from_str(key), value);
        this
    }

    /// The context as a JSON object holding its ID, kind, value and
    /// metadata; this never fails.
    pub fn to_value(&self) -> (r: Result<serde_json::Value, Error>)
        ensures
            r == Ok::<serde_json::Value, Error>(json_object(context_fields(*self))),
    {
        let mut map = FieldMap::new();
        map.insert(String::from_str("id"), json_from_str(self.id.as_str()));
        map.insert(String::from_str("context_type"), json_from_str(self.context_type.as_str()));
        map.insert(String::from_str("value"), json_from_str(self.value.as_str()));
        map.insert(String::from_str("metadata"), json_from_fields(&self.metadata));
        Ok(json_from_fields(&map))
    }
}

/// The entries of a context's JSON object.
pub open spec fn context_fields(c: EpisodicContext) -> Seq<(Seq<char>, serde_json::Value)> {
    let a = keyed_insert(Seq::empty(), "id"@, json_text(c.id@));
    let a = keyed_insert(a, "context_type"@, json_text(c.context_type@));
    let a = keyed_insert(a, "value"@, json_text(c.value@));
    keyed_insert(a, "metadata"@, json_object(c.metadata@))
}

/// The offset basis of the 64-bit FNV-1a hash.
pub const FNV_OFFSET: u64 = 0xcbf2_9ce4_8422_2325;

/// The prime of the 64-bit FNV-1a hash.
pub const FNV_PRIME: u64 = 0x0000_0100_0000_01b3;

/// One step of the 64-bit FNV-1a hash: xor in the character's code point,
/// then multiply by the prime modulo 2^64.
pub open spec fn fnv_step(h: u64, c: char) -> u64 {
    (((h ^ (c as u64)) as nat * FNV_PRIME as nat) % 0x1_0000_0000_0000_0000nat) as u64
}

/// The 64-bit FNV-1a hash of a text, taken over its characters' code
/// points.
pub open spec fn fnv1a(s: Seq<char>) -> u64
    decreases s.len(),
{
    if s.len() == 0 {
        FNV_OFFSET
    } else {
        fnv_step(fnv1a(s.drop_last()), s.last())
    }
}

/// The content hash of a text, used to find duplicate events quickly.
/// The hash is this library's own: 64-bit FNV-1a over the text's code
/// points (`fnv1a`). Hashes stored by other software need not agree with
/// it, so deduplication by hash only finds what this library hashed.
pub fn content_hash(text: &str) -> (r: u64)
    ensures
        r == fnv1a(text@),
{
    let n = text.unicode_len();
    let mut h: u64 = FNV_OFFSET;
    let mut i: usize = 0;
    while i < n
        invariant
            n == text@.len(),
            i <= n,
            h == fnv1a(text@.subrange(0, i as int)),
        decreases n - i,
    {
        let c = text.get_char(i);
        proof {
            assert(text@.subrange(0, i + 1).drop_last() =~= text@.subrange(0, i as int));
            assert(text@.subrange(0, i + 1).last() == c);
        }
        let x: u64 = h ^ (c as u64);
        h = x.wrapping_mul(FNV_PRIME);
        i = i + 1;
    }
    assert(text@.subrange(0, n as int) =~= text@);
    h
}

/// An event of episodic memory. The timestamp is in milliseconds since the
/// Unix epoch.
#[derive(Debug)]
pub struct EpisodicEvent {
    /// Unique identifier for the event
    pub id: String,
    /// When the event happened
    pub timestamp: i64,
    /// Content of the event
    pub content: MemoryContent,
    /// Hash of the content text, for fast deduplication
    pub content_hash: u64,
    /// Context of the event
    pub context: Vec<EpisodicContext>,
    /// Additional metadata
    pub metadata: FieldMap,
}

/// Whether two lists of contexts hold the same values, in order.
pub open spec fn same_contexts(a: Seq<EpisodicContext>, b: Seq<EpisodicContext>) -> bool {
    &&& a.len() == b.len()
    &&& forall|i: int| 0 <= i < a.len() ==> same_context(#[trigger] a[i], b[i])
}

/// Whether two events hold the same values.
pub open spec fn same_event(a: EpisodicEvent, b: EpisodicEvent) -> bool {
    &&& a.id@ == b.id@
    &&& a.timestamp == b.timestamp
    &&& same_content(a.content, b.content)
    &&& a.content_hash == b.content_hash
    &&& same_contexts(a.context@, b.context@)
    &&& a.metadata@ == b.metadata@
}

impl Clone for EpisodicEvent {
    /// A copy holding the same values.
    fn clone(&self) -> (r: EpisodicEvent)
        ensures
            same_event(r, *self),
    {
        let n = self.context.len();
        let mut context: Vec<EpisodicContext> = Vec::new();
        let mut i: usize = 0;
        while i < n
            invariant
                n == self.context@.len(),
                i <= n,
                context@.len() == i,
                forall|j: int| 0 <= j < i ==> same_context(#[trigger] context@[j], self.context@[j]),
            decreases n - i,
        {
            context.push(self.context[i].clone());
            i = i + 1;
        }
        EpisodicEvent {
            id: self.id.clone(),
            timestamp: self.timestamp,
            content: self.content.clone(),
            content_hash: self.content_hash,
            context,
            metadata: self.metadata.clone(),
        }
    }
}

impl EpisodicEvent {
    /// An event happening now, with the hash of its content text and no
    /// context or metadata.
    pub fn new(id: &str, content: MemoryContent) -> (r: EpisodicEvent)
        ensures
            r.id@ == id@,
            r.content == content,
            r.content_hash == fnv1a(content.text@),
            r.context@.len() == 0,
            r.metadata@.len() == 0,
            r.metadata.wf(),
    {
        let content_hash = content_hash(content.text.as_str());
        EpisodicEvent {
            id: String::from_str(id),
            timestamp: now_millis(),
            content,
            content_hash,
            context: Vec::new(),
            metadata: FieldMap::new(),
        }
    }

    /// Adds a context last.
    pub fn with_context(self, context: EpisodicContext) -> (r: EpisodicEvent)
        ensures
            r.id == self.id,
            r.timestamp == self.timestamp,
            r.content == self.content,
            r.content_hash == self.content_hash,
            r.context@ == self.context@.push(context),
            r.metadata == self.metadata,
    {
        let mut this = self;
        this.context.push(context);
        this
    }

    /// Sets the metadata entry `key` to `value`.
    pub fn with_metadata(self, key: &str, value: serde_json::Value) -> (r: EpisodicEvent)
        requires
            self.metadata.wf(),
        ensures
            r.id == self.id,
            r.timestamp == self.timestamp,
            r.content == self.content,
            r.content_hash == self.content_hash,
            r.context == self.context,
            r.metadata.wf(),
            r.metadata@ == keyed_insert(self.metadata@, key@, value),
    {
        let mut this = self;
        this.metadata.insert(String::from_str(key), value);
        this
    }
}


/// The ordered concurrent map of `crossbeam_skiplist` that holds events by
/// timestamp.
#[verifier::external_type_specification]
#[verifier::external_body]
#[verifier::reject_recursive_types(K)]
#[verifier::reject_recursive_types(V)]
pub struct ExSkipMap<K, V>(SkipMap<K, V>);

/// An ordered map of events by timestamp.
pub type EventMap = SkipMap<i64, EpisodicEvent>;

/// The events held in an event map, by timestamp.
pub uninterp spec fn event_log(m: EventMap) -> Map<i64, EpisodicEvent>;

/// Calls `SkipMap::new`, which makes an empty map.
#[verifier::external_body]
fn event_map_new() -> (r: EventMap)
    ensures
        event_log(r) == no_events(),
{
    SkipMap::new()
}

/// Calls `SkipMap::insert`, which, as its documentation says, removes an
/// entry with the same key before inserting the new one.
#[verifier::external_body]
fn event_map_insert(m: &mut EventMap, key: i64, value: EpisodicEvent)
    ensures
        event_log(*final(m)) == event_log(*old(m)).insert(key, value),
{
    m.insert(key, value);
}

/// Calls `SkipMap::range` over `lo..=hi` and keeps each entry's key: the
/// keys held between the two bounds, in increasing order.
#[verifier::external_body]
fn event_map_keys_in(m: &EventMap, lo: i64, hi: i64) -> (r: Vec<i64>)
    ensures
        sorted_keys_of(r@, keys_between(event_log(*m), lo as int, hi as int)),
{
    m.range(lo..=hi).map(|e| *e.key()).collect()
}

/// Calls `SkipMap::get` and copies the value found (with the verified
/// `EpisodicEvent::clone`).
#[verifier::external_body]
fn event_map_get(m: &EventMap, key: i64) -> (r: Option<EpisodicEvent>)
    ensures
        match r {
            Some(e) => event_log(*m).dom().contains(key) && same_event(e, event_log(*m)[key]),
            None => !event_log(*m).dom().contains(key),
        },
{
    m.get(&key).map(|e| e.value().clone())
}

/// The empty event log.
pub open spec fn no_events() -> Map<i64, EpisodicEvent> {
    Map::empty()
}

/// The keys of `log` between `lo` and `hi`, both included.
pub open spec fn keys_between(log: Map<i64, EpisodicEvent>, lo: int, hi: int) -> Set<i64> {
    Set::new(|k: i64| log.dom().contains(k) && lo <= k <= hi)
}

/// Whether `ks` lists exactly the keys in `keys`, in increasing order.
pub open spec fn sorted_keys_of(ks: Seq<i64>, keys: Set<i64>) -> bool {
    &&& forall|i: int, j: int| 0 <= i < j < ks.len() ==> #[trigger] ks[i] < #[trigger] ks[j]
    &&& forall|k: i64| ks.contains(k) <==> keys.contains(k)
}

/// An episodic memory: a base memory and its events, ordered by timestamp.
/// Events are held by the memory itself, so adding one takes `&mut self`.
#[derive(Debug)]
pub struct EpisodicMemory {
    /// Base memory properties
    pub base: BaseMemory,
    /// Events by timestamp
    pub events: EventMap,
}

impl EpisodicMemory {
    /// The events, by timestamp.
    pub closed spec fn events_view(&self) -> Map<i64, EpisodicEvent> {
        event_log(self.events)
    }

    /// A new episodic memory with no events and empty content; its metadata
    /// is filed under "episodic" with custom data `{"version": "1.0"}`.
    pub fn new(id: &str, name: &str, description: &str) -> (r: EpisodicMemory)
        ensures
            r.base.id@ == id@,
            r.base.name@ == name@,
            r.base.description@ == description@,
            r.base.metadata.custom == json_pair_object("version"@, "1.0"@),
            crate::memory::is_fresh_metadata(
                MemoryMetadata { custom: crate::value::json_object(Seq::empty()), ..r.base.metadata },
                memory_type_name(MemoryTypeEnum::Episodic),
            ),
            crate::memory::is_text_content(r.base.content, Seq::<char>::empty()),
            r.events_view() == Map::<i64, EpisodicEvent>::empty(),
    {
        let mut metadata = MemoryMetadata::with_type(MemoryTypeEnum::Episodic);
        metadata.custom = json_pair("version", "1.0");
        let empty = "";
        proof {
            reveal_strlit("");
            assert(empty@ =~= Seq::<char>::empty());
        }
        EpisodicMemory {
            base: BaseMemory {
                id: String::from_str(id),
                name: String::from_str(name),
                description: String::from_str(description),
                updated_at: now_millis(),
                metadata,
                content: MemoryContent::new(empty),
            },
            events: event_map_new(),
        }
    }

    /// An episodic memory over `base` holding the given events, each under
    /// its key (a later entry replaces an earlier one with the same key).
    pub fn from_entries(base: BaseMemory, entries: Vec<(i64, EpisodicEvent)>) -> (r: EpisodicMemory)
        ensures
            r.base == base,
            r.events_view() == logged(entries@),
    {
        let mut events = event_map_new();
        let mut entries = entries;
        let ghost all = entries@;
        let mut rest: Vec<(i64, EpisodicEvent)> = Vec::new();
        // Take the entries from the back, then insert them front to back.
        while entries.len() > 0
            invariant
                all == entries@ + rest@.reverse(),
            decreases entries@.len(),
        {
            let e = entries.pop().unwrap();
            proof {
                assert(all =~= entries@ + rest@.push(e).reverse());
            }
            rest.push(e);
        }
        assert(rest@.reverse() =~= all);
        let ghost done: Seq<(i64, EpisodicEvent)> = Seq::empty();
        while rest.len() > 0
            invariant
                all == done + rest@.reverse(),
                event_log(events) == logged(done),
            decreases rest@.len(),
        {
            let e = rest.pop().unwrap();
            proof {
                assert(all =~= done.push(e) + rest@.reverse());
                assert(done.push(e).drop_last() =~= done);
                done = done.push(e);
            }
            let (k, v) = e;
            event_map_insert(&mut events, k, v);
        }
        assert(done =~= all);
        EpisodicMemory { base, events }
    }

    /// The base memory under which a new episodic memory is stored: its ID,
    /// name, description and update time, fresh episodic metadata dated at
    /// the memory's creation, and `content_text` (the memory's content in
    /// serialized form) as plain text content.
    pub fn stored_base(&self, content_text: &str) -> (r: BaseMemory)
        ensures
            r.id@ == self.base.id@,
            r.name@ == self.base.name@,
            r.description@ == self.base.description@,
            r.updated_at == self.base.updated_at,
            crate::memory::is_fresh_metadata(
                MemoryMetadata { created_at: r.metadata.created_at, ..r.metadata },
                memory_type_name(MemoryTypeEnum::Episodic),
            ),
            r.metadata.created_at == self.base.metadata.created_at,
            crate::memory::is_text_content(r.content, content_text@),
    {
        let mut metadata = MemoryMetadata::with_type(MemoryTypeEnum::Episodic);
        metadata.created_at = self.base.metadata.created_at;
        BaseMemory {
            id: self.base.id.clone(),
            name: self.base.name.clone(),
            description: self.base.description.clone(),
            updated_at: self.base.updated_at,
            metadata,
            content: MemoryContent::text(content_text),
        }
    }

    /// The kind of memory: episodic.
    pub fn memory_type(&self) -> (r: MemoryTypeEnum)
        ensures
            r == MemoryTypeEnum::Episodic,
    {
        MemoryTypeEnum::Episodic
    }

    /// Adds `event` under its timestamp, replacing an event with the same
    /// timestamp.
    pub fn add_event(&mut self, event: EpisodicEvent)
        ensures
            final(self).base == old(self).base,
            final(self).events_view() == old(self).events_view().insert(event.timestamp, event),
    {
        let t = event.timestamp;
        event_map_insert(&mut self.events, t, event);
    }

    /// The events whose timestamps lie between `start_time` and `end_time`
    /// (both included), oldest first.
    pub fn get_events_in_range(&self, start_time: i64, end_time: i64) -> (r: Vec<EpisodicEvent>)
        ensures
            exists|ks: Seq<i64>| #[trigger] sorted_keys_of(ks, keys_between(self.events_view(), start_time as int, end_time as int))
                && events_at(r@, self.events_view(), ks),
    {
        let keys = event_map_keys_in(&self.events, start_time, end_time);
        proof {
            lemma_sorted_keys_held(keys@, self.events_view(), start_time as int, end_time as int);
        }
        let r = self.events_for(&keys);
        assert(sorted_keys_of(keys@, keys_between(self.events_view(), start_time as int, end_time as int)));
        r
    }

    /// The `n` latest events at or before `before_time`, latest first.
    pub fn get_last_n_events(&self, n: usize, before_time: i64) -> (r: Vec<EpisodicEvent>)
        ensures
            exists|ks: Seq<i64>| #[trigger] sorted_keys_of(ks, keys_between(self.events_view(), i64::MIN as int, before_time as int))
                && events_at(r@, self.events_view(), latest_first(ks, n as int)),
    {
        let keys = event_map_keys_in(&self.events, i64::MIN, before_time);
        proof {
            lemma_sorted_keys_held(keys@, self.events_view(), i64::MIN as int, before_time as int);
        }
        let m = keys.len();
        let mut picked: Vec<i64> = Vec::new();
        let mut i: usize = 0;
        while i < m && i < n
            invariant
                m == keys@.len(),
                i <= m,
                i <= n,
                picked@ == latest_first(keys@, i as int),
            decreases m - i,
        {
            picked.push(keys[m - 1 - i]);
            i = i + 1;
            assert(picked@ =~= latest_first(keys@, i as int));
        }
        assert(latest_first(keys@, i as int) =~= latest_first(keys@, n as int));
        assert forall|j: int| 0 <= j < picked@.len() implies self.events_view().dom().contains(#[trigger] picked@[j]) by {
            assert(picked@[j] == keys@[m - 1 - j]);
        }
        let r = self.events_for(&picked);
        assert(sorted_keys_of(keys@, keys_between(self.events_view(), i64::MIN as int, before_time as int)));
        r
    }

    /// The events held under `keys`, in that order.
    fn events_for(&self, keys: &Vec<i64>) -> (r: Vec<EpisodicEvent>)
        requires
            forall|i: int| 0 <= i < keys@.len() ==> self.events_view().dom().contains(#[trigger] keys@[i]),
        ensures
            events_at(r@, self.events_view(), keys@),
    {
        let m = keys.len();
        let mut out: Vec<EpisodicEvent> = Vec::new();
        let mut i: usize = 0;
        while i < m
            invariant
                m == keys@.len(),
                i <= m,
                forall|j: int| 0 <= j < keys@.len() ==> self.events_view().dom().contains(#[trigger] keys@[j]),
                out@.len() == i,
                forall|j: int| 0 <= j < i ==> same_event(#[trigger] out@[j], self.events_view()[keys@[j]]),
            decreases m - i,
        {
            match event_map_get(&self.events, keys[i]) {
                Some(e) => out.push(e),
                None => {
                    assert(self.events_view().dom().contains(keys@[i as int]));
                    return out;
                },
            }
            i = i + 1;
        }
        out
    }

    /// Every event with its key, oldest first.
    pub fn entries(&self) -> (r: Vec<(i64, EpisodicEvent)>)
        ensures
            forall|i: int, j: int| 0 <= i < j < r@.len() ==> #[trigger] r@[i].0 < #[trigger] r@[j].0,
            forall|k: i64| self.events_view().dom().contains(k) <==> exists|i: int| 0 <= i < r@.len() && #[trigger] r@[i].0 == k,
            forall|i: int| 0 <= i < r@.len() ==> same_event(#[trigger] r@[i].1, self.events_view()[r@[i].0]),
    {
        let keys = event_map_keys_in(&self.events, i64::MIN, i64::MAX);
        proof {
            lemma_sorted_keys_held(keys@, self.events_view(), i64::MIN as int, i64::MAX as int);
        }
        let events = self.events_for(&keys);
        let m = keys.len();
        let mut out: Vec<(i64, EpisodicEvent)> = Vec::new();
        let mut events = events;
        let mut back: Vec<(i64, EpisodicEvent)> = Vec::new();
        let mut j: usize = m;
        while j > 0
            invariant
                m == keys@.len(),
                j <= m,
                events@.len() == j,
                events_at(events@, self.events_view(), keys@.subrange(0, j as int)),
                back@.len() == m - j,
                forall|a: int| 0 <= a < back@.len() ==> (#[trigger] back@[a]).0 == keys@[m - 1 - a]
                    && same_event(back@[a].1, self.events_view()[keys@[m - 1 - a]]),
            decreases j,
        {
            let e = events.pop().unwrap();
            j = j - 1;
            back.push((keys[j], e));
        }
        while back.len() > 0
            invariant
                m == keys@.len(),
                out@.len() + back@.len() == m,
                forall|a: int| 0 <= a < back@.len() ==> (#[trigger] back@[a]).0 == keys@[m - 1 - a]
                    && same_event(back@[a].1, self.events_view()[keys@[m - 1 - a]]),
                forall|a: int| 0 <= a < out@.len() ==> (#[trigger] out@[a]).0 == keys@[a]
                    && same_event(out@[a].1, self.events_view()[keys@[a]]),
            decreases back@.len(),
        {
            let e = back.pop().unwrap();
            out.push(e);
        }
        proof {
            assert forall|k: i64| self.events_view().dom().contains(k) implies exists|i: int| 0 <= i < out@.len() && #[trigger] out@[i].0 == k by {
                assert(keys_between(self.events_view(), i64::MIN as int, i64::MAX as int).contains(k));
                assert(keys@.contains(k));
                let i = choose|i: int| 0 <= i < keys@.len() && keys@[i] == k;
                assert(out@[i].0 == k);
            }
            assert forall|k: i64| (exists|i: int| 0 <= i < out@.len() && #[trigger] out@[i].0 == k) implies self.events_view().dom().contains(k) by {
                let i = choose|i: int| 0 <= i < out@.len() && #[trigger] out@[i].0 == k;
                assert(keys@[i] == k);
                assert(keys@.contains(k));
            }
        }
        out
    }
}

impl MemoryType for EpisodicMemory {
    /// Every episodic memory can be written as an entity.
    open spec fn entity_writable(&self) -> bool {
        true
    }

    fn id(&self) -> (r: &str)
        ensures
            r@ == self.base.id@,
    {
        self.base.id.as_str()
    }

    fn name(&self) -> (r: &str)
        ensures
            r@ == self.base.name@,
    {
        self.base.name.as_str()
    }

    fn description(&self) -> (r: &str)
        ensures
            r@ == self.base.description@,
    {
        self.base.description.as_str()
    }

    fn updated_at(&self) -> (r: i64)
        ensures
            r == self.base.updated_at,
    {
        self.base.updated_at
    }

    fn metadata(&self) -> (r: &MemoryMetadata)
        ensures
            *r == self.base.metadata,
    {
        &self.base.metadata
    }

    fn content(&self) -> (r: &MemoryContent)
        ensures
            *r == self.base.content,
    {
        &self.base.content
    }

    /// The entity of this memory, of type "episodic_memory", with its name
    /// and description as attributes.
    fn to_entity(&self) -> (r: BaseEntity)
        ensures
            r.wf(),
            r.id_view() == self.base.id@,
            r.type_view() == "episodic_memory"@,
            r.attrs() == keyed_insert(
                keyed_insert(Seq::empty(), "name"@, json_text(self.base.name@)),
                "description"@,
                json_text(self.base.description@),
            ),
    {
        let e = BaseEntity::new(self.base.id.clone(), String::from_str("episodic_memory"));
        proof {
            assert(e.attrs() =~= Seq::<(Seq<char>, serde_json::Value)>::empty());
        }
        let e = e.with_attribute("name", json_from_str(self.base.name.as_str()));
        e.with_attribute("description", json_from_str(self.base.description.as_str()))
    }

    /// A new episodic memory with the entity's ID and the name and
    /// description it holds ("Unnamed" and "" when they are not there as
    /// strings).
    fn from_entity(entity: BaseEntity) -> (r: Result<EpisodicMemory, Error>)
        ensures
            r matches Ok(m) && m.base.id@ == entity.id_view()
                && m.base.name@ == (match text_property(entity.attrs(), "name"@) { Some(t) => t, None => "Unnamed"@ })
                && m.base.description@ == (match text_property(entity.attrs(), "description"@) {
                    Some(t) => t,
                    None => Seq::empty(),
                })
                && m.events_view() == no_events(),
    {
        let name = match entity.get_attribute("name") {
            Some(v) => json_as_str(v),
            None => None,
        };
        let name = match name {
            Some(t) => t,
            None => String::from_str("Unnamed"),
        };
        let description = match entity.get_attribute("description") {
            Some(v) => json_as_str(v),
            None => None,
        };
        let description = match description {
            Some(t) => t,
            None => String::new(),
        };
        Ok(EpisodicMemory::new(entity.id(), name.as_str(), description.as_str()))
    }

    /// Checks that the ID and the name are not empty, in that order.
    fn validate(&self) -> (r: Result<(), Error>)
        ensures
            self.base.id@.len() == 0 ==> (r matches Err(Error::InvalidInput(m)) && m@ == "ID cannot be empty"@),
            self.base.id@.len() > 0 && self.base.name@.len() == 0 ==> (r matches Err(Error::InvalidInput(m)) && m@
                == "Name cannot be empty"@),
            self.base.id@.len() > 0 && self.base.name@.len() > 0 ==> r is Ok,
    {
        if self.base.id.as_str().unicode_len() == 0 {
            return Err(Error::InvalidInput(String::from_str("ID cannot be empty")));
        }
        if self.base.name.as_str().unicode_len() == 0 {
            return Err(Error::InvalidInput(String::from_str("Name cannot be empty")));
        }
        Ok(())
    }
}

/// Where a base memory keeps the serialized events of an episodic memory.
#[derive(Debug, Clone, Copy, PartialEq, Eq, Structural)]
pub enum EventSource {
    /// The content text holds them, as JSON
    Text,
    /// The custom content field "events" holds them
    Custom,
}

/// Where the events of `memory` are to be read from: its content text when
/// that is not empty, else its custom field "events"; with neither, the
/// input is refused.
pub fn event_source(memory: &BaseMemory) -> (r: Result<EventSource, Error>)
    ensures
        memory.content.text@.len() > 0 ==> r == Ok::<EventSource, Error>(EventSource::Text),
        memory.content.text@.len() == 0 && (exists|i: int| 0 <= i < memory.content.custom@.len()
            && #[trigger] memory.content.custom@[i].0 == "events"@) ==> r == Ok::<EventSource, Error>(EventSource::Custom),
        memory.content.text@.len() == 0 && (forall|i: int| 0 <= i < memory.content.custom@.len()
            ==> #[trigger] memory.content.custom@[i].0 != "events"@) ==> (r matches Err(Error::InvalidInput(m))
            && m@ == "No episodic events data found in memory content"@),
{
    if memory.content.text.as_str().unicode_len() > 0 {
        return Ok(EventSource::Text);
    }
    match memory.content.custom.get("events") {
        Some(_) => Ok(EventSource::Custom),
        None => Err(Error::InvalidInput(String::from_str("No episodic events data found in memory content"))),
    }
}

/// After an event is added, the events at its timestamp are that event
/// alone.
pub proof fn lemma_added_event_found(log: Map<i64, EpisodicEvent>, e: EpisodicEvent)
    ensures
        keys_between(log.insert(e.timestamp, e), e.timestamp as int, e.timestamp as int) == set![e.timestamp],
        log.insert(e.timestamp, e)[e.timestamp] == e,
        sorted_keys_of(seq![e.timestamp], keys_between(log.insert(e.timestamp, e), e.timestamp as int, e.timestamp as int)),
{
    let t = e.timestamp;
    assert(keys_between(log.insert(t, e), t as int, t as int) =~= set![t]);
    assert forall|k: i64| seq![t].contains(k) <==> set![t].contains(k) by {
        if seq![t].contains(k) {
            let i = choose|i: int| 0 <= i < seq![t].len() && seq![t][i] == k;
            assert(i == 0);
        }
        if k == t {
            assert(seq![t][0] == k);
        }
    }
}

/// Keys listed as those of a log between two bounds are held in the log.
proof fn lemma_sorted_keys_held(ks: Seq<i64>, log: Map<i64, EpisodicEvent>, lo: int, hi: int)
    requires
        sorted_keys_of(ks, keys_between(log, lo, hi)),
    ensures
        forall|i: int| 0 <= i < ks.len() ==> log.dom().contains(#[trigger] ks[i]),
{
    assert forall|i: int| 0 <= i < ks.len() implies log.dom().contains(#[trigger] ks[i]) by {
        assert(ks.contains(ks[i]));
        assert(keys_between(log, lo, hi).contains(ks[i]));
    }
}

/// The map after inserting each entry in turn, each under its key.
pub open spec fn logged(entries: Seq<(i64, EpisodicEvent)>) -> Map<i64, EpisodicEvent>
    decreases entries.len(),
{
    if entries.len() == 0 {
        Map::empty()
    } else {
        logged(entries.drop_last()).insert(entries.last().0, entries.last().1)
    }
}

/// Whether `r` holds, in order, copies of the events of `log` under `ks`.
pub open spec fn events_at(r: Seq<EpisodicEvent>, log: Map<i64, EpisodicEvent>, ks: Seq<i64>) -> bool {
    &&& r.len() == ks.len()
    &&& forall|i: int| 0 <= i < r.len() ==> same_event(#[trigger] r[i], log[ks[i]])
}

/// The last `n` of `ks` (all of them when there are fewer), last first.
pub open spec fn latest_first(ks: Seq<i64>, n: int) -> Seq<i64> {
    let m = if n < ks.len() { n } else { ks.len() as int };
    Seq::new(m as nat, |i: int| ks[ks.len() - 1 - i])
}

/// The JSON object with one string entry.
pub open spec fn json_pair_object(key: Seq<char>, value: Seq<char>) -> serde_json::Value {
    json_object(seq![(key, json_text(value))])
}

/// Builds the JSON object `{key: value}` with `serde_json::Map::insert`.
#[verifier::external_body]
fn json_pair(key: &str, value: &str) -> (r: serde_json::Value)
    ensures
        r == json_pair_object(key@, value@),
{
    let mut map = serde_json::Map::new();
    map.insert(key.to_string(), serde_json::Value::String(value.to_string()));
    serde_json::Value::Object(map)
}

} // verus!
