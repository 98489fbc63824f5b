//! Version histories of memories: change kinds, versions, and a history
//! that keeps its versions ordered by version number and answers path and
//! diff queries.
use vstd::prelude::*;
use crate::clock::now_millis;
use crate::error::Error;
use crate::error::message;
use crate::text::{
    opt_view, opt_str_view, string_views,
    all_digits, all_plain_lower, decimal, digits_value, has_prefix, is_plain_lower, case_fold, fold_case,
    parse_u8, parsed_u8, push_decimal, lines_of, text_lines, push_char, starts_with, str_eq, suffix_from, trim,
    trimmed, trim_end_spec, trim_start_spec, is_white_space, digit_char, is_digit,
};
use crate::value::{FieldMap, lemma_insert_keeps_others};
use crate::value::{keyed_insert, keyed_get, json_text, json_str_of, json_u32, json_u32_of, json_text_list, json_text_list_of,
    json_from_str, json_as_str, json_from_u32, json_as_u32, json_from_strings, json_as_strings, clone_json};
use crate::clock::{rfc3339_of, rfc3339_text, json_time_of, json_datetime, json_datetime_error, TIME_MIN_MS, TIME_MAX_MS};
use crate::entity::BaseEntity;
use crate::order::{insertion_point, stable_sorted, sorted_by, insert_stable, lemma_insertion_point_is, lemma_stable_sorted_sorted, lemma_stable_sorted_of_sorted};

verus! {

/// The kind of change a version records.
#[derive(Debug, Clone, Copy, PartialEq, Eq, Structural)]
pub enum ChangeType {
    /// Creation of a new memory
    Creation,
    /// Update of an existing memory
    Update,
    /// Deletion of a memory
    Deletion,
    /// Restoration of a deleted memory
    Restoration,
    /// Merge of multiple memories
    Merge,
    /// Split of a memory into multiple parts
    Split,
    /// Custom change kind with a numeric code
    Custom(u8),
}

/// The name of a change kind (every custom kind is named "custom").
pub open spec fn change_type_name(c: ChangeType) -> Seq<char> {
    match c {
        ChangeType::Creation => "creation"@,
        ChangeType::Update => "update"@,
        ChangeType::Deletion => "deletion"@,
        ChangeType::Restoration => "restoration"@,
        ChangeType::Merge => "merge"@,
        ChangeType::Split => "split"@,
        ChangeType::Custom(_) => "custom"@,
    }
}

/// The stored text of a change kind: its name, with the code appended for
/// a custom kind ("custom7").
pub open spec fn change_type_text(c: ChangeType) -> Seq<char> {
    match c {
        ChangeType::Custom(code) => "custom"@ + decimal(code as nat),
        _ => change_type_name(c),
    }
}

/// The change kind that a case-folded text denotes: one of the six names,
/// or any text starting with "custom", whose remainder (trimmed) is the
/// code when it parses as a `u8` and 0 otherwise.
pub open spec fn change_type_of_folded(l: Seq<char>) -> Option<ChangeType> {
    if l == "creation"@ {
        Some(ChangeType::Creation)
    } else if l == "update"@ {
        Some(ChangeType::Update)
    } else if l == "deletion"@ {
        Some(ChangeType::Deletion)
    } else if l == "restoration"@ {
        Some(ChangeType::Restoration)
    } else if l == "merge"@ {
        Some(ChangeType::Merge)
    } else if l == "split"@ {
        Some(ChangeType::Split)
    } else if has_prefix(l, "custom"@) {
        Some(ChangeType::Custom(custom_code(trimmed(l.subrange(6, l.len() as int)))))
    } else {
        None
    }
}

/// The code of a custom change kind given the text after "custom".
pub open spec fn custom_code(code_text: Seq<char>) -> u8 {
    match parsed_u8(code_text) {
        Some(v) => v,
        None => 0,
    }
}

impl ChangeType {
    /// The name of this change kind.
    pub fn as_str(&self) -> (r: &'static str)
        ensures
            r@ == change_type_name(*self),
    {
        match self {
            ChangeType::Creation => "creation",
            ChangeType::Update => "update",
            ChangeType::Deletion => "deletion",
            ChangeType::Restoration => "restoration",
            ChangeType::Merge => "merge",
            ChangeType::Split => "split",
            ChangeType::Custom(_) => "custom",
        }
    }

    /// The text under which this change kind is stored ("custom<code>"
    /// for custom kinds, the name otherwise).
    pub fn to_value_text(&self) -> (r: String)
        ensures
            r@ == change_type_text(*self),
    {
        match self {
            ChangeType::Custom(code) => {
                let mut s = String::from_str("custom");
                push_decimal(&mut s, *code as u64);
                s
            },
            _ => String::from_str(self.as_str()),
        }
    }

    /// The custom change kind whose code is written in `code_text` (the
    /// text after "custom", already trimmed); 0 when it is not a `u8`.
    pub fn custom_from_code_text(code_text: &str) -> (r: ChangeType)
        ensures
            r == ChangeType::Custom(custom_code(code_text@)),
    {
        match parse_u8(code_text) {
            Some(v) => ChangeType::Custom(v),
            None => ChangeType::Custom(0),
        }
    }

    /// Parses a change kind from its case-folded text `folded`; `original`
    /// is the text as given, quoted in the error.
    pub fn parse_folded(folded: &str, original: &str) -> (r: Result<ChangeType, Error>)
        ensures
            change_type_of_folded(folded@) matches Some(c) ==> r == Ok::<ChangeType, Error>(c),
            change_type_of_folded(folded@) is None ==> (r matches Err(Error::ValidationError(m))
                && m@ == "Invalid change type: "@ + original@),
    {
        if str_eq(folded, "creation") {
            Ok(ChangeType::Creation)
        } else if str_eq(folded, "update") {
            Ok(ChangeType::Update)
        } else if str_eq(folded, "deletion") {
            Ok(ChangeType::Deletion)
        } else if str_eq(folded, "restoration") {
            Ok(ChangeType::Restoration)
        } else if str_eq(folded, "merge") {
            Ok(ChangeType::Merge)
        } else if str_eq(folded, "split") {
            Ok(ChangeType::Split)
        } else if starts_with(folded, "custom") {
            proof {
                reveal_strlit("custom");
            }
            let rest = suffix_from(folded, 6);
            let code_text = trim(rest.as_str());
            Ok(ChangeType::custom_from_code_text(code_text.as_str()))
        } else {
            Err(Error::ValidationError(message("Invalid change type: ", original)))
        }
    }

    /// Parses a change kind, ignoring letter case: the six names, or
    /// "custom" followed by an optional code.
    pub fn parse_from_str(s: &str) -> (r: Result<ChangeType, Error>)
        ensures
            change_type_of_folded(case_fold(s@)) matches Some(c) ==> r == Ok::<ChangeType, Error>(c),
            change_type_of_folded(case_fold(s@)) is None ==> (r matches Err(Error::ValidationError(m))
                && m@ == "Invalid change type: "@ + s@),
    {
        let folded = fold_case(s);
        ChangeType::parse_folded(folded.as_str(), s)
    }
}

/// The change kind read from a JSON value: the kind that the text of a
/// JSON string denotes.
pub open spec fn change_type_of_json(v: serde_json::Value) -> Option<ChangeType> {
    match json_str_of(v) {
        Some(t) => change_type_of_folded(case_fold(t)),
        None => None,
    }
}

impl ChangeType {
    /// The JSON form of this change kind: its stored text as a string.
    pub fn to_value(&self) -> (r: serde_json::Value)
        ensures
            r == json_text(change_type_text(*self)),
            json_str_of(r) == Some(change_type_text(*self)),
    {
        let t = self.to_value_text();
        json_from_str(t.as_str())
    }

    /// Reads a change kind from its JSON form: a string, parsed as
    /// `parse_from_str` does.
    pub fn from_value(value: &serde_json::Value) -> (r: Result<ChangeType, Error>)
        ensures
            json_str_of(*value) is None ==> (r matches Err(Error::ConversionError(m)) && m@ == "Invalid change type value"@),
            json_str_of(*value) matches Some(t) ==> (match change_type_of_folded(case_fold(t)) {
                Some(c) => r == Ok::<ChangeType, Error>(c),
                None => r matches Err(Error::ValidationError(m)) && m@ == "Invalid change type: "@ + t,
            }),
    {
        match json_as_str(value) {
            Some(s) => ChangeType::parse_from_str(s.as_str()),
            None => Err(Error::ConversionError(String::from_str("Invalid change type value"))),
        }
    }
}

/// Reading back the JSON form of a change kind gives the kind.
pub proof fn lemma_change_type_value_roundtrip(c: ChangeType, v: serde_json::Value)
    requires
        json_str_of(v) == Some(change_type_text(c)),
    ensures
        change_type_of_json(v) == Some(c),
{
    lemma_change_type_text_roundtrip(c);
}

/// One recorded version of a memory.
#[derive(Debug)]
pub struct MemoryVersion {
    /// Version ID
    pub id: String,
    /// Memory ID
    pub memory_id: String,
    /// Version number
    pub version: u32,
    /// Change kind
    pub change_type: ChangeType,
    /// When the version was recorded, in milliseconds since the Unix epoch
    pub timestamp: i64,
    /// User ID
    pub user_id: Option<String>,
    /// Content
    pub content: Option<String>,
    /// Metadata
    pub metadata: FieldMap,
    /// Previous version ID
    pub previous_version_id: Option<String>,
    /// Related version IDs (for merge/split)
    pub related_version_ids: Vec<String>,
    /// Change summary
    pub change_summary: Option<String>,
    /// Diff from previous version
    pub diff: Option<String>,
}

/// An owned copy of an optional string slice.
fn opt_owned(o: Option<&str>) -> (r: Option<String>)
    ensures
        opt_view(r) == opt_str_view(o),
{
    match o {
        Some(s) => Some(String::from_str(s)),
        None => None,
    }
}

impl MemoryVersion {
    /// A fresh version: no user, metadata, related versions, summary or
    /// diff; the timestamp is the current time.
    pub fn new(
        id: &str,
        memory_id: &str,
        version: u32,
        change_type: ChangeType,
        content: Option<&str>,
        previous_version_id: Option<&str>,
    ) -> (r: MemoryVersion)
        ensures
            r.id@ == id@,
            r.memory_id@ == memory_id@,
            r.version == version,
            r.change_type == change_type,
            r.user_id is None,
            opt_view(r.content) == opt_str_view(content),
            r.metadata@.len() == 0,
            r.metadata.wf(),
            opt_view(r.previous_version_id) == opt_str_view(previous_version_id),
            r.related_version_ids@.len() == 0,
            r.change_summary is None,
            r.diff is None,
    {
        let now = now_millis();
        MemoryVersion {
            id: String::from_str(id),
            memory_id: String::from_str(memory_id),
            version,
            change_type,
            timestamp: now,
            user_id: None,
            content: opt_owned(content),
            metadata: FieldMap::new(),
            previous_version_id: opt_owned(previous_version_id),
            related_version_ids: Vec::new(),
            change_summary: None,
            diff: None,
        }
    }

    /// The first version of a memory: number 1, a creation, no predecessor.
    pub fn creation(id: &str, memory_id: &str, content: &str) -> (r: MemoryVersion)
        ensures
            r.id@ == id@,
            r.memory_id@ == memory_id@,
            r.version == 1,
            r.change_type == ChangeType::Creation,
            opt_view(r.content) == Some(content@),
            r.previous_version_id is None,
            r.user_id is None,
            r.metadata@.len() == 0,
            r.metadata.wf(),
            r.related_version_ids@.len() == 0,
            r.change_summary is None,
            r.diff is None,
    {
        MemoryVersion::new(id, memory_id, 1, ChangeType::Creation, Some(content), None)
    }

    /// An update version with new content.
    pub fn update(id: &str, memory_id: &str, version: u32, content: &str, previous_version_id: &str) -> (r: MemoryVersion)
        ensures
            r.id@ == id@,
            r.memory_id@ == memory_id@,
            r.version == version,
            r.change_type == ChangeType::Update,
            opt_view(r.content) == Some(content@),
            opt_view(r.previous_version_id) == Some(previous_version_id@),
            r.user_id is None,
            r.metadata@.len() == 0,
            r.metadata.wf(),
            r.related_version_ids@.len() == 0,
            r.change_summary is None,
            r.diff is None,
    {
        MemoryVersion::new(id, memory_id, version, ChangeType::Update, Some(content), Some(previous_version_id))
    }

    /// A deletion version, which carries no content.
    pub fn deletion(id: &str, memory_id: &str, version: u32, previous_version_id: &str) -> (r: MemoryVersion)
        ensures
            r.id@ == id@,
            r.memory_id@ == memory_id@,
            r.version == version,
            r.change_type == ChangeType::Deletion,
            r.content is None,
            opt_view(r.previous_version_id) == Some(previous_version_id@),
            r.user_id is None,
            r.metadata@.len() == 0,
            r.metadata.wf(),
            r.related_version_ids@.len() == 0,
            r.change_summary is None,
            r.diff is None,
    {
        MemoryVersion::new(id, memory_id, version, ChangeType::Deletion, None, Some(previous_version_id))
    }

    /// A restoration version with the restored content.
    pub fn restoration(id: &str, memory_id: &str, version: u32, content: &str, previous_version_id: &str) -> (r: MemoryVersion)
        ensures
            r.id@ == id@,
            r.memory_id@ == memory_id@,
            r.version == version,
            r.change_type == ChangeType::Restoration,
            opt_view(r.content) == Some(content@),
            opt_view(r.previous_version_id) == Some(previous_version_id@),
            r.user_id is None,
            r.metadata@.len() == 0,
            r.metadata.wf(),
            r.related_version_ids@.len() == 0,
            r.change_summary is None,
            r.diff is None,
    {
        MemoryVersion::new(id, memory_id, version, ChangeType::Restoration, Some(content), Some(previous_version_id))
    }

    /// Sets the user ID.
    pub fn with_user_id(self, user_id: &str) -> (r: MemoryVersion)
        ensures
            r == (MemoryVersion { user_id: r.user_id, ..self }),
            opt_view(r.user_id) == Some(user_id@),
    {
        MemoryVersion { user_id: Some(String::from_str(user_id)), ..self }
    }

    /// Sets one metadata entry.
    pub fn with_metadata(self, key: &str, value: serde_json::Value) -> (r: MemoryVersion)
        requires
            self.metadata.wf(),
        ensures
            r == (MemoryVersion { metadata: r.metadata, ..self }),
            r.metadata.wf(),
            r.metadata@ == keyed_insert(self.metadata@, key@, value),
    {
        let mut this = self;
        this.metadata.insert(String::from_str(key), value);
        this
    }

    /// Adds a related version ID at the end of the list.
    pub fn with_related_version_id(self, related_version_id: &str) -> (r: MemoryVersion)
        ensures
            r == (MemoryVersion { related_version_ids: r.related_version_ids, ..self }),
            r.related_version_ids@.len() == self.related_version_ids@.len() + 1,
            r.related_version_ids@.drop_last() == self.related_version_ids@,
            r.related_version_ids@.last()@ == related_version_id@,
    {
        let mut this = self;
        this.related_version_ids.push(String::from_str(related_version_id));
        this
    }

    /// Sets the change summary.
    pub fn with_change_summary(self, change_summary: &str) -> (r: MemoryVersion)
        ensures
            r == (MemoryVersion { change_summary: r.change_summary, ..self }),
            opt_view(r.change_summary) == Some(change_summary@),
    {
        MemoryVersion { change_summary: Some(String::from_str(change_summary)), ..self }
    }

    /// Sets the diff.
    pub fn with_diff(self, diff: &str) -> (r: MemoryVersion)
        ensures
            r == (MemoryVersion { diff: r.diff, ..self }),
            opt_view(r.diff) == Some(diff@),
    {
        MemoryVersion { diff: Some(String::from_str(diff)), ..self }
    }
}

/// The attributes after setting `key` to the JSON string of `o`'s text,
/// when there is one.
pub open spec fn with_opt_text(
    s: Seq<(Seq<char>, serde_json::Value)>,
    key: Seq<char>,
    o: Option<Seq<char>>,
) -> Seq<(Seq<char>, serde_json::Value)> {
    match o {
        Some(t) => keyed_insert(s, key, json_text(t)),
        None => s,
    }
}

/// The attributes after setting "metadata_<key>" to the value of each
/// metadata entry in turn.
pub open spec fn with_metadata_attributes(
    s: Seq<(Seq<char>, serde_json::Value)>,
    m: Seq<(Seq<char>, serde_json::Value)>,
) -> Seq<(Seq<char>, serde_json::Value)>
    decreases m.len(),
{
    if m.len() == 0 {
        s
    } else {
        keyed_insert(with_metadata_attributes(s, m.drop_last()), "metadata_"@ + m.last().0, m.last().1)
    }
}

/// The attributes of a version's entity: its fields in a fixed order (the
/// optional ones only when present, the related versions only when there
/// are some), then its metadata under "metadata_<key>".
pub open spec fn version_attributes(v: MemoryVersion) -> Seq<(Seq<char>, serde_json::Value)> {
    let a = keyed_insert(Seq::empty(), "memory_id"@, json_text(v.memory_id@));
    let a = keyed_insert(a, "version"@, json_u32(v.version));
    let a = keyed_insert(a, "change_type"@, json_text(change_type_text(v.change_type)));
    let a = keyed_insert(a, "timestamp"@, json_text(rfc3339_of(v.timestamp)));
    let a = with_opt_text(a, "user_id"@, opt_view(v.user_id));
    let a = with_opt_text(a, "content"@, opt_view(v.content));
    let a = with_opt_text(a, "previous_version_id"@, opt_view(v.previous_version_id));
    let a = if v.related_version_ids@.len() > 0 {
        keyed_insert(a, "related_version_ids"@, json_text_list(string_views(v.related_version_ids@)))
    } else {
        a
    };
    let a = with_opt_text(a, "change_summary"@, opt_view(v.change_summary));
    let a = with_opt_text(a, "diff"@, opt_view(v.diff));
    with_metadata_attributes(a, v.metadata@)
}

/// The metadata read back from attributes: each attribute whose name starts
/// with "metadata_", under the rest of its name, set in turn.
pub open spec fn metadata_of_attributes(s: Seq<(Seq<char>, serde_json::Value)>) -> Seq<(Seq<char>, serde_json::Value)>
    decreases s.len(),
{
    if s.len() == 0 {
        Seq::empty()
    } else {
        let r = metadata_of_attributes(s.drop_last());
        let k = s.last().0;
        if has_prefix(k, "metadata_"@) {
            keyed_insert(r, k.subrange(9, k.len() as int), s.last().1)
        } else {
            r
        }
    }
}

/// The text of the attribute `key`, when it is a JSON string.
pub open spec fn text_attr(s: Seq<(Seq<char>, serde_json::Value)>, key: Seq<char>) -> Option<Seq<char>> {
    match keyed_get(s, key) {
        Some(v) => json_str_of(v),
        None => None,
    }
}

/// The number held in the attribute `key`, when it is a `u32`.
pub open spec fn u32_attr(s: Seq<(Seq<char>, serde_json::Value)>, key: Seq<char>) -> Option<u32> {
    match keyed_get(s, key) {
        Some(v) => json_u32_of(v),
        None => None,
    }
}

/// The change kind held in the attribute "change_type".
pub open spec fn change_type_attr(s: Seq<(Seq<char>, serde_json::Value)>) -> Option<ChangeType> {
    match keyed_get(s, "change_type"@) {
        Some(v) => change_type_of_json(v),
        None => None,
    }
}

/// The instant held in the attribute "timestamp".
pub open spec fn time_attr(s: Seq<(Seq<char>, serde_json::Value)>) -> Option<i64> {
    match keyed_get(s, "timestamp"@) {
        Some(v) => json_time_of(v),
        None => None,
    }
}

/// The related version IDs held in the attribute "related_version_ids"
/// (none when it is absent or not a list of strings).
pub open spec fn related_attr(s: Seq<(Seq<char>, serde_json::Value)>) -> Seq<Seq<char>> {
    match keyed_get(s, "related_version_ids"@) {
        Some(v) => match json_text_list_of(v) {
            Some(l) => l,
            None => Seq::empty(),
        },
        None => Seq::empty(),
    }
}

/// Whether a version can be read from the attributes: the memory ID,
/// version number, change kind and timestamp are all there and readable.
pub open spec fn version_readable(s: Seq<(Seq<char>, serde_json::Value)>) -> bool {
    &&& text_attr(s, "memory_id"@) is Some
    &&& u32_attr(s, "version"@) is Some
    &&& change_type_attr(s) is Some
    &&& time_attr(s) is Some
}

/// Whether `v` is the version read from an entity with ID `id` and these
/// attributes.
pub open spec fn read_version(v: MemoryVersion, id: Seq<char>, s: Seq<(Seq<char>, serde_json::Value)>) -> bool {
    &&& v.id@ == id
    &&& Some(v.memory_id@) == text_attr(s, "memory_id"@)
    &&& Some(v.version) == u32_attr(s, "version"@)
    &&& Some(v.change_type) == change_type_attr(s)
    &&& Some(v.timestamp) == time_attr(s)
    &&& opt_view(v.user_id) == text_attr(s, "user_id"@)
    &&& opt_view(v.content) == text_attr(s, "content"@)
    &&& opt_view(v.previous_version_id) == text_attr(s, "previous_version_id"@)
    &&& string_views(v.related_version_ids@) == related_attr(s)
    &&& opt_view(v.change_summary) == text_attr(s, "change_summary"@)
    &&& opt_view(v.diff) == text_attr(s, "diff"@)
    &&& v.metadata@ == metadata_of_attributes(s)
    &&& v.metadata.wf()
}

impl MemoryVersion {
    /// The entity of this version, of type "memory_version", with the
    /// attributes of `version_attributes`.
    pub fn to_entity(&self) -> (r: BaseEntity)
        requires
            self.metadata.wf(),
            TIME_MIN_MS <= self.timestamp <= TIME_MAX_MS,
        ensures
            r.wf(),
            r.id_view() == self.id@,
            r.type_view() == "memory_version"@,
            r.attrs() == version_attributes(*self),
            version_readable(r.attrs()),
            read_version(*self, self.id@, r.attrs()),
    {
        let mut entity = BaseEntity::new(self.id.clone(), String::from_str("memory_version"));
        proof {
            assert(entity.attrs() =~= Seq::<(Seq<char>, serde_json::Value)>::empty());
        }
        entity = entity.with_attribute("memory_id", json_from_str(self.memory_id.as_str()));
        entity = entity.with_attribute("version", json_from_u32(self.version));
        entity = entity.with_attribute("change_type", self.change_type.to_value());
        let stamp = rfc3339_text(self.timestamp);
        entity = entity.with_attribute("timestamp", json_from_str(stamp.as_str()));
        entity = with_opt_attribute(entity, "user_id", &self.user_id);
        entity = with_opt_attribute(entity, "content", &self.content);
        entity = with_opt_attribute(entity, "previous_version_id", &self.previous_version_id);
        if self.related_version_ids.len() > 0 {
            entity = entity.with_attribute("related_version_ids", json_from_strings(&self.related_version_ids));
        }
        entity = with_opt_attribute(entity, "change_summary", &self.change_summary);
        entity = with_opt_attribute(entity, "diff", &self.diff);
        let ghost base = entity.attrs();
        let n = self.metadata.len();
        let mut i: usize = 0;
        while i < n
            invariant
                n == self.metadata@.len(),
                i <= n,
                entity.wf(),
                entity.id_view() == self.id@,
                entity.type_view() == "memory_version"@,
                entity.attrs() == with_metadata_attributes(base, self.metadata@.subrange(0, i as int)),
            decreases n - i,
        {
            let key = message("metadata_", self.metadata.key_at(i).as_str());
            entity = entity.with_attribute(key.as_str(), clone_json(self.metadata.value_at(i)));
            proof {
                let part = self.metadata@.subrange(0, i + 1);
                assert(part.drop_last() =~= self.metadata@.subrange(0, i as int));
            }
            i = i + 1;
        }
        assert(self.metadata@.subrange(0, n as int) =~= self.metadata@);
        proof {
            lemma_version_attributes_read(*self);
            lemma_change_type_value_roundtrip(self.change_type, json_text(change_type_text(self.change_type)));
            let a = entity.attrs();
            assert(text_attr(a, "memory_id"@) == Some(self.memory_id@));
            assert(u32_attr(a, "version"@) == Some(self.version));
            assert(change_type_attr(a) == Some(self.change_type));
            assert(time_attr(a) == Some(self.timestamp));
            assert(opt_view(self.user_id) == text_attr(a, "user_id"@));
            assert(opt_view(self.content) == text_attr(a, "content"@));
            assert(opt_view(self.previous_version_id) == text_attr(a, "previous_version_id"@));
            assert(string_views(self.related_version_ids@) == related_attr(a));
            assert(opt_view(self.change_summary) == text_attr(a, "change_summary"@));
            assert(opt_view(self.diff) == text_attr(a, "diff"@));
            assert(self.metadata@ == metadata_of_attributes(a));
        }
        entity
    }

    /// Reads a version from an entity: the memory ID, version number,
    /// change kind and timestamp are required (checked in that order); the
    /// other fields are read when present and readable; every attribute
    /// "metadata_<key>" becomes the metadata entry `key`.
    pub fn from_entity(entity: &BaseEntity) -> (r: Result<MemoryVersion, Error>)
        requires
            entity.wf(),
        ensures
            r is Ok <==> version_readable(entity.attrs()),
            r matches Ok(v) ==> read_version(v, entity.id_view(), entity.attrs()),
            keyed_get(entity.attrs(), "memory_id"@) is None ==> (r matches Err(Error::ConversionError(m))
                && m@ == "Missing memory_id attribute"@),
            keyed_get(entity.attrs(), "memory_id"@) is Some && text_attr(entity.attrs(), "memory_id"@) is None ==> (
                r matches Err(Error::ConversionError(m)) && m@ == "Invalid memory_id attribute"@),
            text_attr(entity.attrs(), "memory_id"@) is Some && keyed_get(entity.attrs(), "version"@) is None ==> (
                r matches Err(Error::ConversionError(m)) && m@ == "Missing version attribute"@),
            text_attr(entity.attrs(), "memory_id"@) is Some && keyed_get(entity.attrs(), "version"@) is Some
                && u32_attr(entity.attrs(), "version"@) is None ==> (r matches Err(Error::ConversionError(m))
                && m@ == "Invalid version attribute"@),
            text_attr(entity.attrs(), "memory_id"@) is Some && u32_attr(entity.attrs(), "version"@) is Some
                && keyed_get(entity.attrs(), "change_type"@) is None ==> (r matches Err(Error::ConversionError(m))
                && m@ == "Missing change_type attribute"@),
            text_attr(entity.attrs(), "memory_id"@) is Some && u32_attr(entity.attrs(), "version"@) is Some
                && keyed_get(entity.attrs(), "change_type"@) is Some && text_attr(entity.attrs(), "change_type"@)
                is None ==> (r matches Err(Error::ConversionError(m)) && m@ == "Invalid change type value"@),
            text_attr(entity.attrs(), "memory_id"@) is Some && u32_attr(entity.attrs(), "version"@) is Some
                && text_attr(entity.attrs(), "change_type"@) is Some && change_type_attr(entity.attrs()) is None ==> (
                r matches Err(Error::ValidationError(m)) && m@ == "Invalid change type: "@ + text_attr(
                entity.attrs(),
                "change_type"@,
            )->0),
            text_attr(entity.attrs(), "memory_id"@) is Some && u32_attr(entity.attrs(), "version"@) is Some
                && change_type_attr(entity.attrs()) is Some && keyed_get(entity.attrs(), "timestamp"@) is None ==> (
                r matches Err(Error::ConversionError(m)) && m@ == "Missing timestamp attribute"@),
            text_attr(entity.attrs(), "memory_id"@) is Some && u32_attr(entity.attrs(), "version"@) is Some
                && change_type_attr(entity.attrs()) is Some && keyed_get(entity.attrs(), "timestamp"@) is Some
                && time_attr(entity.attrs()) is None ==> (r matches Err(Error::ConversionError(m))
                && m@ == "Invalid timestamp attribute: "@ + json_datetime_error(keyed_get(entity.attrs(), "timestamp"@)->0)),
    {
        let memory_id = match entity.get_attribute("memory_id") {
            Some(v) => match json_as_str(v) {
                Some(s) => s,
                None => {
                    return Err(Error::ConversionError(String::from_str("Invalid memory_id attribute")));
                },
            },
            None => {
                return Err(Error::ConversionError(String::from_str("Missing memory_id attribute")));
            },
        };
        let version = match entity.get_attribute("version") {
            Some(v) => match json_as_u32(v) {
                Some(n) => n,
                None => {
                    return Err(Error::ConversionError(String::from_str("Invalid version attribute")));
                },
            },
            None => {
                return Err(Error::ConversionError(String::from_str("Missing version attribute")));
            },
        };
        let change_type = match entity.get_attribute("change_type") {
            Some(v) => {
                let parsed = ChangeType::from_value(v);
                match parsed {
                    Ok(c) => c,
                    Err(e) => {
                        return Err(e);
                    },
                }
            },
            None => {
                return Err(Error::ConversionError(String::from_str("Missing change_type attribute")));
            },
        };
        let timestamp = match entity.get_attribute("timestamp") {
            Some(v) => match json_datetime(v) {
                Ok(t) => t,
                Err(e) => {
                    return Err(Error::ConversionError(message("Invalid timestamp attribute: ", e.as_str())));
                },
            },
            None => {
                return Err(Error::ConversionError(String::from_str("Missing timestamp attribute")));
            },
        };
        let user_id = optional_text(entity, "user_id");
        let content = optional_text(entity, "content");
        let previous_version_id = optional_text(entity, "previous_version_id");
        let related_version_ids = match entity.get_attribute("related_version_ids") {
            Some(v) => match json_as_strings(v) {
                Some(l) => l,
                None => Vec::new(),
            },
            None => Vec::new(),
        };
        let change_summary = optional_text(entity, "change_summary");
        let diff = optional_text(entity, "diff");
        let metadata = metadata_from_attributes(entity.attributes());
        let ghost a = entity.attrs();
        assert(Some(memory_id@) == text_attr(a, "memory_id"@));
        assert(Some(version) == u32_attr(a, "version"@));
        assert(Some(change_type) == change_type_attr(a));
        assert(Some(timestamp) == time_attr(a));
        assert(string_views(related_version_ids@) == related_attr(a));
        assert(metadata@ == metadata_of_attributes(a));
        Ok(MemoryVersion {
            id: String::from_str(entity.id()),
            memory_id,
            version,
            change_type,
            timestamp,
            user_id,
            content,
            metadata,
            previous_version_id,
            related_version_ids,
            change_summary,
            diff,
        })
    }
}

/// The attribute value of an optional text: its JSON string, when there is
/// one.
pub open spec fn opt_json_text(o: Option<Seq<char>>) -> Option<serde_json::Value> {
    match o {
        Some(t) => Some(json_text(t)),
        None => None,
    }
}

/// The field names of a version's entity are distinct, and none starts
/// with "metadata_".
proof fn lemma_version_keys()
    ensures
        "memory_id"@ != "version"@, "memory_id"@ != "change_type"@, "memory_id"@ != "timestamp"@,
        "memory_id"@ != "user_id"@, "memory_id"@ != "content"@, "memory_id"@ != "previous_version_id"@,
        "memory_id"@ != "related_version_ids"@, "memory_id"@ != "change_summary"@, "memory_id"@ != "diff"@,
        "version"@ != "change_type"@, "version"@ != "timestamp"@, "version"@ != "user_id"@,
        "version"@ != "content"@, "version"@ != "previous_version_id"@, "version"@ != "related_version_ids"@,
        "version"@ != "change_summary"@, "version"@ != "diff"@,
        "change_type"@ != "timestamp"@, "change_type"@ != "user_id"@, "change_type"@ != "content"@,
        "change_type"@ != "previous_version_id"@, "change_type"@ != "related_version_ids"@,
        "change_type"@ != "change_summary"@, "change_type"@ != "diff"@,
        "timestamp"@ != "user_id"@, "timestamp"@ != "content"@, "timestamp"@ != "previous_version_id"@,
        "timestamp"@ != "related_version_ids"@, "timestamp"@ != "change_summary"@, "timestamp"@ != "diff"@,
        "user_id"@ != "content"@, "user_id"@ != "previous_version_id"@, "user_id"@ != "related_version_ids"@,
        "user_id"@ != "change_summary"@, "user_id"@ != "diff"@,
        "content"@ != "previous_version_id"@, "content"@ != "related_version_ids"@,
        "content"@ != "change_summary"@, "content"@ != "diff"@,
        "previous_version_id"@ != "related_version_ids"@, "previous_version_id"@ != "change_summary"@,
        "previous_version_id"@ != "diff"@,
        "related_version_ids"@ != "change_summary"@, "related_version_ids"@ != "diff"@,
        "change_summary"@ != "diff"@,
        !has_prefix("memory_id"@, "metadata_"@), !has_prefix("version"@, "metadata_"@),
        !has_prefix("change_type"@, "metadata_"@), !has_prefix("timestamp"@, "metadata_"@),
        !has_prefix("user_id"@, "metadata_"@), !has_prefix("content"@, "metadata_"@),
        !has_prefix("previous_version_id"@, "metadata_"@), !has_prefix("related_version_ids"@, "metadata_"@),
        !has_prefix("change_summary"@, "metadata_"@), !has_prefix("diff"@, "metadata_"@),
{
    reveal_strlit("memory_id");
    reveal_strlit("version");
    reveal_strlit("change_type");
    reveal_strlit("timestamp");
    reveal_strlit("user_id");
    reveal_strlit("content");
    reveal_strlit("previous_version_id");
    reveal_strlit("related_version_ids");
    reveal_strlit("change_summary");
    reveal_strlit("diff");
    reveal_strlit("metadata_");
    assert("change_type"@.len() == 11 && "content"@.len() == 7 && "change_summary"@.len() == 14);
    assert("user_id"@.len() == 7 && "version"@.len() == 7 && "diff"@.len() == 4 && "timestamp"@.len() == 9);
    assert("memory_id"@[0] != "timestamp"@[0]);
    assert("version"@[0] != "user_id"@[0] && "version"@[0] != "content"@[0] && "user_id"@[0] != "content"@[0]);
    assert("previous_version_id"@[0] != "related_version_ids"@[0]);
    assert("memory_id"@.subrange(0, 9)[2] != "metadata_"@[2]);
    assert("timestamp"@.subrange(0, 9)[0] != "metadata_"@[0]);
    assert("change_type"@.subrange(0, 9)[0] != "metadata_"@[0]);
    assert("previous_version_id"@.subrange(0, 9)[0] != "metadata_"@[0]);
    assert("related_version_ids"@.subrange(0, 9)[0] != "metadata_"@[0]);
    assert("change_summary"@.subrange(0, 9)[0] != "metadata_"@[0]);
}

/// Setting the metadata attributes leaves every name without the prefix
/// "metadata_" as it was, and keys stay unique.
proof fn lemma_metadata_attributes_keep(s: Seq<(Seq<char>, serde_json::Value)>, m: Seq<(Seq<char>, serde_json::Value)>)
    requires
        crate::value::keys_unique(s),
    ensures
        crate::value::keys_unique(with_metadata_attributes(s, m)),
        forall|k: Seq<char>| !has_prefix(k, "metadata_"@) ==> #[trigger] keyed_get(with_metadata_attributes(s, m), k)
            == keyed_get(s, k),
    decreases m.len(),
{
    reveal_strlit("metadata_");
    if m.len() > 0 {
        lemma_metadata_attributes_keep(s, m.drop_last());
        let prev = with_metadata_attributes(s, m.drop_last());
        let key = "metadata_"@ + m.last().0;
        lemma_insert_keeps_others(prev, key, m.last().1);
        assert forall|k: Seq<char>| !has_prefix(k, "metadata_"@) implies #[trigger] keyed_get(with_metadata_attributes(s, m), k)
            == keyed_get(s, k) by {
            assert(key.subrange(0, 9) =~= "metadata_"@);
            assert(k != key);
        }
    }
}

/// The metadata entries under their prefixed names.
pub open spec fn tagged_metadata(m: Seq<(Seq<char>, serde_json::Value)>) -> Seq<(Seq<char>, serde_json::Value)> {
    Seq::new(m.len(), |i: int| ("metadata_"@ + m[i].0, m[i].1))
}

/// With unique metadata keys and no prefixed name among the others, the
/// metadata attributes are appended in order, and reading the prefixed
/// names back gives the metadata.
proof fn lemma_metadata_attributes_read(s: Seq<(Seq<char>, serde_json::Value)>, m: Seq<(Seq<char>, serde_json::Value)>)
    requires
        crate::value::keys_unique(s),
        crate::value::keys_unique(m),
        forall|i: int| 0 <= i < s.len() ==> !has_prefix(#[trigger] s[i].0, "metadata_"@),
    ensures
        with_metadata_attributes(s, m) == s + tagged_metadata(m),
        metadata_of_attributes(s + tagged_metadata(m)) == m,
    decreases m.len(),
{
    reveal_strlit("metadata_");
    if m.len() == 0 {
        assert(tagged_metadata(m) =~= Seq::<(Seq<char>, serde_json::Value)>::empty());
        assert(s + tagged_metadata(m) =~= s);
        lemma_unprefixed_read_nothing(s);
    } else {
        let init = m.drop_last();
        assert forall|a: int, b: int| 0 <= a < b < init.len() implies #[trigger] init[a].0 != #[trigger] init[b].0 by {
            assert(init[a] == m[a] && init[b] == m[b]);
        }
        lemma_metadata_attributes_read(s, init);
        let prev = s + tagged_metadata(init);
        let key = "metadata_"@ + m.last().0;
        assert(tagged_metadata(m) =~= tagged_metadata(init).push((key, m.last().1)));
        assert(s + tagged_metadata(m) =~= prev.push((key, m.last().1)));
        assert(!exists|i: int| 0 <= i < prev.len() && #[trigger] prev[i].0 == key) by {
            assert forall|i: int| 0 <= i < prev.len() implies #[trigger] prev[i].0 != key by {
                assert(key.subrange(0, 9) =~= "metadata_"@);
                if i < s.len() {
                    assert(prev[i] == s[i]);
                } else {
                    let j = i - s.len();
                    assert(prev[i] == tagged_metadata(init)[j]);
                    assert(init[j] == m[j]);
                    if prev[i].0 == key {
                        assert(prev[i].0.subrange(9, prev[i].0.len() as int) =~= m[j].0);
                        assert(key.subrange(9, key.len() as int) =~= m.last().0);
                        assert(m[j].0 == m[m.len() - 1].0);
                    }
                }
            }
        }
        assert(with_metadata_attributes(s, m) == prev.push((key, m.last().1)));
        let full = s + tagged_metadata(m);
        assert(full.drop_last() =~= prev);
        assert(full.last().0 == key);
        assert(has_prefix(key, "metadata_"@)) by {
            assert(key.subrange(0, 9) =~= "metadata_"@);
        }
        assert(key.subrange(9, key.len() as int) =~= m.last().0);
        assert(!exists|i: int| 0 <= i < init.len() && #[trigger] init[i].0 == m.last().0) by {
            assert forall|i: int| 0 <= i < init.len() implies #[trigger] init[i].0 != m.last().0 by {
                assert(init[i] == m[i]);
            }
        }
        assert(init.push(m.last()) =~= m);
    }
}

/// Attributes with no prefixed name hold no metadata.
proof fn lemma_unprefixed_read_nothing(s: Seq<(Seq<char>, serde_json::Value)>)
    requires
        forall|i: int| 0 <= i < s.len() ==> !has_prefix(#[trigger] s[i].0, "metadata_"@),
    ensures
        metadata_of_attributes(s) == Seq::<(Seq<char>, serde_json::Value)>::empty(),
    decreases s.len(),
{
    if s.len() > 0 {
        assert forall|i: int| 0 <= i < s.drop_last().len() implies !has_prefix(#[trigger] s.drop_last()[i].0, "metadata_"@) by {
            assert(s.drop_last()[i] == s[i]);
        }
        lemma_unprefixed_read_nothing(s.drop_last());
        assert(s.last() == s[s.len() - 1]);
    }
}

/// Whether no name among the attributes starts with "metadata_".
pub open spec fn no_prefixed_names(s: Seq<(Seq<char>, serde_json::Value)>) -> bool {
    forall|i: int| 0 <= i < s.len() ==> !has_prefix(#[trigger] s[i].0, "metadata_"@)
}

/// Setting a name without the prefix keeps the attributes free of
/// prefixed names.
proof fn lemma_insert_unprefixed(s: Seq<(Seq<char>, serde_json::Value)>, key: Seq<char>, value: serde_json::Value)
    requires
        no_prefixed_names(s),
        !has_prefix(key, "metadata_"@),
    ensures
        no_prefixed_names(keyed_insert(s, key, value)),
{
    let t = keyed_insert(s, key, value);
    assert forall|i: int| 0 <= i < t.len() implies !has_prefix(#[trigger] t[i].0, "metadata_"@) by {
        if i < s.len() {
            assert(t[i] == s[i] || t[i].0 == key);
        } else {
            assert(t[i].0 == key);
        }
    }
}

/// One optional field set: the name reads as the field's JSON string, other
/// names read as before, keys stay unique and unprefixed.
proof fn lemma_opt_text_step(s: Seq<(Seq<char>, serde_json::Value)>, key: Seq<char>, o: Option<Seq<char>>)
    requires
        crate::value::keys_unique(s),
        no_prefixed_names(s),
        !has_prefix(key, "metadata_"@),
        keyed_get(s, key) is None,
    ensures
        crate::value::keys_unique(with_opt_text(s, key, o)),
        no_prefixed_names(with_opt_text(s, key, o)),
        keyed_get(with_opt_text(s, key, o), key) == opt_json_text(o),
        forall|other: Seq<char>| other != key ==> #[trigger] keyed_get(with_opt_text(s, key, o), other) == keyed_get(s, other),
{
    match o {
        Some(t) => {
            lemma_insert_keeps_others(s, key, json_text(t));
            lemma_insert_unprefixed(s, key, json_text(t));
        },
        None => {},
    }
}

/// One field set: the name reads as the value, other names read as
/// before, keys stay unique and unprefixed.
proof fn lemma_field_step(s: Seq<(Seq<char>, serde_json::Value)>, key: Seq<char>, value: serde_json::Value)
    requires
        crate::value::keys_unique(s),
        no_prefixed_names(s),
        !has_prefix(key, "metadata_"@),
    ensures
        crate::value::keys_unique(keyed_insert(s, key, value)),
        no_prefixed_names(keyed_insert(s, key, value)),
        keyed_get(keyed_insert(s, key, value), key) == Some(value),
        forall|other: Seq<char>| other != key ==> #[trigger] keyed_get(keyed_insert(s, key, value), other) == keyed_get(s, other),
{
    lemma_insert_keeps_others(s, key, value);
    lemma_insert_unprefixed(s, key, value);
}

/// What each name of a version's entity reads as, and the metadata read
/// back from it.
#[verifier::spinoff_prover]
#[verifier::rlimit(40)]
proof fn lemma_version_attributes_read(v: MemoryVersion)
    requires
        v.metadata.wf(),
    ensures
        keyed_get(version_attributes(v), "memory_id"@) == Some(json_text(v.memory_id@)),
        keyed_get(version_attributes(v), "version"@) == Some(json_u32(v.version)),
        keyed_get(version_attributes(v), "change_type"@) == Some(json_text(change_type_text(v.change_type))),
        keyed_get(version_attributes(v), "timestamp"@) == Some(json_text(rfc3339_of(v.timestamp))),
        keyed_get(version_attributes(v), "user_id"@) == opt_json_text(opt_view(v.user_id)),
        keyed_get(version_attributes(v), "content"@) == opt_json_text(opt_view(v.content)),
        keyed_get(version_attributes(v), "previous_version_id"@) == opt_json_text(opt_view(v.previous_version_id)),
        keyed_get(version_attributes(v), "related_version_ids"@) == (if v.related_version_ids@.len() > 0 {
            Some(json_text_list(string_views(v.related_version_ids@)))
        } else {
            None
        }),
        keyed_get(version_attributes(v), "change_summary"@) == opt_json_text(opt_view(v.change_summary)),
        keyed_get(version_attributes(v), "diff"@) == opt_json_text(opt_view(v.diff)),
        metadata_of_attributes(version_attributes(v)) == v.metadata@,
{
    lemma_version_keys();
    let a0 = Seq::<(Seq<char>, serde_json::Value)>::empty();
    let a1 = keyed_insert(a0, "memory_id"@, json_text(v.memory_id@));
    lemma_field_step(a0, "memory_id"@, json_text(v.memory_id@));
    let a2 = keyed_insert(a1, "version"@, json_u32(v.version));
    lemma_field_step(a1, "version"@, json_u32(v.version));
    let a3 = keyed_insert(a2, "change_type"@, json_text(change_type_text(v.change_type)));
    lemma_field_step(a2, "change_type"@, json_text(change_type_text(v.change_type)));
    let a4 = keyed_insert(a3, "timestamp"@, json_text(rfc3339_of(v.timestamp)));
    lemma_field_step(a3, "timestamp"@, json_text(rfc3339_of(v.timestamp)));
    let a5 = with_opt_text(a4, "user_id"@, opt_view(v.user_id));
    lemma_opt_text_step(a4, "user_id"@, opt_view(v.user_id));
    let a6 = with_opt_text(a5, "content"@, opt_view(v.content));
    lemma_opt_text_step(a5, "content"@, opt_view(v.content));
    let a7 = with_opt_text(a6, "previous_version_id"@, opt_view(v.previous_version_id));
    lemma_opt_text_step(a6, "previous_version_id"@, opt_view(v.previous_version_id));
    let a8 = if v.related_version_ids@.len() > 0 {
        keyed_insert(a7, "related_version_ids"@, json_text_list(string_views(v.related_version_ids@)))
    } else {
        a7
    };
    if v.related_version_ids@.len() > 0 {
        lemma_field_step(a7, "related_version_ids"@, json_text_list(string_views(v.related_version_ids@)));
    }
    let a9 = with_opt_text(a8, "change_summary"@, opt_view(v.change_summary));
    lemma_opt_text_step(a8, "change_summary"@, opt_view(v.change_summary));
    let a10 = with_opt_text(a9, "diff"@, opt_view(v.diff));
    lemma_opt_text_step(a9, "diff"@, opt_view(v.diff));
    assert(version_attributes(v) == with_metadata_attributes(a10, v.metadata@));
    lemma_metadata_attributes_keep(a10, v.metadata@);
    lemma_metadata_attributes_read(a10, v.metadata@);
}

/// Sets `key` to the JSON string of `o`'s text, when there is one.
fn with_opt_attribute(entity: BaseEntity, key: &str, o: &Option<String>) -> (r: BaseEntity)
    requires
        entity.wf(),
    ensures
        r.wf(),
        r.id_view() == entity.id_view(),
        r.type_view() == entity.type_view(),
        r.attrs() == with_opt_text(entity.attrs(), key@, opt_view(*o)),
        o matches Some(t) ==> json_str_of(json_text(t@)) == Some(t@),
{
    match o {
        Some(t) => entity.with_attribute(key, json_from_str(t.as_str())),
        None => entity,
    }
}

/// The text of the attribute `key`, when it is a JSON string.
fn optional_text(entity: &BaseEntity, key: &str) -> (r: Option<String>)
    requires
        entity.wf(),
    ensures
        opt_view(r) == text_attr(entity.attrs(), key@),
{
    match entity.get_attribute(key) {
        Some(v) => json_as_str(v),
        None => None,
    }
}

/// The metadata held in attributes named "metadata_<key>".
fn metadata_from_attributes(attrs: &FieldMap) -> (r: FieldMap)
    ensures
        r.wf(),
        r@ == metadata_of_attributes(attrs@),
{
    let mut out = FieldMap::new();
    let n = attrs.len();
    let mut i: usize = 0;
    while i < n
        invariant
            n == attrs@.len(),
            i <= n,
            out.wf(),
            out@ == metadata_of_attributes(attrs@.subrange(0, i as int)),
        decreases n - i,
    {
        let key = attrs.key_at(i);
        proof {
            let part = attrs@.subrange(0, i + 1);
            assert(part.drop_last() =~= attrs@.subrange(0, i as int));
            reveal_strlit("metadata_");
        }
        if starts_with(key.as_str(), "metadata_") {
            let rest = suffix_from(key.as_str(), 9);
            out.insert(rest, clone_json(attrs.value_at(i)));
        }
        i = i + 1;
    }
    assert(attrs@.subrange(0, n as int) =~= attrs@);
    out
}

/// Versions are ordered by their number.
pub open spec fn version_key() -> spec_fn(MemoryVersion) -> int {
    |v: MemoryVersion| v.version as int
}

/// The history of one memory: its versions, ordered by version number.
#[derive(Debug)]
pub struct MemoryHistory {
    /// Memory ID
    pub memory_id: String,
    /// The highest version number recorded
    pub current_version: u32,
    /// Versions, ordered by version number
    pub versions: Vec<MemoryVersion>,
}

/// Whether `p` is the first position of `s` whose version number is `v`.
pub open spec fn first_with_version(s: Seq<MemoryVersion>, v: u32, p: int) -> bool {
    0 <= p < s.len() && s[p].version == v && forall|j: int| 0 <= j < p ==> #[trigger] s[j].version != v
}

/// Whether `s` holds a version numbered `v`.
pub open spec fn has_version(s: Seq<MemoryVersion>, v: u32) -> bool {
    exists|j: int| 0 <= j < s.len() && #[trigger] s[j].version == v
}

/// The versions of `s` whose change kind is `c`, in order.
pub open spec fn with_change_type(c: ChangeType) -> spec_fn(MemoryVersion) -> bool {
    |v: MemoryVersion| v.change_type == c
}

/// The versions recorded between `start` and `end` (inclusive).
pub open spec fn within_times(start: i64, end: i64) -> spec_fn(MemoryVersion) -> bool {
    |v: MemoryVersion| start <= v.timestamp && v.timestamp <= end
}

/// The first position of `s` holding version number `v` (meaningful when
/// there is one).
pub open spec fn first_index(s: Seq<MemoryVersion>, v: u32) -> int {
    choose|p: int| first_with_version(s, v, p)
}

/// The content of a version, or the empty text when it has none.
pub open spec fn content_or_empty(v: MemoryVersion) -> Seq<char> {
    match v.content {
        Some(c) => c@,
        None => Seq::<char>::empty(),
    }
}

/// The diff of one line position `i` of the two line lists: a changed line
/// gives "-old" and "+new", a removed line "-old", an added line "+new",
/// an unchanged line " line"; each followed by a newline.
pub open spec fn diff_entry(ol: Seq<Seq<char>>, nl: Seq<Seq<char>>, i: int) -> Seq<char> {
    if i < ol.len() && i < nl.len() {
        if ol[i] != nl[i] {
            seq!['-'] + ol[i] + seq!['\n'] + seq!['+'] + nl[i] + seq!['\n']
        } else {
            seq![' '] + ol[i] + seq!['\n']
        }
    } else if i < ol.len() {
        seq!['-'] + ol[i] + seq!['\n']
    } else if i < nl.len() {
        seq!['+'] + nl[i] + seq!['\n']
    } else {
        Seq::<char>::empty()
    }
}

/// The diff entries of the first `n` line positions.
pub open spec fn diff_entries(ol: Seq<Seq<char>>, nl: Seq<Seq<char>>, n: nat) -> Seq<char>
    decreases n,
{
    if n == 0 {
        Seq::<char>::empty()
    } else {
        diff_entries(ol, nl, (n - 1) as nat) + diff_entry(ol, nl, n - 1)
    }
}

/// The line-based diff of two texts: a two-line header, then one entry
/// per line position up to the longer of the two texts.
pub open spec fn diff_text(old: Seq<char>, new: Seq<char>) -> Seq<char> {
    let ol = text_lines(old);
    let nl = text_lines(new);
    let n = if ol.len() >= nl.len() { ol.len() } else { nl.len() };
    "--- Version A\n+++ Version B\n"@ + diff_entries(ol, nl, n)
}

/// The text of a diff entry: its marker, its line and a newline.
pub open spec fn entry_text(e: (char, Seq<char>)) -> Seq<char> {
    seq![e.0] + e.1 + seq!['\n']
}

/// The text of a run of diff entries.
pub open spec fn entries_text(es: Seq<(char, Seq<char>)>) -> Seq<char>
    decreases es.len(),
{
    if es.len() == 0 {
        Seq::empty()
    } else {
        entries_text(es.drop_last()) + entry_text(es.last())
    }
}

/// The lines that diff entries give for the side `marker` stands for ('-'
/// for the old text, '+' for the new): the lines of the entries marked so
/// or marked ' ' (unchanged), in order.
pub open spec fn side_lines(es: Seq<(char, Seq<char>)>, marker: char) -> Seq<Seq<char>>
    decreases es.len(),
{
    if es.len() == 0 {
        Seq::empty()
    } else {
        let rest = side_lines(es.drop_last(), marker);
        if es.last().0 == marker || es.last().0 == ' ' {
            rest.push(es.last().1)
        } else {
            rest
        }
    }
}

/// The entries standing for line position `i`.
spec fn position_entries(ol: Seq<Seq<char>>, nl: Seq<Seq<char>>, i: int) -> Seq<(char, Seq<char>)> {
    if i < ol.len() && i < nl.len() {
        if ol[i] != nl[i] {
            seq![('-', ol[i]), ('+', nl[i])]
        } else {
            seq![(' ', ol[i])]
        }
    } else if i < ol.len() {
        seq![('-', ol[i])]
    } else if i < nl.len() {
        seq![('+', nl[i])]
    } else {
        Seq::empty()
    }
}

/// The entries standing for the first `n` line positions.
spec fn positions_entries(ol: Seq<Seq<char>>, nl: Seq<Seq<char>>, n: nat) -> Seq<(char, Seq<char>)>
    decreases n,
{
    if n == 0 {
        Seq::empty()
    } else {
        positions_entries(ol, nl, (n - 1) as nat) + position_entries(ol, nl, n - 1)
    }
}

proof fn lemma_entries_text_append(a: Seq<(char, Seq<char>)>, b: Seq<(char, Seq<char>)>)
    ensures
        entries_text(a + b) == entries_text(a) + entries_text(b),
    decreases b.len(),
{
    if b.len() == 0 {
        assert(a + b =~= a);
        assert(entries_text(a) + Seq::<char>::empty() =~= entries_text(a));
    } else {
        assert((a + b).drop_last() =~= a + b.drop_last());
        assert((a + b).last() == b.last());
        lemma_entries_text_append(a, b.drop_last());
        assert(entries_text(a) + entries_text(b.drop_last()) + entry_text(b.last()) =~= entries_text(a) + (
        entries_text(b.drop_last()) + entry_text(b.last())));
    }
}

proof fn lemma_side_lines_append(a: Seq<(char, Seq<char>)>, b: Seq<(char, Seq<char>)>, marker: char)
    ensures
        side_lines(a + b, marker) == side_lines(a, marker) + side_lines(b, marker),
    decreases b.len(),
{
    if b.len() == 0 {
        assert(a + b =~= a);
        assert(side_lines(a, marker) + Seq::<Seq<char>>::empty() =~= side_lines(a, marker));
    } else {
        assert((a + b).drop_last() =~= a + b.drop_last());
        assert((a + b).last() == b.last());
        lemma_side_lines_append(a, b.drop_last(), marker);
        if b.last().0 == marker || b.last().0 == ' ' {
            assert(side_lines(a, marker) + side_lines(b.drop_last(), marker).push(b.last().1) =~= (side_lines(
                a,
                marker,
            ) + side_lines(b.drop_last(), marker)).push(b.last().1));
        }
    }
}

proof fn lemma_single_entry(e: (char, Seq<char>), marker: char)
    ensures
        entries_text(seq![e]) == entry_text(e),
        side_lines(seq![e], marker) == (if e.0 == marker || e.0 == ' ' { seq![e.1] } else { Seq::empty() }),
{
    let one = seq![e];
    assert(one.drop_last() =~= Seq::<(char, Seq<char>)>::empty());
    assert(one.last() == e);
    assert(entries_text(one.drop_last()) == Seq::<char>::empty());
    assert(Seq::<char>::empty() + entry_text(e) =~= entry_text(e));
    assert(side_lines(one.drop_last(), marker) == Seq::<Seq<char>>::empty());
    assert(Seq::<Seq<char>>::empty().push(e.1) =~= seq![e.1]);
}

/// The entries of one position give its diff entry, its old line (if any)
/// on the '-' side and its new line (if any) on the '+' side.
proof fn lemma_position_entries(ol: Seq<Seq<char>>, nl: Seq<Seq<char>>, i: int)
    requires
        0 <= i,
    ensures
        entries_text(position_entries(ol, nl, i)) == diff_entry(ol, nl, i),
        side_lines(position_entries(ol, nl, i), '-') == (if i < ol.len() { seq![ol[i]] } else { Seq::empty() }),
        side_lines(position_entries(ol, nl, i), '+') == (if i < nl.len() { seq![nl[i]] } else { Seq::empty() }),
        forall|k: int| 0 <= k < position_entries(ol, nl, i).len() ==> (#[trigger] position_entries(ol, nl, i)[k]).0
            == '-' || position_entries(ol, nl, i)[k].0 == '+' || position_entries(ol, nl, i)[k].0 == ' ',
{
    let es = position_entries(ol, nl, i);
    if es.len() == 2 {
        let a = es[0];
        let b = es[1];
        assert(es =~= seq![a] + seq![b]);
        lemma_single_entry(a, '-');
        lemma_single_entry(a, '+');
        lemma_single_entry(b, '-');
        lemma_single_entry(b, '+');
        lemma_entries_text_append(seq![a], seq![b]);
        lemma_side_lines_append(seq![a], seq![b], '-');
        lemma_side_lines_append(seq![a], seq![b], '+');
        assert(entries_text(es) =~= diff_entry(ol, nl, i));
        assert(side_lines(es, '-') =~= seq![ol[i]]);
        assert(side_lines(es, '+') =~= seq![nl[i]]);
    } else if es.len() == 1 {
        let a = es[0];
        assert(es =~= seq![a]);
        lemma_single_entry(a, '-');
        lemma_single_entry(a, '+');
        assert(entries_text(es) =~= diff_entry(ol, nl, i));
        assert(side_lines(es, '-') =~= (if i < ol.len() { seq![ol[i]] } else { Seq::empty() }));
        assert(side_lines(es, '+') =~= (if i < nl.len() { seq![nl[i]] } else { Seq::empty() }));
    } else {
        assert(side_lines(es, '-') =~= Seq::<Seq<char>>::empty());
    }
}

/// The entries of the first `n` positions give the first `n` diff
/// entries, the first `n` old lines on the '-' side and the first `n` new
/// lines on the '+' side.
proof fn lemma_positions_entries(ol: Seq<Seq<char>>, nl: Seq<Seq<char>>, n: nat)
    ensures
        entries_text(positions_entries(ol, nl, n)) == diff_entries(ol, nl, n),
        side_lines(positions_entries(ol, nl, n), '-') == ol.take(if n < ol.len() { n as int } else { ol.len() as int }),
        side_lines(positions_entries(ol, nl, n), '+') == nl.take(if n < nl.len() { n as int } else { nl.len() as int }),
        forall|k: int| 0 <= k < positions_entries(ol, nl, n).len() ==> (#[trigger] positions_entries(ol, nl, n)[k]).0
            == '-' || positions_entries(ol, nl, n)[k].0 == '+' || positions_entries(ol, nl, n)[k].0 == ' ',
    decreases n,
{
    if n == 0 {
        assert(ol.take(0) =~= Seq::<Seq<char>>::empty());
        assert(nl.take(0) =~= Seq::<Seq<char>>::empty());
    } else {
        let m = (n - 1) as nat;
        let a = positions_entries(ol, nl, m);
        let b = position_entries(ol, nl, m as int);
        lemma_positions_entries(ol, nl, m);
        lemma_position_entries(ol, nl, m as int);
        lemma_entries_text_append(a, b);
        lemma_side_lines_append(a, b, '-');
        lemma_side_lines_append(a, b, '+');
        if m < ol.len() {
            assert(ol.take(m as int).push(ol[m as int]) =~= ol.take(n as int));
        } else {
            assert(ol.take(ol.len() as int) + Seq::<Seq<char>>::empty() =~= ol.take(ol.len() as int));
        }
        if m < nl.len() {
            assert(nl.take(m as int).push(nl[m as int]) =~= nl.take(n as int));
        } else {
            assert(nl.take(nl.len() as int) + Seq::<Seq<char>>::empty() =~= nl.take(nl.len() as int));
        }
        assert forall|k: int| 0 <= k < positions_entries(ol, nl, n).len() implies (#[trigger] positions_entries(
            ol,
            nl,
            n,
        )[k]).0 == '-' || positions_entries(ol, nl, n)[k].0 == '+' || positions_entries(ol, nl, n)[k].0 == ' ' by {
            if k < a.len() {
                assert(positions_entries(ol, nl, n)[k] == a[k]);
            } else {
                assert(positions_entries(ol, nl, n)[k] == b[k - a.len()]);
            }
        }
    }
}

/// The diff lists every line of both texts: after its header it is a run
/// of entries, each a marker ('-', '+' or ' '), a line and a newline; the
/// lines of the entries marked '-' or ' ' are the lines of the old text, in
/// order, and those marked '+' or ' ' the lines of the new text.
pub proof fn lemma_diff_lists_both_texts(old: Seq<char>, new: Seq<char>)
    ensures
        exists|es: Seq<(char, Seq<char>)>|
            {
                &&& diff_text(old, new) == "--- Version A\n+++ Version B\n"@ + entries_text(es)
                &&& side_lines(es, '-') == text_lines(old)
                &&& side_lines(es, '+') == text_lines(new)
                &&& forall|k: int| 0 <= k < es.len() ==> (#[trigger] es[k]).0 == '-' || es[k].0 == '+' || es[k].0 == ' '
            },
{
    let ol = text_lines(old);
    let nl = text_lines(new);
    let n = if ol.len() >= nl.len() { ol.len() } else { nl.len() };
    lemma_positions_entries(ol, nl, n);
    assert(ol.take(ol.len() as int) =~= ol);
    assert(nl.take(nl.len() as int) =~= nl);
    let es = positions_entries(ol, nl, n);
    assert(diff_text(old, new) == "--- Version A\n+++ Version B\n"@ + entries_text(es));
}


/// The message of a missing version.
pub open spec fn version_not_found(v: u32) -> Seq<char> {
    "Version "@ + decimal(v as nat) + " not found"@
}

/// Insertion sort of versions by number; equal numbers keep their order.
fn sort_versions(items: Vec<MemoryVersion>) -> (r: Vec<MemoryVersion>)
    ensures
        r@ == stable_sorted(items@, version_key()),
{
    let ghost all = items@;
    let mut rest = items;
    let mut out: Vec<MemoryVersion> = Vec::new();
    let mut k: usize = 0;
    assert(all.take(0) =~= Seq::<MemoryVersion>::empty());
    assert(all.len() == rest.len());
    while rest.len() > 0
        invariant
            all.len() <= usize::MAX,
            k <= all.len(),
            rest@ == all.skip(k as int),
            out@ == stable_sorted(all.take(k as int), version_key()),
        decreases rest.len(),
    {
        let x = rest.remove(0);
        let key = x.version;
        let n = out.len();
        let mut p: usize = 0;
        while p < n && out[p].version <= key
            invariant
                n == out@.len(),
                p <= n,
                forall|j: int| 0 <= j < p ==> (version_key())(#[trigger] out@[j]) <= key as int,
            decreases n - p,
        {
            p = p + 1;
        }
        proof {
            lemma_insertion_point_is(out@, version_key(), key as int, p as int);
            assert(all.take(k + 1).drop_last() =~= all.take(k as int));
            assert(all.take(k + 1).last() == x);
            assert(all.skip(k as int).drop_first() =~= all.skip(k + 1));
        }
        out.insert(p, x);
        k = k + 1;
    }
    assert(all.take(k as int) =~= all);
    out
}

impl MemoryHistory {
    /// An empty history of the memory `memory_id`.
    pub fn new(memory_id: &str) -> (r: MemoryHistory)
        ensures
            r.memory_id@ == memory_id@,
            r.current_version == 0,
            r.versions@.len() == 0,
    {
        MemoryHistory { memory_id: String::from_str(memory_id), current_version: 0, versions: Vec::new() }
    }

    /// Records a version. A version of another memory is refused with a
    /// `ValidationError` and nothing changes; otherwise the current
    /// version becomes the larger of the two numbers and the versions are
    /// re-ordered by number, a stable sort keeping equal numbers in the
    /// order they were recorded.
    pub fn add_version(&mut self, version: MemoryVersion) -> (r: Result<(), Error>)
        ensures
            version.memory_id@ != old(self).memory_id@ ==> (r matches Err(Error::ValidationError(m))
                && m@ == "Version memory ID "@ + version.memory_id@ + " does not match history memory ID "@
                    + old(self).memory_id@ && *final(self) == *old(self)),
            version.memory_id@ == old(self).memory_id@ ==> (r is Ok && final(self).memory_id
                == old(self).memory_id && final(self).current_version == (if version.version
                > old(self).current_version {
                version.version
            } else {
                old(self).current_version
            }) && final(self).versions@ == stable_sorted(
                old(self).versions@.push(version),
                version_key(),
            )),
    {
        if !str_eq(version.memory_id.as_str(), self.memory_id.as_str()) {
            let mut m = String::from_str("Version memory ID ");
            m.append(version.memory_id.as_str());
            m.append(" does not match history memory ID ");
            m.append(self.memory_id.as_str());
            return Err(Error::ValidationError(m));
        }
        if version.version > self.current_version {
            self.current_version = version.version;
        }
        let mut items: Vec<MemoryVersion> = Vec::new();
        std::mem::swap(&mut items, &mut self.versions);
        items.push(version);
        self.versions = sort_versions(items);
        Ok(())
    }

    /// The first version numbered `version`, if any.
    pub fn get_version(&self, version: u32) -> (r: Option<&MemoryVersion>)
        ensures
            r is None <==> !has_version(self.versions@, version),
            r matches Some(x) ==> exists|p: int| first_with_version(self.versions@, version, p)
                && *x == self.versions@[p],
    {
        let n = self.versions.len();
        let mut i: usize = 0;
        while i < n
            invariant
                n == self.versions@.len(),
                i <= n,
                forall|j: int| 0 <= j < i ==> #[trigger] self.versions@[j].version != version,
            decreases n - i,
        {
            if self.versions[i].version == version {
                assert(first_with_version(self.versions@, version, i as int));
                return Some(&self.versions[i]);
            }
            i = i + 1;
        }
        None
    }

    /// The first version with the ID `id`, if any.
    pub fn get_version_by_id(&self, id: &str) -> (r: Option<&MemoryVersion>)
        ensures
            r is None <==> forall|j: int| 0 <= j < self.versions@.len() ==> #[trigger] self.versions@[j].id@ != id@,
            r matches Some(x) ==> exists|p: int| 0 <= p < self.versions@.len() && self.versions@[p].id@ == id@
                && (forall|j: int| 0 <= j < p ==> #[trigger] self.versions@[j].id@ != id@)
                && *x == self.versions@[p],
    {
        let n = self.versions.len();
        let mut i: usize = 0;
        while i < n
            invariant
                n == self.versions@.len(),
                i <= n,
                forall|j: int| 0 <= j < i ==> #[trigger] self.versions@[j].id@ != id@,
            decreases n - i,
        {
            if str_eq(self.versions[i].id.as_str(), id) {
                return Some(&self.versions[i]);
            }
            i = i + 1;
        }
        None
    }

    /// The version numbered with the current version number, if recorded.
    pub fn get_current_version(&self) -> (r: Option<&MemoryVersion>)
        ensures
            r is None <==> !has_version(self.versions@, self.current_version),
            r matches Some(x) ==> exists|p: int| first_with_version(self.versions@, self.current_version, p)
                && *x == self.versions@[p],
    {
        self.get_version(self.current_version)
    }

    /// The versions of the given change kind, in order.
    pub fn get_versions_by_change_type(&self, change_type: ChangeType) -> (r: Vec<&MemoryVersion>)
        ensures
            r@.map_values(|x: &MemoryVersion| *x) == self.versions@.filter(with_change_type(change_type)),
    {
        let n = self.versions.len();
        let mut out: Vec<&MemoryVersion> = Vec::new();
        let mut i: usize = 0;
        while i < n
            invariant
                n == self.versions@.len(),
                i <= n,
                out@.map_values(|x: &MemoryVersion| *x) == self.versions@.take(i as int).filter(
                    with_change_type(change_type),
                ),
            decreases n - i,
        {
            proof {
                assert(self.versions@.take(i + 1) =~= self.versions@.take(i as int).push(self.versions@[i as int]));
                self.versions@.take(i as int).lemma_filter_push(self.versions@[i as int], with_change_type(change_type));
            }
            if self.versions[i].change_type == change_type {
                out.push(&self.versions[i]);
            }
            proof {
                assert(out@.map_values(|x: &MemoryVersion| *x) =~= self.versions@.take(i + 1).filter(
                    with_change_type(change_type),
                ));
            }
            i = i + 1;
        }
        assert(self.versions@.take(n as int) =~= self.versions@);
        out
    }

    /// The versions recorded between `start` and `end`, both included
    /// (milliseconds since the Unix epoch), in order.
    pub fn get_versions_by_time_range(&self, start: i64, end: i64) -> (r: Vec<&MemoryVersion>)
        ensures
            r@.map_values(|x: &MemoryVersion| *x) == self.versions@.filter(within_times(start, end)),
    {
        let n = self.versions.len();
        let mut out: Vec<&MemoryVersion> = Vec::new();
        let mut i: usize = 0;
        while i < n
            invariant
                n == self.versions@.len(),
                i <= n,
                out@.map_values(|x: &MemoryVersion| *x) == self.versions@.take(i as int).filter(
                    within_times(start, end),
                ),
            decreases n - i,
        {
            proof {
                assert(self.versions@.take(i + 1) =~= self.versions@.take(i as int).push(self.versions@[i as int]));
                self.versions@.take(i as int).lemma_filter_push(self.versions@[i as int], within_times(start, end));
            }
            let ts = self.versions[i].timestamp;
            if start <= ts && ts <= end {
                out.push(&self.versions[i]);
            }
            proof {
                assert(out@.map_values(|x: &MemoryVersion| *x) =~= self.versions@.take(i + 1).filter(
                    within_times(start, end),
                ));
            }
            i = i + 1;
        }
        assert(self.versions@.take(n as int) =~= self.versions@);
        out
    }

    /// The versions numbered `from_version` to `to_version`, one per
    /// number, in increasing order. A reversed range is refused with a
    /// `ValidationError`; the smallest missing number gives `NotFound`.
    pub fn get_version_path(&self, from_version: u32, to_version: u32) -> (r: Result<Vec<&MemoryVersion>, Error>)
        ensures
            from_version > to_version ==> (r matches Err(Error::ValidationError(m)) && m@ == "From version "@
                + decimal(from_version as nat) + " is greater than to version "@ + decimal(
                to_version as nat,
            )),
            from_version <= to_version ==> (match r {
                Ok(path) => path@.len() == to_version - from_version + 1 && (forall|k: int|
                    0 <= k < path@.len() ==> has_version(self.versions@, (from_version + k) as u32)
                        && *#[trigger] path@[k] == self.versions@[first_index(
                        self.versions@,
                        (from_version + k) as u32,
                    )]),
                Err(Error::NotFound(m)) => exists|w: u32|
                    from_version <= w <= to_version && !has_version(self.versions@, w) && (forall|u: u32|
                        from_version <= u < w ==> has_version(self.versions@, u)) && m@ == version_not_found(w),
                _ => false,
            }),
    {
        if from_version > to_version {
            let mut m = String::from_str("From version ");
            push_decimal(&mut m, from_version as u64);
            m.append(" is greater than to version ");
            push_decimal(&mut m, to_version as u64);
            return Err(Error::ValidationError(m));
        }
        let mut path: Vec<&MemoryVersion> = Vec::new();
        let mut v = from_version;
        loop
            invariant
                from_version <= v <= to_version,
                path@.len() == v - from_version,
                forall|u: u32| from_version <= u < v ==> has_version(self.versions@, u),
                forall|k: int|
                    0 <= k < path@.len() ==> has_version(self.versions@, (from_version + k) as u32)
                        && *#[trigger] path@[k] == self.versions@[first_index(
                        self.versions@,
                        (from_version + k) as u32,
                    )],
            decreases to_version - v,
        {
            match self.get_version(v) {
                Some(x) => {
                    proof {
                        let p = choose|p: int| first_with_version(self.versions@, v, p) && *x == self.versions@[p];
                        assert(first_with_version(self.versions@, v, first_index(self.versions@, v)));
                        assert(p == first_index(self.versions@, v));
                        assert(((from_version + path@.len()) as u32) == v);
                    }
                    path.push(x);
                },
                None => {
                    let mut m = String::from_str("Version ");
                    push_decimal(&mut m, v as u64);
                    m.append(" not found");
                    assert(m@ == version_not_found(v));
                    assert(!has_version(self.versions@, v));
                    return Err(Error::NotFound(m));
                },
            }
            if v == to_version {
                assert(path@.len() == to_version - from_version + 1);
                return Ok(path);
            }
            v = v + 1;
        }
    }

    /// The line diff between the contents of two versions (a version
    /// without content counts as empty text). The first of the two numbers
    /// that is not recorded gives `NotFound`.
    pub fn diff_versions(&self, from_version: u32, to_version: u32) -> (r: Result<String, Error>)
        ensures
            !has_version(self.versions@, from_version) ==> (r matches Err(Error::NotFound(m)) && m@
                == version_not_found(from_version)),
            has_version(self.versions@, from_version) && !has_version(self.versions@, to_version) ==> (r matches Err(
                Error::NotFound(m),
            ) && m@ == version_not_found(to_version)),
            has_version(self.versions@, from_version) && has_version(self.versions@, to_version) ==> (r matches Ok(
                d,
            ) && d@ == diff_text(
                content_or_empty(self.versions@[first_index(self.versions@, from_version)]),
                content_or_empty(self.versions@[first_index(self.versions@, to_version)]),
            )),
    {
        let from = match self.get_version(from_version) {
            Some(x) => x,
            None => {
                let mut m = String::from_str("Version ");
                push_decimal(&mut m, from_version as u64);
                m.append(" not found");
                return Err(Error::NotFound(m));
            },
        };
        let to = match self.get_version(to_version) {
            Some(x) => x,
            None => {
                let mut m = String::from_str("Version ");
                push_decimal(&mut m, to_version as u64);
                m.append(" not found");
                return Err(Error::NotFound(m));
            },
        };
        proof {
            assert(first_with_version(self.versions@, from_version, first_index(self.versions@, from_version)));
            assert(first_with_version(self.versions@, to_version, first_index(self.versions@, to_version)));
        }
        let from_content: &str = match &from.content {
            Some(c) => c.as_str(),
            None => "",
        };
        let to_content: &str = match &to.content {
            Some(c) => c.as_str(),
            None => "",
        };
        proof {
            reveal_strlit("");
        }
        Ok(self.calculate_diff(from_content, to_content))
    }

    /// The line-based diff of two texts: a header, then for each line
    /// position a changed, removed, added or unchanged entry.
    pub fn calculate_diff(&self, old: &str, new: &str) -> (r: String)
        ensures
            r@ == diff_text(old@, new@),
    {
        let ol = lines_of(old);
        let nl = lines_of(new);
        let ghost olv = ol@.map_values(|l: String| l@);
        let ghost nlv = nl@.map_values(|l: String| l@);
        let mut out = String::from_str("--- Version A\n");
        out.append("+++ Version B\n");
        proof {
            reveal_strlit("--- Version A\n");
            reveal_strlit("+++ Version B\n");
            reveal_strlit("--- Version A\n+++ Version B\n");
            assert(out@ =~= "--- Version A\n+++ Version B\n"@);
        }
        let n = if ol.len() >= nl.len() { ol.len() } else { nl.len() };
        let mut i: usize = 0;
        while i < n
            invariant
                i <= n,
                n == (if olv.len() >= nlv.len() { olv.len() } else { nlv.len() }),
                olv == ol@.map_values(|l: String| l@),
                nlv == nl@.map_values(|l: String| l@),
                out@ == "--- Version A\n+++ Version B\n"@ + diff_entries(olv, nlv, i as nat),
            decreases n - i,
        {
            let ghost before = out@;
            if i < ol.len() && i < nl.len() {
                if !str_eq(ol[i].as_str(), nl[i].as_str()) {
                    push_char(&mut out, '-');
                    out.append(ol[i].as_str());
                    push_char(&mut out, '\n');
                    push_char(&mut out, '+');
                    out.append(nl[i].as_str());
                    push_char(&mut out, '\n');
                } else {
                    push_char(&mut out, ' ');
                    out.append(ol[i].as_str());
                    push_char(&mut out, '\n');
                }
            } else if i < ol.len() {
                push_char(&mut out, '-');
                out.append(ol[i].as_str());
                push_char(&mut out, '\n');
            } else if i < nl.len() {
                push_char(&mut out, '+');
                out.append(nl[i].as_str());
                push_char(&mut out, '\n');
            }
            proof {
                assert(out@ =~= before + diff_entry(olv, nlv, i as int));
                assert(diff_entries(olv, nlv, (i + 1) as nat) == diff_entries(olv, nlv, i as nat) + diff_entry(olv, nlv, i as int));
                assert(out@ =~= "--- Version A\n+++ Version B\n"@ + diff_entries(olv, nlv, (i + 1) as nat));
            }
            i = i + 1;
        }
        out
    }

    /// For every version, in order: its number, change kind and time.
    pub fn get_version_history(&self) -> (r: Vec<(u32, ChangeType, i64)>)
        ensures
            r@.len() == self.versions@.len(),
            forall|i: int| 0 <= i < r@.len() ==> #[trigger] r@[i] == (self.versions@[i].version,
                self.versions@[i].change_type, self.versions@[i].timestamp),
    {
        let n = self.versions.len();
        let mut out: Vec<(u32, ChangeType, i64)> = Vec::new();
        let mut i: usize = 0;
        while i < n
            invariant
                n == self.versions@.len(),
                i <= n,
                out@.len() == i,
                forall|j: int| 0 <= j < i ==> #[trigger] out@[j] == (self.versions@[j].version,
                    self.versions@[j].change_type, self.versions@[j].timestamp),
            decreases n - i,
        {
            let v = &self.versions[i];
            out.push((v.version, v.change_type, v.timestamp));
            i = i + 1;
        }
        out
    }
}

/// A version written as an entity and read back is the same version, field
/// for field: a version `back` read from the attributes that `v` was
/// written with agrees with `v` on every field.
pub proof fn lemma_version_entity_roundtrip(
    v: MemoryVersion,
    s: Seq<(Seq<char>, serde_json::Value)>,
    back: MemoryVersion,
)
    requires
        read_version(v, v.id@, s),
        read_version(back, v.id@, s),
    ensures
        back.id@ == v.id@,
        back.memory_id@ == v.memory_id@,
        back.version == v.version,
        back.change_type == v.change_type,
        back.timestamp == v.timestamp,
        opt_view(back.user_id) == opt_view(v.user_id),
        opt_view(back.content) == opt_view(v.content),
        opt_view(back.previous_version_id) == opt_view(v.previous_version_id),
        string_views(back.related_version_ids@) == string_views(v.related_version_ids@),
        opt_view(back.change_summary) == opt_view(v.change_summary),
        opt_view(back.diff) == opt_view(v.diff),
        back.metadata@ == v.metadata@,
{
}

/// After a version is recorded, the versions are ordered by number and
/// there is one more of them.
pub proof fn lemma_recorded_versions_ordered(versions: Seq<MemoryVersion>, v: MemoryVersion)
    ensures
        sorted_by(stable_sorted(versions.push(v), version_key()), version_key()),
        stable_sorted(versions.push(v), version_key()).len() == versions.len() + 1,
{
    lemma_stable_sorted_sorted(versions.push(v), version_key());
}

/// Recording a version in an ordered history keeps every earlier version in
/// its order and places the new one after all versions whose number is not
/// greater; afterwards a version with its number is found.
pub proof fn lemma_recorded_version_inserted(versions: Seq<MemoryVersion>, v: MemoryVersion)
    requires
        sorted_by(versions, version_key()),
    ensures
        stable_sorted(versions.push(v), version_key()) == insert_stable(versions, version_key(), v),
        has_version(stable_sorted(versions.push(v), version_key()), v.version),
{
    lemma_stable_sorted_of_sorted(versions, version_key());
    assert(versions.push(v).drop_last() =~= versions);
    let p = insertion_point(versions, version_key(), v.version as int) as int;
    crate::order::lemma_insertion_point_bounds(versions, version_key(), v.version as int);
    assert(insert_stable(versions, version_key(), v)[p] == v);
}

/// The stored text of every change kind is plain lowercase ASCII (so case
/// folding leaves it unchanged) and is read back as that kind.
pub proof fn lemma_change_type_text_roundtrip(c: ChangeType)
    ensures
        all_plain_lower(change_type_text(c)),
        change_type_of_folded(change_type_text(c)) == Some(c),
{
    reveal_strlit("creation");
    reveal_strlit("update");
    reveal_strlit("deletion");
    reveal_strlit("restoration");
    reveal_strlit("merge");
    reveal_strlit("split");
    reveal_strlit("custom");
    assert("creation"@[0] == 'c' && "creation"@[1] == 'r');
    assert("custom"@[0] == 'c' && "custom"@[1] == 'u');
    assert("update"@[0] == 'u');
    assert("deletion"@[0] == 'd');
    assert("restoration"@[0] == 'r');
    assert("merge"@[0] == 'm');
    assert("split"@[0] == 's');
    match c {
        ChangeType::Custom(code) => {
            let t = change_type_text(c);
            let d = decimal(code as nat);
            lemma_decimal_digits(code as nat);
            assert(t.subrange(0, 6) =~= "custom"@);
            assert(t.subrange(6, t.len() as int) =~= d);
            assert forall|i: int| 0 <= i < t.len() implies is_plain_lower(#[trigger] t[i]) by {
                if i >= 6 {
                    assert(t[i] == d[i - 6]);
                    assert(is_digit(d[i - 6]));
                }
            }
            assert(t != "creation"@) by { assert(t[1] != "creation"@[1]); }
            lemma_digits_not_white(d);
            assert(parsed_u8(d) == Some(code));
        },
        _ => {
            assert(!has_prefix(change_type_text(c), "custom"@));
        },
    }
}

proof fn lemma_decimal_digits(n: nat)
    ensures
        decimal(n).len() >= 1,
        all_digits(decimal(n)),
        digits_value(decimal(n)) == n,
    decreases n,
{
    lemma_digit_char_value(n % 10);
    if n < 10 {
        assert(decimal(n).drop_last() =~= Seq::<char>::empty());
        assert(digits_value(decimal(n)) == digits_value(decimal(n).drop_last()) * 10
            + crate::text::digit_value(decimal(n).last()));
    } else {
        lemma_decimal_digits(n / 10);
        let d = decimal(n);
        assert(d.drop_last() =~= decimal(n / 10));
        assert(digits_value(d) == digits_value(d.drop_last()) * 10 + crate::text::digit_value(d.last()));
        assert(n == (n / 10) * 10 + n % 10);
        assert forall|i: int| 0 <= i < d.len() implies is_digit(#[trigger] d[i]) by {
            if i < d.len() - 1 {
                assert(d[i] == decimal(n / 10)[i]);
            }
        }
    }
}

proof fn lemma_digit_char_value(d: nat)
    requires
        d < 10,
    ensures
        is_digit(digit_char(d)),
        crate::text::digit_value(digit_char(d)) == d,
{
}

proof fn lemma_digits_not_white(d: Seq<char>)
    requires
        d.len() >= 1,
        all_digits(d),
    ensures
        trimmed(d) == d,
{
    assert(is_digit(d[0]));
    assert(is_digit(d.last()));
}

} // verus!
