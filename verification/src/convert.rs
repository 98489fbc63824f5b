//! Moving a memory between the store's record and the application's finer
//! memory model: the metadata the store keeps for a memory of that model,
//! the custom entries the model gets back, and the identifier check.
use vstd::prelude::*;
use crate::clock::{check_uuid, uuid_parse_error};
use crate::entity::text_property;
use crate::error::{Error, message};
use crate::memory::MemoryMetadata;
use crate::text::opt_view;
use crate::value::{FieldMap, keyed_insert, lemma_insert_keeps_others, json_object, json_fields_of, json_from_fields, json_as_fields, json_as_str, json_text,
    json_from_str};

verus! {

/// The text held under `key` in `fields`, when it is a string.
fn custom_text(fields: &FieldMap, key: &str) -> (r: Option<String>)
    requires
        fields.wf(),
    ensures
        opt_view(r) == text_property(fields@, key@),
{
    match fields.get(key) {
        Some(v) => json_as_str(v),
        None => None,
    }
}

/// The store's metadata for a memory of the finer model with the custom
/// entries `custom`: the user, agent, context, category and source are the
/// custom entries of those names when they are strings ("default" and
/// "general" standing in for a missing context and category), the
/// keywords, tags, importance, creation and access times and embedding are
/// taken as given, and the custom entries are kept as a JSON object.
pub fn metadata_from_domain(
    custom: &FieldMap,
    keywords: Vec<String>,
    tags: Vec<String>,
    importance: u32,
    created_at: i64,
    last_accessed_at: i64,
    embedding: Option<Vec<u32>>,
) -> (r: MemoryMetadata)
    requires
        custom.wf(),
    ensures
        opt_view(r.user_id) == text_property(custom@, "user_id"@),
        opt_view(r.agent_id) == text_property(custom@, "agent_id"@),
        r.context@ == (match text_property(custom@, "context"@) {
            Some(t) => t,
            None => "default"@,
        }),
        r.keywords@ == keywords@,
        r.tags@ == tags@,
        r.category@ == (match text_property(custom@, "category"@) {
            Some(t) => t,
            None => "general"@,
        }),
        r.importance == importance,
        opt_view(r.source) == text_property(custom@, "source"@),
        r.created_at == created_at,
        r.last_accessed_at == Some(last_accessed_at),
        r.embedding == embedding,
        r.custom == json_object(custom@),
{
    let context = match custom_text(custom, "context") {
        Some(t) => t,
        None => String::from_str("default"),
    };
    let category = match custom_text(custom, "category") {
        Some(t) => t,
        None => String::from_str("general"),
    };
    MemoryMetadata {
        user_id: custom_text(custom, "user_id"),
        agent_id: custom_text(custom, "agent_id"),
        context,
        keywords,
        tags,
        category,
        importance,
        source: custom_text(custom, "source"),
        created_at,
        last_accessed_at: Some(last_accessed_at),
        embedding,
        custom: json_from_fields(custom),
    }
}

/// The custom entries the finer model gets for a stored memory: the
/// entries of its custom data when that is a JSON object (none otherwise),
/// with "evaluation_status" set to the memory's evaluation status.
pub fn domain_custom(custom: &serde_json::Value, evaluation_status: serde_json::Value) -> (r: FieldMap)
    ensures
        r.wf(),
        r@ == keyed_insert(
            match json_fields_of(*custom) {
                Some(f) => f,
                None => Seq::empty(),
            },
            "evaluation_status"@,
            evaluation_status,
        ),
{
    let mut fields = match json_as_fields(custom) {
        Some(m) => m,
        None => FieldMap::new(),
    };
    fields.insert(String::from_str("evaluation_status"), evaluation_status);
    fields
}

/// The entries a new memory of the finer model records from given
/// metadata: the user and the agent when there are some, then the context,
/// each as a JSON string.
pub fn custom_from_metadata(metadata: &MemoryMetadata) -> (r: FieldMap)
    ensures
        r.wf(),
        r@ == keyed_insert(
            opt_text_entry(opt_text_entry(Seq::empty(), "user_id"@, opt_view(metadata.user_id)), "agent_id"@, opt_view(metadata.agent_id)),
            "context"@,
            json_text(metadata.context@),
        ),
        text_property(r@, "user_id"@) == opt_view(metadata.user_id),
        text_property(r@, "agent_id"@) == opt_view(metadata.agent_id),
        text_property(r@, "context"@) == Some(metadata.context@),
{
    let mut fields = FieldMap::new();
    match &metadata.user_id {
        Some(u) => fields.insert(String::from_str("user_id"), json_from_str(u.as_str())),
        None => {},
    }
    match &metadata.agent_id {
        Some(a) => fields.insert(String::from_str("agent_id"), json_from_str(a.as_str())),
        None => {},
    }
    fields.insert(String::from_str("context"), json_from_str(metadata.context.as_str()));
    proof {
        reveal_strlit("user_id");
        reveal_strlit("agent_id");
        reveal_strlit("context");
        assert("user_id"@.len() == 7 && "agent_id"@.len() == 8 && "context"@.len() == 7);
        assert("user_id"@[0] != "context"@[0]);
        let e = Seq::<(Seq<char>, serde_json::Value)>::empty();
        let a1 = opt_text_entry(e, "user_id"@, opt_view(metadata.user_id));
        let a2 = opt_text_entry(a1, "agent_id"@, opt_view(metadata.agent_id));
        match opt_view(metadata.user_id) {
            Some(t) => {
                lemma_insert_keeps_others(e, "user_id"@, json_text(t));
            },
            None => {},
        }
        match opt_view(metadata.agent_id) {
            Some(t) => {
                lemma_insert_keeps_others(a1, "agent_id"@, json_text(t));
            },
            None => {},
        }
        lemma_insert_keeps_others(a2, "context"@, json_text(metadata.context@));
    }
    fields
}

/// The user, agent and context recorded as custom entries for a new
/// memory of the finer model come back unchanged in the metadata the store
/// keeps for it.
pub proof fn lemma_metadata_custom_roundtrip(m: MemoryMetadata, entries: Seq<(Seq<char>, serde_json::Value)>, back: MemoryMetadata)
    requires
        text_property(entries, "user_id"@) == opt_view(m.user_id),
        text_property(entries, "agent_id"@) == opt_view(m.agent_id),
        text_property(entries, "context"@) == Some(m.context@),
        opt_view(back.user_id) == text_property(entries, "user_id"@),
        opt_view(back.agent_id) == text_property(entries, "agent_id"@),
        back.context@ == (match text_property(entries, "context"@) {
            Some(t) => t,
            None => "default"@,
        }),
    ensures
        opt_view(back.user_id) == opt_view(m.user_id),
        opt_view(back.agent_id) == opt_view(m.agent_id),
        back.context@ == m.context@,
{
}

/// The entries after setting `key` to the JSON string of `o`'s text, when
/// there is one.
pub open spec fn opt_text_entry(
    s: Seq<(Seq<char>, serde_json::Value)>,
    key: Seq<char>,
    o: Option<Seq<char>>,
) -> Seq<(Seq<char>, serde_json::Value)> {
    match o {
        Some(t) => keyed_insert(s, key, json_text(t)),
        None => s,
    }
}

/// Checks that a stored memory's identifier is a UUID, as the finer model
/// requires, refusing it with `Internal` otherwise.
pub fn check_node_id(id: &str) -> (r: Result<(), Error>)
    ensures
        uuid_parse_error(id@) is None ==> r is Ok,
        uuid_parse_error(id@) matches Some(e) ==> (r matches Err(Error::Internal(m)) && m@
            == "Invalid UUID in memory node "@ + id@ + ": "@ + e),
{
    match check_uuid(id) {
        Ok(_) => Ok(()),
        Err(e) => {
            let head = message("Invalid UUID in memory node ", id);
            let head = message(head.as_str(), ": ");
            Err(Error::Internal(message(head.as_str(), e.as_str())))
        },
    }
}

} // verus!
