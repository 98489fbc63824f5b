//! Entities: records with an ID, a type and named attributes, and their
//! conversion to and from graph nodes.
use vstd::prelude::*;
use crate::error::GraphError;
use crate::text::str_eq;
use crate::value::{FieldMap, keyed_insert, keys_unique, json_as_str, json_from_str, json_str_of, json_text};

verus! {

/// A node of the graph store: an ID, JSON properties and labels.
#[derive(Debug)]
pub struct Node {
    pub id: String,
    pub properties: FieldMap,
    pub labels: Vec<String>,
}

/// The properties of a node, without the entries "id" and "entity_type"
/// that carry the entity's own fields.
pub open spec fn entity_attributes(s: Seq<(Seq<char>, serde_json::Value)>) -> Seq<(Seq<char>, serde_json::Value)>
    decreases s.len(),
{
    if s.len() == 0 {
        s
    } else {
        let r = entity_attributes(s.drop_last());
        if s.last().0 == "id"@ || s.last().0 == "entity_type"@ {
            r
        } else {
            r.push(s.last())
        }
    }
}

/// The text of the property `key`, when it is a JSON string.
pub open spec fn text_property(s: Seq<(Seq<char>, serde_json::Value)>, key: Seq<char>) -> Option<Seq<char>> {
    match crate::value::keyed_get(s, key) {
        Some(v) => json_str_of(v),
        None => None,
    }
}

/// Whether no attribute is named "id" or "entity_type".
pub open spec fn no_reserved_keys(s: Seq<(Seq<char>, serde_json::Value)>) -> bool {
    forall|i: int| 0 <= i < s.len() ==> #[trigger] s[i].0 != "id"@ && s[i].0 != "entity_type"@
}

/// The attributes after setting each entry of `extra` in turn.
pub open spec fn inserted_all(s: Seq<(Seq<char>, serde_json::Value)>, extra: Seq<(Seq<char>, serde_json::Value)>) -> Seq<(Seq<char>, serde_json::Value)>
    decreases extra.len(),
{
    if extra.len() == 0 {
        s
    } else {
        keyed_insert(inserted_all(s, extra.drop_last()), extra.last().0, extra.last().1)
    }
}

/// The attributes after removing each of `keys` in turn.
pub open spec fn removed_all(s: Seq<(Seq<char>, serde_json::Value)>, keys: Seq<Seq<char>>) -> Seq<(Seq<char>, serde_json::Value)>
    decreases keys.len(),
{
    if keys.len() == 0 {
        s
    } else {
        crate::value::keyed_remove(removed_all(s, keys.drop_last()), keys.last())
    }
}

/// A record with an ID, a type and named attributes.
#[derive(Debug)]
pub struct BaseEntity {
    id: String,
    entity_type: String,
    attributes: FieldMap,
}

impl BaseEntity {
    /// The ID.
    pub closed spec fn id_view(&self) -> Seq<char> {
        self.id@
    }

    /// The type.
    pub closed spec fn type_view(&self) -> Seq<char> {
        self.entity_type@
    }

    /// The attributes, in the order they were first set.
    pub closed spec fn attrs(&self) -> Seq<(Seq<char>, serde_json::Value)> {
        self.attributes@
    }

    /// The UTF-8 lengths of the ID and type plus 64 per attribute.
    pub closed spec fn usage_estimate(&self) -> nat {
        vstd::utf8::encode_utf8(self.id@).len() + vstd::utf8::encode_utf8(self.entity_type@).len() + 64 * self.attrs().len()
    }

    /// Attribute names are unique.
    pub closed spec fn wf(&self) -> bool {
        self.attributes.wf()
    }

    /// An entity with no attributes.
    pub fn new(id: String, entity_type: String) -> (r: BaseEntity)
        ensures
            r.wf(),
            r.id_view() == id@,
            r.type_view() == entity_type@,
            r.attrs().len() == 0,
    {
        BaseEntity { id, entity_type, attributes: FieldMap::new() }
    }

    /// An entity with no attributes (room for `capacity` is a hint only).
    pub fn with_capacity(id: String, entity_type: String, capacity: usize) -> (r: BaseEntity)
        ensures
            r.wf(),
            r.id_view() == id@,
            r.type_view() == entity_type@,
            r.attrs().len() == 0,
    {
        BaseEntity::new(id, entity_type)
    }

    /// An estimate of the memory taken, in bytes: the lengths of the ID and
    /// type and 64 per attribute.
    pub fn memory_usage(&self) -> (r: usize)
        requires
            self.usage_estimate() <= usize::MAX,
        ensures
            r == self.usage_estimate(),
    {
        self.id.as_str().len() + self.entity_type.as_str().len() + self.attributes.len() * 64
    }

    /// Checks one attribute; every attribute is accepted.
    pub fn validate_attribute(&self, key: &str, value: &serde_json::Value) -> (r: Result<(), GraphError>)
        ensures
            r is Ok,
    {
        Ok(())
    }

    /// Checks every attribute of `attributes`, then sets each in turn.
    pub fn set_attributes_bulk(&mut self, attributes: FieldMap) -> (r: Result<(), GraphError>)
        requires
            old(self).wf(),
        ensures
            r is Ok,
            final(self).wf(),
            final(self).id_view() == old(self).id_view(),
            final(self).type_view() == old(self).type_view(),
            final(self).attrs() == inserted_all(old(self).attrs(), attributes@),
    {
        let n = attributes.len();
        let mut i: usize = 0;
        while i < n
            invariant
                n == attributes@.len(),
                i <= n,
            decreases n - i,
        {
            let checked = self.validate_attribute(attributes.key_at(i).as_str(), attributes.value_at(i));
            match checked {
                Ok(()) => {},
                Err(e) => {
                    return Err(e);
                },
            }
            i = i + 1;
        }
        let mut j: usize = 0;
        while j < n
            invariant
                n == attributes@.len(),
                j <= n,
                self.wf(),
                self.id_view() == old(self).id_view(),
                self.type_view() == old(self).type_view(),
                self.attrs() == inserted_all(old(self).attrs(), attributes@.subrange(0, j as int)),
            decreases n - j,
        {
            let key = attributes.key_at(j).clone();
            let value = crate::value::clone_json(attributes.value_at(j));
            self.attributes.insert(key, value);
            proof {
                let part = attributes@.subrange(0, j + 1);
                assert(part.drop_last() =~= attributes@.subrange(0, j as int));
            }
            j = j + 1;
        }
        assert(attributes@.subrange(0, n as int) =~= attributes@);
        Ok(())
    }

    /// Removes the attributes named in `keys`.
    pub fn remove_attributes(&mut self, keys: &[&str])
        requires
            old(self).wf(),
        ensures
            final(self).wf(),
            final(self).id_view() == old(self).id_view(),
            final(self).type_view() == old(self).type_view(),
            final(self).attrs() == removed_all(old(self).attrs(), keys@.map_values(|k: &str| k@)),
    {
        let n = keys.len();
        let mut i: usize = 0;
        while i < n
            invariant
                n == keys@.len(),
                i <= n,
                self.wf(),
                self.id_view() == old(self).id_view(),
                self.type_view() == old(self).type_view(),
                self.attrs() == removed_all(old(self).attrs(), keys@.map_values(|k: &str| k@).subrange(0, i as int)),
            decreases n - i,
        {
            let key: &str = keys[i];
            self.attributes.remove(key);
            proof {
                let ks = keys@.map_values(|k: &str| k@);
                assert(ks.subrange(0, i + 1).drop_last() =~= ks.subrange(0, i as int));
                assert(ks.subrange(0, i + 1).last() == key@);
            }
            i = i + 1;
        }
        assert(keys@.map_values(|k: &str| k@).subrange(0, n as int) =~= keys@.map_values(|k: &str| k@));
    }

    /// Whether every name in `required` is an attribute.
    pub fn has_required_attributes(&self, required: &[&str]) -> (r: bool)
        requires
            self.wf(),
        ensures
            r == forall|j: int| 0 <= j < required@.len() ==> #[trigger] crate::value::keyed_get(self.attrs(), required@[j]@) is Some,
    {
        let n = required.len();
        let mut j: usize = 0;
        while j < n
            invariant
                n == required@.len(),
                self.wf(),
                j <= n,
                forall|b: int| 0 <= b < j ==> #[trigger] crate::value::keyed_get(self.attrs(), required@[b]@) is Some,
            decreases n - j,
        {
            let key: &str = required[j];
            match self.attributes.get(key) {
                Some(_) => {},
                None => {
                    return false;
                },
            }
            j = j + 1;
        }
        true
    }

    /// Sets the attribute `name` to `value` and returns the entity.
    pub fn with_attribute(self, name: &str, value: serde_json::Value) -> (r: BaseEntity)
        requires
            self.wf(),
        ensures
            r.wf(),
            r.id_view() == self.id_view(),
            r.type_view() == self.type_view(),
            r.attrs() == keyed_insert(self.attrs(), name@, value),
    {
        let mut this = self;
        this.attributes.insert(String::from_str(name), value);
        this
    }

    /// The ID.
    pub fn id(&self) -> (r: &str)
        ensures
            r@ == self.id_view(),
    {
        self.id.as_str()
    }

    /// The type.
    pub fn entity_type(&self) -> (r: &str)
        ensures
            r@ == self.type_view(),
    {
        self.entity_type.as_str()
    }

    /// The attribute `name`, if set.
    pub fn get_attribute(&self, name: &str) -> (r: Option<&serde_json::Value>)
        requires
            self.wf(),
        ensures
            match r {
                Some(v) => crate::value::keyed_get(self.attrs(), name@) == Some(*v),
                None => crate::value::keyed_get(self.attrs(), name@) is None,
            },
    {
        self.attributes.get(name)
    }

    /// Sets the attribute `name` to `value`.
    pub fn set_attribute(&mut self, name: &str, value: serde_json::Value)
        requires
            old(self).wf(),
        ensures
            final(self).wf(),
            final(self).id_view() == old(self).id_view(),
            final(self).type_view() == old(self).type_view(),
            final(self).attrs() == keyed_insert(old(self).attrs(), name@, value),
    {
        self.attributes.insert(String::from_str(name), value);
    }

    /// The attributes.
    pub fn attributes(&self) -> (r: &FieldMap)
        ensures
            r@ == self.attrs(),
            self.wf() ==> r.wf(),
    {
        &self.attributes
    }

    /// Checks that the ID and the type are not empty, in that order.
    pub fn validate(&self) -> (r: Result<(), GraphError>)
        ensures
            self.id_view().len() == 0 ==> (r matches Err(GraphError::ValidationError(m)) && m@ == "Entity ID cannot be empty"@),
            self.id_view().len() > 0 && self.type_view().len() == 0 ==> (r matches Err(GraphError::ValidationError(m))
                && m@ == "Entity type cannot be empty"@),
            self.id_view().len() > 0 && self.type_view().len() > 0 ==> r is Ok,
    {
        if self.id.as_str().unicode_len() == 0 {
            return Err(GraphError::ValidationError(String::from_str("Entity ID cannot be empty")));
        }
        if self.entity_type.as_str().unicode_len() == 0 {
            return Err(GraphError::ValidationError(String::from_str("Entity type cannot be empty")));
        }
        Ok(())
    }

    /// The graph node of this entity: its attributes, then "id" and
    /// "entity_type" set to the entity's ID and type as JSON strings; the
    /// type is the node's only label.
    pub fn to_node(&self) -> (r: Node)
        requires
            self.wf(),
        ensures
            r.id@ == self.id_view(),
            r.properties.wf(),
            r.properties@ == keyed_insert(
                keyed_insert(self.attrs(), "id"@, json_text(self.id_view())),
                "entity_type"@,
                json_text(self.type_view()),
            ),
            r.labels@.len() == 1,
            r.labels@[0]@ == self.type_view(),
            text_property(r.properties@, "id"@) == Some(self.id_view()),
            text_property(r.properties@, "entity_type"@) == Some(self.type_view()),
            no_reserved_keys(self.attrs()) ==> entity_attributes(r.properties@) == self.attrs(),
    {
        let mut properties = self.attributes.clone();
        let idv = json_from_str(self.id.as_str());
        let tv = json_from_str(self.entity_type.as_str());
        let ghost p0 = properties@;
        properties.insert(String::from_str("id"), idv);
        let ghost p1 = properties@;
        properties.insert(String::from_str("entity_type"), tv);
        proof {
            reveal_strlit("id");
            reveal_strlit("entity_type");
            assert("id"@ != "entity_type"@) by {
                assert("id"@.len() != "entity_type"@.len());
            }
            crate::value::lemma_insert_then_get(p0, "id"@, idv, "entity_type"@);
            crate::value::lemma_insert_then_get(p1, "entity_type"@, tv, "id"@);
            if no_reserved_keys(self.attrs()) {
                lemma_entity_attributes_plain(p0);
                assert(!exists|i: int| 0 <= i < p0.len() && #[trigger] p0[i].0 == "id"@);
                assert(p1 == p0.push(("id"@, idv)));
                assert(!exists|i: int| 0 <= i < p1.len() && #[trigger] p1[i].0 == "entity_type"@) by {
                    assert forall|i: int| 0 <= i < p1.len() implies #[trigger] p1[i].0 != "entity_type"@ by {
                        if i < p0.len() {
                            assert(p1[i] == p0[i]);
                        }
                    }
                }
                assert(properties@ == p1.push(("entity_type"@, tv)));
                assert(properties@.drop_last() =~= p1);
                assert(p1.drop_last() =~= p0);
                assert(properties@.last().0 == "entity_type"@);
                assert(entity_attributes(properties@) == entity_attributes(p1));
                assert(p1.last().0 == "id"@);
                assert(entity_attributes(p1) == entity_attributes(p0));
            }
        }
        let mut labels: Vec<String> = Vec::new();
        labels.push(self.entity_type.clone());
        Node { id: self.id.clone(), properties, labels }
    }

    /// The entity of a graph node: the ID and type come from the properties
    /// "id" and "entity_type", which must be JSON strings; the other
    /// properties become the attributes.
    pub fn from_node(node: Node) -> (r: Result<BaseEntity, GraphError>)
        requires
            node.properties.wf(),
        ensures
            r is Ok <==> (text_property(node.properties@, "id"@) is Some && text_property(node.properties@, "entity_type"@) is Some),
            r matches Ok(e) ==> (e.wf() && text_property(node.properties@, "id"@) == Some(e.id_view())
                && text_property(node.properties@, "entity_type"@) == Some(e.type_view())
                && e.attrs() == entity_attributes(node.properties@)),
            text_property(node.properties@, "id"@) is None ==> (r matches Err(GraphError::ValidationError(m))
                && m@ == "Node missing ID"@),
            text_property(node.properties@, "id"@) is Some && text_property(node.properties@, "entity_type"@) is None ==> (
                r matches Err(GraphError::ValidationError(m)) && m@ == "Node missing entity_type"@),
    {
        let id = match node.properties.get("id") {
            Some(v) => json_as_str(v),
            None => None,
        };
        let id = match id {
            Some(s) => s,
            None => {
                return Err(GraphError::ValidationError(String::from_str("Node missing ID")));
            },
        };
        let entity_type = match node.properties.get("entity_type") {
            Some(v) => json_as_str(v),
            None => None,
        };
        let entity_type = match entity_type {
            Some(s) => s,
            None => {
                return Err(GraphError::ValidationError(String::from_str("Node missing entity_type")));
            },
        };
        let mut attributes = FieldMap::new();
        let n = node.properties.len();
        let mut i: usize = 0;
        while i < n
            invariant
                n == node.properties@.len(),
                node.properties.wf(),
                i <= n,
                attributes.wf(),
                attributes@ == entity_attributes(node.properties@.subrange(0, i as int)),
            decreases n - i,
        {
            let key = node.properties.key_at(i);
            proof {
                let part = node.properties@.subrange(0, i + 1);
                assert(part.drop_last() =~= node.properties@.subrange(0, i as int));
                lemma_entity_attributes_keys(node.properties@.subrange(0, i as int));
            }
            if !str_eq(key.as_str(), "id") && !str_eq(key.as_str(), "entity_type") {
                proof {
                    reveal_strlit("id");
                    reveal_strlit("entity_type");
                    let prefix = node.properties@.subrange(0, i as int);
                    assert forall|a: int| 0 <= a < attributes@.len() implies #[trigger] attributes@[a].0 != key@ by {
                        let b = choose|b: int| 0 <= b < prefix.len() && prefix[b] == attributes@[a];
                        assert(prefix[b] == node.properties@[b]);
                        assert(node.properties@[b].0 != node.properties@[i as int].0);
                    }
                }
                attributes.insert(key.clone(), crate::value::clone_json(node.properties.value_at(i)));
                proof {
                    reveal_strlit("id");
                    reveal_strlit("entity_type");
                }
            } else {
                proof {
                    reveal_strlit("id");
                    reveal_strlit("entity_type");
                }
            }
            i = i + 1;
        }
        assert(node.properties@.subrange(0, n as int) =~= node.properties@);
        Ok(BaseEntity { id, entity_type, attributes })
    }
}

/// Properties with no reserved names are all attributes.
proof fn lemma_entity_attributes_plain(s: Seq<(Seq<char>, serde_json::Value)>)
    requires
        no_reserved_keys(s),
    ensures
        entity_attributes(s) == s,
    decreases s.len(),
{
    if s.len() > 0 {
        lemma_entity_attributes_plain(s.drop_last());
        assert(s.last() == s[s.len() - 1]);
        assert(s.drop_last().push(s.last()) =~= s);
    }
}

/// Every entry of the filtered properties is one of the properties.
proof fn lemma_entity_attributes_keys(s: Seq<(Seq<char>, serde_json::Value)>)
    ensures
        forall|a: int| 0 <= a < entity_attributes(s).len() ==> exists|b: int| 0 <= b < s.len() && s[b] == #[trigger] entity_attributes(s)[a],
    decreases s.len(),
{
    if s.len() > 0 {
        lemma_entity_attributes_keys(s.drop_last());
        let r = entity_attributes(s.drop_last());
        assert forall|a: int| 0 <= a < entity_attributes(s).len() implies exists|b: int| 0 <= b < s.len() && s[b]
            == #[trigger] entity_attributes(s)[a] by {
            if a < r.len() {
                let b = choose|b: int| 0 <= b < s.drop_last().len() && s.drop_last()[b] == r[a];
                assert(s[b] == s.drop_last()[b]);
            } else {
                assert(s[s.len() - 1] == s.last());
            }
        }
    }
}


/// Checks entities in order and gives the first one's error, if any fails:
/// a batch is sent only when every entity is valid.
pub fn validate_all(entities: &Vec<BaseEntity>) -> (r: Result<(), GraphError>)
    ensures
        r is Ok <==> forall|i: int| 0 <= i < entities@.len() ==> (#[trigger] entities@[i]).id_view().len() > 0
            && entities@[i].type_view().len() > 0,
{
    let n = entities.len();
    let mut i: usize = 0;
    while i < n
        invariant
            n == entities@.len(),
            i <= n,
            forall|j: int| 0 <= j < i ==> (#[trigger] entities@[j]).id_view().len() > 0 && entities@[j].type_view().len() > 0,
        decreases n - i,
    {
        match entities[i].validate() {
            Ok(()) => {},
            Err(e) => {
                return Err(e);
            },
        }
        i = i + 1;
    }
    Ok(())
}

} // verus!
