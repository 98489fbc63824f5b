//! Procedural memory: procedures made of ordered steps with conditions and
//! dependencies, and the execution cursor over those steps.
use vstd::prelude::*;
use crate::error::GraphError;
use crate::error::message;
use crate::text::opt_view;
use crate::memory::{BaseMemory, MemoryContent, is_fresh_metadata, json_object_new};
use crate::order::{stable_sorted, sorted_by, insert_stable, insertion_point, lemma_insertion_point_is, lemma_stable_sorted_of_sorted, lemma_stable_sorted_sorted};
use crate::text::{case_fold, fold_case, str_eq};
use crate::types::{MemoryTypeEnum, memory_type_name};
use crate::value::{FieldMap, keyed_insert, keyed_get, keys_unique, same_lookups, lemma_insert_keeps_others, clone_json,
    json_text, json_str_of, json_bool, json_bool_of, json_object, json_fields_of, json_map_error, json_string_error,
    json_from_str, json_from_bool, json_from_fields, json_read_map, json_read_string, json_as_bool, json_u32, json_u32_of,
    json_u32_error, json_read_u32, json_from_u32, json_array, json_array_of, json_from_values, json_as_values, json_text_list,
    json_from_strings, json_as_strings, json_as_str, json_as_fields};
use crate::memory::{text_list_attr, fields_attr};
use crate::text::string_views;
use crate::entity::text_property;
use crate::text::all_plain_lower;

verus! {

/// Execution status of a step or a procedure.
#[derive(Debug, Clone, Copy, PartialEq, Eq, Structural)]
pub enum StepStatus {
    /// Step is pending execution
    Pending,
    /// Step is currently executing
    Executing,
    /// Step has completed successfully
    Completed,
    /// Step has failed
    Failed,
    /// Step has been skipped
    Skipped,
}

/// The name of a status.
pub open spec fn step_status_name(s: StepStatus) -> Seq<char> {
    match s {
        StepStatus::Pending => "pending"@,
        StepStatus::Executing => "executing"@,
        StepStatus::Completed => "completed"@,
        StepStatus::Failed => "failed"@,
        StepStatus::Skipped => "skipped"@,
    }
}

/// The status whose name is the case-folded text `l`.
pub open spec fn step_status_of_folded(l: Seq<char>) -> Option<StepStatus> {
    if l == "pending"@ {
        Some(StepStatus::Pending)
    } else if l == "executing"@ {
        Some(StepStatus::Executing)
    } else if l == "completed"@ {
        Some(StepStatus::Completed)
    } else if l == "failed"@ {
        Some(StepStatus::Failed)
    } else if l == "skipped"@ {
        Some(StepStatus::Skipped)
    } else {
        None
    }
}

impl StepStatus {
    /// The name of this status.
    pub fn as_str(&self) -> (r: &'static str)
        ensures
            r@ == step_status_name(*self),
    {
        match self {
            StepStatus::Pending => "pending",
            StepStatus::Executing => "executing",
            StepStatus::Completed => "completed",
            StepStatus::Failed => "failed",
            StepStatus::Skipped => "skipped",
        }
    }

    /// Parses a status from its case-folded text `folded`; `original` is
    /// the text as given, quoted in the error.
    pub fn parse_folded(folded: &str, original: &str) -> (r: Result<StepStatus, GraphError>)
        ensures
            step_status_of_folded(folded@) matches Some(t) ==> r == Ok::<StepStatus, GraphError>(t),
            step_status_of_folded(folded@) is None ==> (r matches Err(GraphError::ValidationError(m))
                && m@ == "Invalid step status: "@ + original@),
    {
        if str_eq(folded, "pending") {
            Ok(StepStatus::Pending)
        } else if str_eq(folded, "executing") {
            Ok(StepStatus::Executing)
        } else if str_eq(folded, "completed") {
            Ok(StepStatus::Completed)
        } else if str_eq(folded, "failed") {
            Ok(StepStatus::Failed)
        } else if str_eq(folded, "skipped") {
            Ok(StepStatus::Skipped)
        } else {
            Err(GraphError::ValidationError(message("Invalid step status: ", original)))
        }
    }

    /// Parses a status from its name, ignoring letter case.
    pub fn parse_from_str(s: &str) -> (r: Result<StepStatus, GraphError>)
        ensures
            step_status_of_folded(case_fold(s@)) matches Some(t) ==> r == Ok::<StepStatus, GraphError>(t),
            step_status_of_folded(case_fold(s@)) is None ==> (r matches Err(GraphError::ValidationError(m))
                && m@ == "Invalid step status: "@ + s@),
    {
        let folded = fold_case(s);
        StepStatus::parse_folded(folded.as_str(), s)
    }
}

/// The role of a condition.
#[derive(Debug, Clone, Copy, PartialEq, Eq, Structural)]
pub enum ConditionType {
    /// Condition is a prerequisite
    Prerequisite,
    /// Condition is a postcondition
    Postcondition,
    /// Condition is an invariant
    Invariant,
}

/// The name of a condition role.
pub open spec fn condition_type_name(c: ConditionType) -> Seq<char> {
    match c {
        ConditionType::Prerequisite => "prerequisite"@,
        ConditionType::Postcondition => "postcondition"@,
        ConditionType::Invariant => "invariant"@,
    }
}

/// The condition role whose name is the case-folded text `l`.
pub open spec fn condition_type_of_folded(l: Seq<char>) -> Option<ConditionType> {
    if l == "prerequisite"@ {
        Some(ConditionType::Prerequisite)
    } else if l == "postcondition"@ {
        Some(ConditionType::Postcondition)
    } else if l == "invariant"@ {
        Some(ConditionType::Invariant)
    } else {
        None
    }
}

impl ConditionType {
    /// The name of this role.
    pub fn as_str(&self) -> (r: &'static str)
        ensures
            r@ == condition_type_name(*self),
    {
        match self {
            ConditionType::Prerequisite => "prerequisite",
            ConditionType::Postcondition => "postcondition",
            ConditionType::Invariant => "invariant",
        }
    }

    /// Parses a role from its case-folded text `folded`; `original` is the
    /// text as given, quoted in the error.
    pub fn parse_folded(folded: &str, original: &str) -> (r: Result<ConditionType, GraphError>)
        ensures
            condition_type_of_folded(folded@) matches Some(t) ==> r == Ok::<ConditionType, GraphError>(t),
            condition_type_of_folded(folded@) is None ==> (r matches Err(GraphError::ValidationError(m))
                && m@ == "Invalid condition type: "@ + original@),
    {
        if str_eq(folded, "prerequisite") {
            Ok(ConditionType::Prerequisite)
        } else if str_eq(folded, "postcondition") {
            Ok(ConditionType::Postcondition)
        } else if str_eq(folded, "invariant") {
            Ok(ConditionType::Invariant)
        } else {
            Err(GraphError::ValidationError(message("Invalid condition type: ", original)))
        }
    }

    /// Parses a role from its name, ignoring letter case.
    pub fn parse_from_str(s: &str) -> (r: Result<ConditionType, GraphError>)
        ensures
            condition_type_of_folded(case_fold(s@)) matches Some(t) ==> r == Ok::<ConditionType, GraphError>(t),
            condition_type_of_folded(case_fold(s@)) is None ==> (r matches Err(
                GraphError::ValidationError(m),
            ) && m@ == "Invalid condition type: "@ + s@),
    {
        let folded = fold_case(s);
        ConditionType::parse_folded(folded.as_str(), s)
    }
}

/// Every status and every condition role is read back from its name, which
/// is already in lowercase.
pub proof fn lemma_status_and_role_names_roundtrip(s: StepStatus, c: ConditionType)
    ensures
        step_status_of_folded(step_status_name(s)) == Some(s),
        condition_type_of_folded(condition_type_name(c)) == Some(c),
{
    reveal_strlit("pending");
    reveal_strlit("executing");
    reveal_strlit("completed");
    reveal_strlit("failed");
    reveal_strlit("skipped");
    reveal_strlit("prerequisite");
    reveal_strlit("postcondition");
    reveal_strlit("invariant");
    assert("pending"@[0] == 'p');
    assert("executing"@[0] == 'e');
    assert("completed"@[0] == 'c');
    assert("failed"@[0] == 'f');
    assert("skipped"@[0] == 's');
    assert("prerequisite"@[1] == 'r');
    assert("postcondition"@[1] == 'o');
    assert("invariant"@[0] == 'i');
}

/// Status and role names are made of plain lowercase letters, so folding
/// their case leaves them as they are.
proof fn lemma_names_fold_to_themselves(s: StepStatus, c: ConditionType)
    ensures
        case_fold(step_status_name(s)) == step_status_name(s),
        case_fold(condition_type_name(c)) == condition_type_name(c),
{
    reveal_strlit("pending");
    reveal_strlit("executing");
    reveal_strlit("completed");
    reveal_strlit("failed");
    reveal_strlit("skipped");
    reveal_strlit("prerequisite");
    reveal_strlit("postcondition");
    reveal_strlit("invariant");
    assert forall|i: int| 0 <= i < "pending"@.len() implies #[trigger] crate::text::is_plain_lower("pending"@[i]) by {
        assert(i == 0 || i == 1 || i == 2 || i == 3 || i == 4 || i == 5 || i == 6);
    }
    assert forall|i: int| 0 <= i < "executing"@.len() implies #[trigger] crate::text::is_plain_lower("executing"@[i]) by {
        assert(i == 0 || i == 1 || i == 2 || i == 3 || i == 4 || i == 5 || i == 6 || i == 7 || i == 8);
    }
    assert forall|i: int| 0 <= i < "completed"@.len() implies #[trigger] crate::text::is_plain_lower("completed"@[i]) by {
        assert(i == 0 || i == 1 || i == 2 || i == 3 || i == 4 || i == 5 || i == 6 || i == 7 || i == 8);
    }
    assert forall|i: int| 0 <= i < "failed"@.len() implies #[trigger] crate::text::is_plain_lower("failed"@[i]) by {
        assert(i == 0 || i == 1 || i == 2 || i == 3 || i == 4 || i == 5);
    }
    assert forall|i: int| 0 <= i < "skipped"@.len() implies #[trigger] crate::text::is_plain_lower("skipped"@[i]) by {
        assert(i == 0 || i == 1 || i == 2 || i == 3 || i == 4 || i == 5 || i == 6);
    }
    assert forall|i: int| 0 <= i < "prerequisite"@.len() implies #[trigger] crate::text::is_plain_lower("prerequisite"@[i]) by {
        assert(i == 0 || i == 1 || i == 2 || i == 3 || i == 4 || i == 5 || i == 6 || i == 7 || i == 8 || i == 9 || i == 10 || i == 11);
    }
    assert forall|i: int| 0 <= i < "postcondition"@.len() implies #[trigger] crate::text::is_plain_lower("postcondition"@[i]) by {
        assert(i == 0 || i == 1 || i == 2 || i == 3 || i == 4 || i == 5 || i == 6 || i == 7 || i == 8 || i == 9 || i == 10 || i == 11 || i == 12);
    }
    assert forall|i: int| 0 <= i < "invariant"@.len() implies #[trigger] crate::text::is_plain_lower("invariant"@[i]) by {
        assert(i == 0 || i == 1 || i == 2 || i == 3 || i == 4 || i == 5 || i == 6 || i == 7 || i == 8);
    }
    assert(all_plain_lower(step_status_name(s)));
    assert(all_plain_lower(condition_type_name(c)));
}

/// A condition attached to a step or a procedure.
#[derive(Debug)]
pub struct Condition {
    /// Condition ID
    pub id: String,
    /// Condition role
    pub condition_type: ConditionType,
    /// Condition description
    pub description: String,
    /// Condition expression
    pub expression: serde_json::Value,
    /// Whether the condition is required
    pub required: bool,
}

impl Condition {
    /// A condition with the given parts.
    pub fn new(id: &str, condition_type: ConditionType, description: &str, expression: serde_json::Value, required: bool) -> (r: Condition)
        ensures
            r.id@ == id@,
            r.condition_type == condition_type,
            r.description@ == description@,
            r.expression == expression,
            r.required == required,
    {
        Condition {
            id: String::from_str(id),
            condition_type,
            description: String::from_str(description),
            expression,
            required,
        }
    }

    /// A prerequisite.
    pub fn prerequisite(id: &str, description: &str, expression: serde_json::Value, required: bool) -> (r: Condition)
        ensures
            r.id@ == id@,
            r.condition_type == ConditionType::Prerequisite,
            r.description@ == description@,
            r.expression == expression,
            r.required == required,
    {
        Condition::new(id, ConditionType::Prerequisite, description, expression, required)
    }

    /// A postcondition.
    pub fn postcondition(id: &str, description: &str, expression: serde_json::Value, required: bool) -> (r: Condition)
        ensures
            r.id@ == id@,
            r.condition_type == ConditionType::Postcondition,
            r.description@ == description@,
            r.expression == expression,
            r.required == required,
    {
        Condition::new(id, ConditionType::Postcondition, description, expression, required)
    }

    /// An invariant.
    pub fn invariant_condition(id: &str, description: &str, expression: serde_json::Value, required: bool) -> (r: Condition)
        ensures
            r.id@ == id@,
            r.condition_type == ConditionType::Invariant,
            r.description@ == description@,
            r.expression == expression,
            r.required == required,
    {
        Condition::new(id, ConditionType::Invariant, description, expression, required)
    }
}

/// The entries of a condition's JSON object.
pub open spec fn condition_fields(c: Condition) -> Seq<(Seq<char>, serde_json::Value)> {
    let a = keyed_insert(Seq::empty(), "id"@, json_text(c.id@));
    let a = keyed_insert(a, "condition_type"@, json_text(condition_type_name(c.condition_type)));
    let a = keyed_insert(a, "description"@, json_text(c.description@));
    let a = keyed_insert(a, "expression"@, c.expression);
    keyed_insert(a, "required"@, json_bool(c.required))
}

/// The role named under "condition_type" in the entries `f`, ignoring
/// letter case, when that entry is a string naming one.
pub open spec fn condition_role(f: Seq<(Seq<char>, serde_json::Value)>) -> Option<ConditionType> {
    match text_property(f, "condition_type"@) {
        Some(t) => condition_type_of_folded(case_fold(t)),
        None => None,
    }
}

/// What the entry "required" of `f` gives: true only when it is the JSON
/// boolean true.
pub open spec fn required_flag(f: Seq<(Seq<char>, serde_json::Value)>) -> bool {
    match keyed_get(f, "required"@) {
        Some(x) => json_bool_of(x) == Some(true),
        None => false,
    }
}

/// Whether a condition can be read from the JSON value `v`: it is an
/// object whose ID, role and description are strings, the role naming
/// one, and which has an expression.
pub open spec fn condition_readable(v: serde_json::Value) -> bool {
    &&& json_fields_of(v) matches Some(f)
    &&& text_property(f, "id"@) is Some
    &&& condition_role(f) is Some
    &&& text_property(f, "description"@) is Some
    &&& keyed_get(f, "expression"@) is Some
}

/// Whether `c` is the condition read from the JSON value `v`.
pub open spec fn read_condition(c: Condition, v: serde_json::Value) -> bool {
    &&& json_fields_of(v) matches Some(f)
    &&& text_property(f, "id"@) == Some(c.id@)
    &&& condition_role(f) == Some(c.condition_type)
    &&& text_property(f, "description"@) == Some(c.description@)
    &&& keyed_get(f, "expression"@) == Some(c.expression)
    &&& c.required == required_flag(f)
}

/// Whether two conditions hold the same values.
pub open spec fn same_condition(a: Condition, b: Condition) -> bool {
    &&& a.id@ == b.id@
    &&& a.condition_type == b.condition_type
    &&& a.description@ == b.description@
    &&& a.expression == b.expression
    &&& a.required == b.required
}

/// What a condition's entries hold under each name.
proof fn lemma_condition_fields_get(c: Condition)
    ensures
        keys_unique(condition_fields(c)),
        keyed_get(condition_fields(c), "id"@) == Some(json_text(c.id@)),
        keyed_get(condition_fields(c), "condition_type"@) == Some(json_text(condition_type_name(c.condition_type))),
        keyed_get(condition_fields(c), "description"@) == Some(json_text(c.description@)),
        keyed_get(condition_fields(c), "expression"@) == Some(c.expression),
        keyed_get(condition_fields(c), "required"@) == Some(json_bool(c.required)),
{
    reveal_strlit("id");
    reveal_strlit("condition_type");
    reveal_strlit("description");
    reveal_strlit("expression");
    reveal_strlit("required");
    assert("id"@.len() == 2 && "condition_type"@.len() == 14 && "description"@.len() == 11);
    assert("expression"@.len() == 10 && "required"@.len() == 8);
    let v1 = json_text(c.id@);
    let v2 = json_text(condition_type_name(c.condition_type));
    let v3 = json_text(c.description@);
    let v4 = c.expression;
    let v5 = json_bool(c.required);
    let a0 = Seq::<(Seq<char>, serde_json::Value)>::empty();
    let a1 = keyed_insert(a0, "id"@, v1);
    lemma_insert_keeps_others(a0, "id"@, v1);
    let a2 = keyed_insert(a1, "condition_type"@, v2);
    lemma_insert_keeps_others(a1, "condition_type"@, v2);
    let a3 = keyed_insert(a2, "description"@, v3);
    lemma_insert_keeps_others(a2, "description"@, v3);
    let a4 = keyed_insert(a3, "expression"@, v4);
    lemma_insert_keeps_others(a3, "expression"@, v4);
    lemma_insert_keeps_others(a4, "required"@, v5);
}

impl Condition {
    /// The condition as a JSON object with the entries `condition_fields`;
    /// reading it back gives the same condition.
    pub fn to_value(&self) -> (r: serde_json::Value)
        ensures
            r == json_object(condition_fields(*self)),
            condition_readable(r),
            read_condition(*self, r),
    {
        let mut map = FieldMap::new();
        map.insert(String::from_str("id"), json_from_str(self.id.as_str()));
        map.insert(String::from_str("condition_type"), json_from_str(self.condition_type.as_str()));
        map.insert(String::from_str("description"), json_from_str(self.description.as_str()));
        map.insert(String::from_str("expression"), clone_json(&self.expression));
        map.insert(String::from_str("required"), json_from_bool(self.required));
        let r = json_from_fields(&map);
        proof {
            lemma_condition_fields_get(*self);
            lemma_names_fold_to_themselves(StepStatus::Pending, self.condition_type);
            lemma_status_and_role_names_roundtrip(StepStatus::Pending, self.condition_type);
            let f = json_fields_of(r)->0;
            assert(keyed_get(f, "id"@) == keyed_get(map@, "id"@));
            assert(keyed_get(f, "condition_type"@) == keyed_get(map@, "condition_type"@));
            assert(keyed_get(f, "description"@) == keyed_get(map@, "description"@));
            assert(keyed_get(f, "expression"@) == keyed_get(map@, "expression"@));
            assert(keyed_get(f, "required"@) == keyed_get(map@, "required"@));
        }
        r
    }

    /// Reads a condition from a JSON object: the ID, the role and the
    /// description must be strings (checked in that order, the role naming
    /// one in any letter case), the expression must be there, and
    /// "required" counts only when it is the boolean true.
    pub fn from_value(value: &serde_json::Value) -> (r: Result<Condition, GraphError>)
        ensures
            r is Ok <==> condition_readable(*value),
            r matches Ok(c) ==> read_condition(c, *value),
            json_fields_of(*value) is None ==> (r matches Err(GraphError::ConversionError(m))
                && m@ == "Failed to deserialize as object: "@ + json_map_error(*value)),
            json_fields_of(*value) is Some ==> ({
                let f = json_fields_of(*value)->0;
                &&& keyed_get(f, "id"@) is None ==> (r matches Err(GraphError::ConversionError(m))
                    && m@ == "Missing id in condition"@)
                &&& keyed_get(f, "id"@) is Some && text_property(f, "id"@) is None ==> (r matches Err(
                    GraphError::ConversionError(m),
                ) && m@ == "Invalid id format: "@ + json_string_error(keyed_get(f, "id"@)->0))
                &&& text_property(f, "id"@) is Some && keyed_get(f, "condition_type"@) is None ==> (r matches Err(
                    GraphError::ConversionError(m),
                ) && m@ == "Missing condition_type in condition"@)
                &&& text_property(f, "id"@) is Some && keyed_get(f, "condition_type"@) is Some && text_property(
                    f,
                    "condition_type"@,
                ) is None ==> (r matches Err(GraphError::ConversionError(m)) && m@ == "Invalid condition_type format: "@
                    + json_string_error(keyed_get(f, "condition_type"@)->0))
                &&& text_property(f, "id"@) is Some && text_property(f, "condition_type"@) is Some
                    && condition_role(f) is None ==> (r matches Err(GraphError::ValidationError(m)) && m@
                    == "Invalid condition type: "@ + text_property(f, "condition_type"@)->0)
                &&& text_property(f, "id"@) is Some && condition_role(f) is Some && keyed_get(f, "description"@)
                    is None ==> (r matches Err(GraphError::ConversionError(m))
                    && m@ == "Missing description in condition"@)
                &&& text_property(f, "id"@) is Some && condition_role(f) is Some && keyed_get(f, "description"@)
                    is Some && text_property(f, "description"@) is None ==> (r matches Err(
                    GraphError::ConversionError(m),
                ) && m@ == "Invalid description format: "@ + json_string_error(keyed_get(f, "description"@)->0))
                &&& text_property(f, "id"@) is Some && condition_role(f) is Some && text_property(f, "description"@)
                    is Some && keyed_get(f, "expression"@) is None ==> (r matches Err(GraphError::ConversionError(m))
                    && m@ == "Missing expression in condition"@)
            }),
    {
        let fields = match json_read_map(value) {
            Ok(m) => m,
            Err(e) => {
                return Err(GraphError::ConversionError(message("Failed to deserialize as object: ", e.as_str())));
            },
        };
        let id = match required_text(&fields, "id", "Missing id in condition", "Invalid id format: ") {
            Ok(t) => t,
            Err(e) => {
                return Err(e);
            },
        };
        let type_text = match required_text(
            &fields,
            "condition_type",
            "Missing condition_type in condition",
            "Invalid condition_type format: ",
        ) {
            Ok(t) => t,
            Err(e) => {
                return Err(e);
            },
        };
        let condition_type = match ConditionType::parse_from_str(type_text.as_str()) {
            Ok(t) => t,
            Err(e) => {
                return Err(e);
            },
        };
        let description = match required_text(
            &fields,
            "description",
            "Missing description in condition",
            "Invalid description format: ",
        ) {
            Ok(t) => t,
            Err(e) => {
                return Err(e);
            },
        };
        let expression = match fields.get("expression") {
            Some(v) => clone_json(v),
            None => {
                return Err(GraphError::ConversionError(String::from_str("Missing expression in condition")));
            },
        };
        let required = match fields.get("required") {
            Some(v) => match json_as_bool(v) {
                Some(b) => b,
                None => false,
            },
            None => false,
        };
        Ok(Condition { id, condition_type, description, expression, required })
    }
}

/// One step of a procedure.
#[derive(Debug)]
pub struct Step {
    /// Step ID
    pub id: String,
    /// Step name
    pub name: String,
    /// Step description
    pub description: String,
    /// Position of the step in its procedure
    pub order: u32,
    /// Step action
    pub action: serde_json::Value,
    /// Step status
    pub status: StepStatus,
    /// Step conditions
    pub conditions: Vec<Condition>,
    /// IDs of the steps this one depends on
    pub dependencies: Vec<String>,
    /// Step result
    pub result: Option<serde_json::Value>,
    /// Step error
    pub error: Option<String>,
    /// Step metadata
    pub metadata: FieldMap,
}

impl Step {
    /// A pending step with no conditions, dependencies, result, error or
    /// metadata.
    pub fn new(id: &str, name: &str, description: &str, order: u32, action: serde_json::Value) -> (r: Step)
        ensures
            r.id@ == id@,
            r.name@ == name@,
            r.description@ == description@,
            r.order == order,
            r.action == action,
            r.status == StepStatus::Pending,
            r.conditions@.len() == 0,
            r.dependencies@.len() == 0,
            r.result is None,
            r.error is None,
            r.metadata@.len() == 0,
            r.metadata.wf(),
    {
        Step {
            id: String::from_str(id),
            name: String::from_str(name),
            description: String::from_str(description),
            order,
            action,
            status: StepStatus::Pending,
            conditions: Vec::new(),
            dependencies: Vec::new(),
            result: None,
            error: None,
            metadata: FieldMap::new(),
        }
    }

    /// Adds a condition at the end.
    pub fn with_condition(self, condition: Condition) -> (r: Step)
        ensures
            r == (Step { conditions: r.conditions, ..self }),
            r.conditions@ == self.conditions@.push(condition),
    {
        let mut this = self;
        this.conditions.push(condition);
        this
    }

    /// Adds a dependency at the end.
    pub fn with_dependency(self, dependency_id: &str) -> (r: Step)
        ensures
            r == (Step { dependencies: r.dependencies, ..self }),
            r.dependencies@.len() == self.dependencies@.len() + 1,
            r.dependencies@.drop_last() == self.dependencies@,
            r.dependencies@.last()@ == dependency_id@,
    {
        let mut this = self;
        this.dependencies.push(String::from_str(dependency_id));
        this
    }

    /// Sets the status.
    pub fn with_status(self, status: StepStatus) -> (r: Step)
        ensures
            r == (Step { status, ..self }),
    {
        Step { status, ..self }
    }

    /// Sets the result.
    pub fn with_result(self, result: serde_json::Value) -> (r: Step)
        ensures
            r == (Step { result: Some(result), ..self }),
    {
        Step { result: Some(result), ..self }
    }

    /// Sets the error.
    pub fn with_error(self, error: &str) -> (r: Step)
        ensures
            r == (Step { error: r.error, ..self }),
            opt_view(r.error) == Some(error@),
    {
        Step { error: Some(String::from_str(error)), ..self }
    }

    /// Sets one metadata entry.
    pub fn with_metadata(self, key: &str, value: serde_json::Value) -> (r: Step)
        requires
            self.metadata.wf(),
        ensures
            r == (Step { metadata: r.metadata, ..self }),
            r.metadata.wf(),
            r.metadata@ == keyed_insert(self.metadata@, key@, value),
    {
        let mut this = self;
        this.metadata.insert(String::from_str(key), value);
        this
    }
}

/// The JSON objects of a list of conditions.
pub open spec fn condition_values(cs: Seq<Condition>) -> Seq<serde_json::Value> {
    cs.map_values(|c: Condition| json_object(condition_fields(c)))
}

/// The entries of a step's JSON object: its ID, name, description, order,
/// action, status name, conditions, dependencies, result and error when
/// there are some, and metadata.
#[verifier::opaque]
pub open spec fn step_fields(s: Step) -> Seq<(Seq<char>, serde_json::Value)> {
    let a = keyed_insert(Seq::empty(), "id"@, json_text(s.id@));
    let a = keyed_insert(a, "name"@, json_text(s.name@));
    let a = keyed_insert(a, "description"@, json_text(s.description@));
    let a = keyed_insert(a, "order"@, json_u32(s.order));
    let a = keyed_insert(a, "action"@, s.action);
    let a = keyed_insert(a, "status"@, json_text(step_status_name(s.status)));
    let a = keyed_insert(a, "conditions"@, json_array(condition_values(s.conditions@)));
    let a = keyed_insert(a, "dependencies"@, json_text_list(string_views(s.dependencies@)));
    let a = match s.result {
        Some(x) => keyed_insert(a, "result"@, x),
        None => a,
    };
    let a = match s.error {
        Some(e) => keyed_insert(a, "error"@, json_text(e@)),
        None => a,
    };
    keyed_insert(a, "metadata"@, json_object(s.metadata@))
}

/// The number held under `key` in the entries `f`, when it is a `u32`.
pub open spec fn u32_field(f: Seq<(Seq<char>, serde_json::Value)>, key: Seq<char>) -> Option<u32> {
    match keyed_get(f, key) {
        Some(x) => json_u32_of(x),
        None => None,
    }
}

/// The status named under "status" in the entries `f`, ignoring letter
/// case; a status that is missing or not a string counts as pending, and
/// a string naming no status gives nothing.
pub open spec fn status_field(f: Seq<(Seq<char>, serde_json::Value)>) -> Option<StepStatus> {
    match text_property(f, "status"@) {
        Some(t) => step_status_of_folded(case_fold(t)),
        None => Some(StepStatus::Pending),
    }
}

/// The items listed under "conditions" in the entries `f`, when that entry
/// is an array; none otherwise.
pub open spec fn listed_conditions(f: Seq<(Seq<char>, serde_json::Value)>) -> Seq<serde_json::Value> {
    match keyed_get(f, "conditions"@) {
        Some(x) => match json_array_of(x) {
            Some(l) => l,
            None => Seq::empty(),
        },
        None => Seq::empty(),
    }
}

/// Which JSON values hold a readable condition.
pub open spec fn readable_condition() -> spec_fn(serde_json::Value) -> bool {
    |x: serde_json::Value| condition_readable(x)
}

/// Whether a step can be read from the JSON value `v`: it is an object
/// whose ID, name and description are strings, whose order is a `u32`,
/// which has an action, and whose status, when it is a string, names one.
pub open spec fn step_readable(v: serde_json::Value) -> bool {
    &&& json_fields_of(v) matches Some(f)
    &&& text_property(f, "id"@) is Some
    &&& text_property(f, "name"@) is Some
    &&& text_property(f, "description"@) is Some
    &&& u32_field(f, "order"@) is Some
    &&& keyed_get(f, "action"@) is Some
    &&& status_field(f) is Some
}

/// Whether `s` is the step read from the JSON value `v`: the required
/// parts as they stand, the conditions that can be read (others are
/// dropped), the dependencies when they are a list of strings, the result
/// when there is one, the error when it is a string, and the metadata
/// when it is an object.
pub open spec fn read_step(s: Step, v: serde_json::Value) -> bool {
    &&& json_fields_of(v) matches Some(f)
    &&& text_property(f, "id"@) == Some(s.id@)
    &&& text_property(f, "name"@) == Some(s.name@)
    &&& text_property(f, "description"@) == Some(s.description@)
    &&& u32_field(f, "order"@) == Some(s.order)
    &&& keyed_get(f, "action"@) == Some(s.action)
    &&& status_field(f) == Some(s.status)
    &&& s.conditions@.len() == listed_conditions(f).filter(readable_condition()).len()
    &&& forall|i: int| 0 <= i < s.conditions@.len() ==> read_condition(
        #[trigger] s.conditions@[i],
        listed_conditions(f).filter(readable_condition())[i],
    )
    &&& string_views(s.dependencies@) == (match text_list_attr(f, "dependencies"@) {
        Some(l) => l,
        None => Seq::empty(),
    })
    &&& s.result == keyed_get(f, "result"@)
    &&& opt_view(s.error) == text_property(f, "error"@)
    &&& s.metadata@ == fields_attr(f, "metadata"@)
    &&& s.metadata.wf()
}

/// Whether the JSON value `v` holds the step `s`: an object in which each
/// part of `s` reads back as it is, every condition readable, and the
/// metadata an object giving what `s`'s metadata gives.
pub open spec fn holds_step(v: serde_json::Value, s: Step) -> bool {
    &&& json_fields_of(v) matches Some(f)
    &&& text_property(f, "id"@) == Some(s.id@)
    &&& text_property(f, "name"@) == Some(s.name@)
    &&& text_property(f, "description"@) == Some(s.description@)
    &&& u32_field(f, "order"@) == Some(s.order)
    &&& keyed_get(f, "action"@) == Some(s.action)
    &&& status_field(f) == Some(s.status)
    &&& listed_conditions(f).len() == s.conditions@.len()
    &&& forall|i: int| 0 <= i < s.conditions@.len() ==> condition_readable(#[trigger] listed_conditions(f)[i])
        && read_condition(s.conditions@[i], listed_conditions(f)[i])
    &&& text_list_attr(f, "dependencies"@) == Some(string_views(s.dependencies@))
    &&& keyed_get(f, "result"@) == s.result
    &&& text_property(f, "error"@) == opt_view(s.error)
    &&& same_lookups(json_fields_of(keyed_get(f, "metadata"@)->0), s.metadata@)
    &&& keyed_get(f, "metadata"@) is Some
}

/// What a step's entries hold under each name.
#[verifier::spinoff_prover]
#[verifier::rlimit(40)]
proof fn lemma_step_fields_get(s: Step)
    ensures
        keys_unique(step_fields(s)),
        keyed_get(step_fields(s), "id"@) == Some(json_text(s.id@)),
        keyed_get(step_fields(s), "name"@) == Some(json_text(s.name@)),
        keyed_get(step_fields(s), "description"@) == Some(json_text(s.description@)),
        keyed_get(step_fields(s), "order"@) == Some(json_u32(s.order)),
        keyed_get(step_fields(s), "action"@) == Some(s.action),
        keyed_get(step_fields(s), "status"@) == Some(json_text(step_status_name(s.status))),
        keyed_get(step_fields(s), "conditions"@) == Some(json_array(condition_values(s.conditions@))),
        keyed_get(step_fields(s), "dependencies"@) == Some(json_text_list(string_views(s.dependencies@))),
        keyed_get(step_fields(s), "result"@) == s.result,
        keyed_get(step_fields(s), "error"@) == (match s.error {
            Some(e) => Some(json_text(e@)),
            None => None,
        }),
        keyed_get(step_fields(s), "metadata"@) == Some(json_object(s.metadata@)),
{
    reveal_strlit("id");
    reveal_strlit("name");
    reveal_strlit("description");
    reveal_strlit("order");
    reveal_strlit("action");
    reveal_strlit("status");
    reveal_strlit("conditions");
    reveal_strlit("dependencies");
    reveal_strlit("result");
    reveal_strlit("error");
    reveal_strlit("metadata");
    assert("id"@.len() == 2 && "name"@.len() == 4 && "description"@.len() == 11 && "order"@.len() == 5);
    assert("action"@.len() == 6 && "status"@.len() == 6 && "conditions"@.len() == 10 && "dependencies"@.len() == 12);
    assert("result"@.len() == 6 && "error"@.len() == 5 && "metadata"@.len() == 8);
    assert("order"@[0] != "error"@[0] && "action"@[0] != "status"@[0] && "action"@[0] != "result"@[0] && "status"@[0] != "result"@[0]);
    reveal(step_fields);
    let a0 = Seq::<(Seq<char>, serde_json::Value)>::empty();
    let a1 = keyed_insert(a0, "id"@, json_text(s.id@));
    lemma_insert_keeps_others(a0, "id"@, json_text(s.id@));
    let a2 = keyed_insert(a1, "name"@, json_text(s.name@));
    lemma_insert_keeps_others(a1, "name"@, json_text(s.name@));
    let a3 = keyed_insert(a2, "description"@, json_text(s.description@));
    lemma_insert_keeps_others(a2, "description"@, json_text(s.description@));
    let a4 = keyed_insert(a3, "order"@, json_u32(s.order));
    lemma_insert_keeps_others(a3, "order"@, json_u32(s.order));
    let a5 = keyed_insert(a4, "action"@, s.action);
    lemma_insert_keeps_others(a4, "action"@, s.action);
    let a6 = keyed_insert(a5, "status"@, json_text(step_status_name(s.status)));
    lemma_insert_keeps_others(a5, "status"@, json_text(step_status_name(s.status)));
    let a7 = keyed_insert(a6, "conditions"@, json_array(condition_values(s.conditions@)));
    lemma_insert_keeps_others(a6, "conditions"@, json_array(condition_values(s.conditions@)));
    let a8 = keyed_insert(a7, "dependencies"@, json_text_list(string_views(s.dependencies@)));
    lemma_insert_keeps_others(a7, "dependencies"@, json_text_list(string_views(s.dependencies@)));
    let a9 = match s.result {
        Some(x) => keyed_insert(a8, "result"@, x),
        None => a8,
    };
    match s.result {
        Some(x) => {
            lemma_insert_keeps_others(a8, "result"@, x);
        },
        None => {},
    }
    let a10 = match s.error {
        Some(e) => keyed_insert(a9, "error"@, json_text(e@)),
        None => a9,
    };
    match s.error {
        Some(e) => {
            lemma_insert_keeps_others(a9, "error"@, json_text(e@));
        },
        None => {},
    }
    lemma_insert_keeps_others(a10, "metadata"@, json_object(s.metadata@));
    assert(step_fields(s) == keyed_insert(a10, "metadata"@, json_object(s.metadata@)));
}

impl Step {
    /// The step as a JSON object with the entries `step_fields`; reading it
    /// back gives the same step (see `holds_step`).
    pub fn to_value(&self) -> (r: serde_json::Value)
        requires
            self.metadata.wf(),
        ensures
            r == json_object(step_fields(*self)),
            holds_step(r, *self),
    {
        let mut values: Vec<serde_json::Value> = Vec::new();
        let n = self.conditions.len();
        let mut i: usize = 0;
        while i < n
            invariant
                n == self.conditions@.len(),
                i <= n,
                values@.len() == i,
                forall|j: int| 0 <= j < i ==> #[trigger] values@[j] == json_object(condition_fields(self.conditions@[j]))
                    && condition_readable(values@[j]) && read_condition(self.conditions@[j], values@[j]),
            decreases n - i,
        {
            let v = self.conditions[i].to_value();
            values.push(v);
            i = i + 1;
        }
        proof {
            assert(values@ =~= condition_values(self.conditions@));
        }
        let ghost listed = values@;
        let mut map = FieldMap::new();
        map.insert(String::from_str("id"), json_from_str(self.id.as_str()));
        map.insert(String::from_str("name"), json_from_str(self.name.as_str()));
        map.insert(String::from_str("description"), json_from_str(self.description.as_str()));
        map.insert(String::from_str("order"), json_from_u32(self.order));
        map.insert(String::from_str("action"), clone_json(&self.action));
        map.insert(String::from_str("status"), json_from_str(self.status.as_str()));
        map.insert(String::from_str("conditions"), json_from_values(values));
        map.insert(String::from_str("dependencies"), json_from_strings(&self.dependencies));
        match &self.result {
            Some(x) => map.insert(String::from_str("result"), clone_json(x)),
            None => {},
        }
        match &self.error {
            Some(e) => map.insert(String::from_str("error"), json_from_str(e.as_str())),
            None => {},
        }
        let metadata = json_from_fields(&self.metadata);
        map.insert(String::from_str("metadata"), metadata);
        proof {
            reveal(step_fields);
            assert(map@ == step_fields(*self));
        }
        let r = json_from_fields(&map);
        proof {
            lemma_step_fields_get(*self);
            lemma_names_fold_to_themselves(self.status, ConditionType::Prerequisite);
            lemma_status_and_role_names_roundtrip(self.status, ConditionType::Prerequisite);
            let f = json_fields_of(r)->0;
            assert(keyed_get(f, "id"@) == keyed_get(map@, "id"@));
            assert(keyed_get(f, "name"@) == keyed_get(map@, "name"@));
            assert(keyed_get(f, "description"@) == keyed_get(map@, "description"@));
            assert(keyed_get(f, "order"@) == keyed_get(map@, "order"@));
            assert(keyed_get(f, "action"@) == keyed_get(map@, "action"@));
            assert(keyed_get(f, "status"@) == keyed_get(map@, "status"@));
            assert(keyed_get(f, "conditions"@) == keyed_get(map@, "conditions"@));
            assert(listed_conditions(f) == listed);
            assert(keyed_get(f, "dependencies"@) == keyed_get(map@, "dependencies"@));
            assert(keyed_get(f, "result"@) == keyed_get(map@, "result"@));
            assert(keyed_get(f, "error"@) == keyed_get(map@, "error"@));
            assert(keyed_get(f, "metadata"@) == keyed_get(map@, "metadata"@));
        }
        r
    }
}

/// The text under `key` in `fields`: an error with the message `missing`
/// when the entry is not there, or with `invalid` followed by the reading
/// error's text when it is not a string.
fn required_text(fields: &FieldMap, key: &str, missing: &str, invalid: &str) -> (r: Result<String, GraphError>)
    requires
        fields.wf(),
    ensures
        keyed_get(fields@, key@) is None ==> (r matches Err(GraphError::ConversionError(m)) && m@ == missing@),
        keyed_get(fields@, key@) is Some && text_property(fields@, key@) is None ==> (r matches Err(
            GraphError::ConversionError(m),
        ) && m@ == invalid@ + json_string_error(keyed_get(fields@, key@)->0)),
        text_property(fields@, key@) matches Some(t) ==> (r matches Ok(x) && x@ == t),
{
    match fields.get(key) {
        Some(v) => match json_read_string(v) {
            Ok(t) => Ok(t),
            Err(e) => Err(GraphError::ConversionError(message(invalid, e.as_str()))),
        },
        None => Err(GraphError::ConversionError(String::from_str(missing))),
    }
}

/// `s.filter(p)` is `s` when every item satisfies `p`.
proof fn lemma_filter_keeps_all(s: Seq<serde_json::Value>, p: spec_fn(serde_json::Value) -> bool)
    requires
        forall|i: int| 0 <= i < s.len() ==> p(#[trigger] s[i]),
    ensures
        s.filter(p) == s,
    decreases s.len(),
{
    if s.len() > 0 {
        let t = s.drop_last();
        lemma_filter_keeps_all(t, p);
        t.lemma_filter_push(s.last(), p);
        assert(t.push(s.last()) =~= s);
    } else {
        reveal(Seq::filter);
    }
}

impl Step {
    /// Reads a step from a JSON object: the ID, name and description must
    /// be strings and the order a `u32` (checked in that order), the action
    /// must be there, and a status given as a string must name one in any
    /// letter case (a missing status reads as pending); conditions that
    /// cannot be read are dropped, and the other parts are read when they
    /// have the right form.
    pub fn from_value(value: &serde_json::Value) -> (r: Result<Step, GraphError>)
        ensures
            r is Ok <==> step_readable(*value),
            r matches Ok(s) ==> read_step(s, *value),
            json_fields_of(*value) is None ==> (r matches Err(GraphError::ConversionError(m))
                && m@ == "Failed to deserialize as object: "@ + json_map_error(*value)),
            json_fields_of(*value) is Some ==> ({
                let f = json_fields_of(*value)->0;
                &&& keyed_get(f, "id"@) is None ==> (r matches Err(GraphError::ConversionError(m))
                    && m@ == "Missing id in step"@)
                &&& keyed_get(f, "id"@) is Some && text_property(f, "id"@) is None ==> (r matches Err(
                    GraphError::ConversionError(m),
                ) && m@ == "Invalid id format: "@ + json_string_error(keyed_get(f, "id"@)->0))
                &&& text_property(f, "id"@) is Some && keyed_get(f, "name"@) is None ==> (r matches Err(
                    GraphError::ConversionError(m),
                ) && m@ == "Missing name in step"@)
                &&& text_property(f, "id"@) is Some && keyed_get(f, "name"@) is Some && text_property(f, "name"@)
                    is None ==> (r matches Err(GraphError::ConversionError(m)) && m@ == "Invalid name format: "@
                    + json_string_error(keyed_get(f, "name"@)->0))
                &&& text_property(f, "id"@) is Some && text_property(f, "name"@) is Some && keyed_get(
                    f,
                    "description"@,
                ) is None ==> (r matches Err(GraphError::ConversionError(m)) && m@ == "Missing description in step"@)
                &&& text_property(f, "id"@) is Some && text_property(f, "name"@) is Some && keyed_get(
                    f,
                    "description"@,
                ) is Some && text_property(f, "description"@) is None ==> (r matches Err(
                    GraphError::ConversionError(m),
                ) && m@ == "Invalid description format: "@ + json_string_error(keyed_get(f, "description"@)->0))
                &&& text_property(f, "id"@) is Some && text_property(f, "name"@) is Some && text_property(
                    f,
                    "description"@,
                ) is Some && keyed_get(f, "order"@) is None ==> (r matches Err(GraphError::ConversionError(m))
                    && m@ == "Missing order in step"@)
                &&& text_property(f, "id"@) is Some && text_property(f, "name"@) is Some && text_property(
                    f,
                    "description"@,
                ) is Some && keyed_get(f, "order"@) is Some && u32_field(f, "order"@) is None ==> (r matches Err(
                    GraphError::ConversionError(m),
                ) && m@ == "Invalid order format: "@ + json_u32_error(keyed_get(f, "order"@)->0))
                &&& text_property(f, "id"@) is Some && text_property(f, "name"@) is Some && text_property(
                    f,
                    "description"@,
                ) is Some && u32_field(f, "order"@) is Some && keyed_get(f, "action"@) is None ==> (r matches Err(
                    GraphError::ConversionError(m),
                ) && m@ == "Missing action in step"@)
                &&& text_property(f, "id"@) is Some && text_property(f, "name"@) is Some && text_property(
                    f,
                    "description"@,
                ) is Some && u32_field(f, "order"@) is Some && keyed_get(f, "action"@) is Some && status_field(f)
                    is None ==> (r matches Err(GraphError::ValidationError(m)) && m@ == "Invalid step status: "@
                    + text_property(f, "status"@)->0)
            }),
    {
        let fields = match json_read_map(value) {
            Ok(m) => m,
            Err(e) => {
                return Err(GraphError::ConversionError(message("Failed to deserialize as object: ", e.as_str())));
            },
        };
        let id = match required_text(&fields, "id", "Missing id in step", "Invalid id format: ") {
            Ok(t) => t,
            Err(e) => {
                return Err(e);
            },
        };
        let name = match required_text(&fields, "name", "Missing name in step", "Invalid name format: ") {
            Ok(t) => t,
            Err(e) => {
                return Err(e);
            },
        };
        let description = match required_text(
            &fields,
            "description",
            "Missing description in step",
            "Invalid description format: ",
        ) {
            Ok(t) => t,
            Err(e) => {
                return Err(e);
            },
        };
        let order = match fields.get("order") {
            Some(v) => match json_read_u32(v) {
                Ok(n) => n,
                Err(e) => {
                    return Err(GraphError::ConversionError(message("Invalid order format: ", e.as_str())));
                },
            },
            None => {
                return Err(GraphError::ConversionError(String::from_str("Missing order in step")));
            },
        };
        let action = match fields.get("action") {
            Some(v) => clone_json(v),
            None => {
                return Err(GraphError::ConversionError(String::from_str("Missing action in step")));
            },
        };
        let status_text = match fields.get("status") {
            Some(v) => json_as_str(v),
            None => None,
        };
        let status = match status_text {
            Some(t) => match StepStatus::parse_from_str(t.as_str()) {
                Ok(x) => x,
                Err(e) => {
                    return Err(e);
                },
            },
            None => StepStatus::Pending,
        };
        let listed = match fields.get("conditions") {
            Some(v) => match json_as_values(v) {
                Some(l) => l,
                None => Vec::new(),
            },
            None => Vec::new(),
        };
        let ghost items = listed@;
        let mut conditions: Vec<Condition> = Vec::new();
        let n = listed.len();
        let mut i: usize = 0;
        while i < n
            invariant
                n == listed@.len(),
                items == listed@,
                i <= n,
                conditions@.len() == items.take(i as int).filter(readable_condition()).len(),
                forall|j: int| 0 <= j < conditions@.len() ==> read_condition(
                    #[trigger] conditions@[j],
                    items.take(i as int).filter(readable_condition())[j],
                ),
            decreases n - i,
        {
            let parsed = Condition::from_value(&listed[i]);
            proof {
                assert(items.take(i + 1) =~= items.take(i as int).push(items[i as int]));
                items.take(i as int).lemma_filter_push(items[i as int], readable_condition());
            }
            match parsed {
                Ok(c) => conditions.push(c),
                Err(_) => {},
            }
            i = i + 1;
        }
        proof {
            assert(items.take(n as int) =~= items);
        }
        let dependencies = match fields.get("dependencies") {
            Some(v) => match json_as_strings(v) {
                Some(l) => l,
                None => Vec::new(),
            },
            None => Vec::new(),
        };
        let result = match fields.get("result") {
            Some(v) => Some(clone_json(v)),
            None => None,
        };
        let error = match fields.get("error") {
            Some(v) => json_as_str(v),
            None => None,
        };
        let metadata = match fields.get("metadata") {
            Some(v) => match json_as_fields(v) {
                Some(m) => m,
                None => FieldMap::new(),
            },
            None => FieldMap::new(),
        };
        proof {
            let f = fields@;
            assert(listed_conditions(f) == items);
            assert(string_views(dependencies@) == (match text_list_attr(f, "dependencies"@) {
                Some(l) => l,
                None => Seq::<Seq<char>>::empty(),
            })) by {
                if text_list_attr(f, "dependencies"@) is None {
                    assert(string_views(dependencies@) =~= Seq::<Seq<char>>::empty());
                }
            }
            assert(metadata@ == fields_attr(f, "metadata"@));
        }
        Ok(Step { id, name, description, order, action, status, conditions, dependencies, result, error, metadata })
    }
}

/// Reading back a condition's JSON form gives a condition holding the same
/// values: `to_value` gives a value from which the condition reads, and
/// `from_value` gives one that reads from it.
pub proof fn lemma_condition_roundtrip(c: Condition, v: serde_json::Value, back: Condition)
    requires
        read_condition(c, v),
        read_condition(back, v),
    ensures
        same_condition(back, c),
{
}

/// Reading back a step's JSON form gives a step with the same ID, name,
/// description, order, action, status, dependencies, result and error,
/// conditions holding the same values in the same order, and metadata
/// giving the same value for every key.
pub proof fn lemma_step_roundtrip(s: Step, v: serde_json::Value, back: Step)
    requires
        holds_step(v, s),
        read_step(back, v),
    ensures
        back.id@ == s.id@,
        back.name@ == s.name@,
        back.description@ == s.description@,
        back.order == s.order,
        back.action == s.action,
        back.status == s.status,
        back.conditions@.len() == s.conditions@.len(),
        forall|i: int| 0 <= i < s.conditions@.len() ==> same_condition(#[trigger] back.conditions@[i], s.conditions@[i]),
        string_views(back.dependencies@) == string_views(s.dependencies@),
        back.result == s.result,
        opt_view(back.error) == opt_view(s.error),
        forall|k: Seq<char>| #[trigger] keyed_get(back.metadata@, k) == keyed_get(s.metadata@, k),
{
    let f = json_fields_of(v)->0;
    let listed = listed_conditions(f);
    assert forall|i: int| 0 <= i < listed.len() implies #[trigger] readable_condition()(listed[i]) by {
        assert(condition_readable(listed[i]));
    }
    lemma_filter_keeps_all(listed, readable_condition());
    assert forall|i: int| 0 <= i < s.conditions@.len() implies same_condition(
        #[trigger] back.conditions@[i],
        s.conditions@[i],
    ) by {
        lemma_condition_roundtrip(s.conditions@[i], listed[i], back.conditions@[i]);
    }
}

/// Steps are ordered by their `order` field.
pub open spec fn step_key() -> spec_fn(Step) -> int {
    |s: Step| s.order as int
}

/// A procedure kept as a memory: its steps in order, its conditions and
/// where its execution stands.
#[derive(Debug)]
pub struct ProceduralMemory {
    /// Base memory
    pub base: BaseMemory,
    /// Procedure name
    pub name: String,
    /// Procedure description
    pub description: String,
    /// Procedure steps, ordered by their `order` field
    pub steps: Vec<Step>,
    /// Procedure conditions
    pub conditions: Vec<Condition>,
    /// Index of the current step
    pub current_step: Option<usize>,
    /// Execution status
    pub status: StepStatus,
    /// Execution result
    pub result: Option<serde_json::Value>,
    /// Execution error
    pub error: Option<String>,
}

/// The step that follows the cursor `current` in `steps`: the first step
/// when nothing has run, the next one while there is one.
pub open spec fn next_step_index(steps_len: nat, current: Option<usize>) -> Option<int> {
    match current {
        Some(i) => if i + 1 < steps_len { Some(i + 1) } else { None },
        None => if steps_len > 0 { Some(0) } else { None },
    }
}

/// Insertion sort of steps by order; equal orders keep their order.
fn sort_steps(items: Vec<Step>) -> (r: Vec<Step>)
    ensures
        r@ == stable_sorted(items@, step_key()),
{
    let ghost all = items@;
    let mut rest = items;
    let mut out: Vec<Step> = Vec::new();
    let mut k: usize = 0;
    assert(all.take(0) =~= Seq::<Step>::empty());
    assert(all.len() == rest.len());
    while rest.len() > 0
        invariant
            all.len() <= usize::MAX,
            k <= all.len(),
            rest@ == all.skip(k as int),
            out@ == stable_sorted(all.take(k as int), step_key()),
        decreases rest.len(),
    {
        let x = rest.remove(0);
        let key = x.order;
        let n = out.len();
        let mut p: usize = 0;
        while p < n && out[p].order <= key
            invariant
                n == out@.len(),
                p <= n,
                forall|j: int| 0 <= j < p ==> (step_key())(#[trigger] out@[j]) <= key as int,
            decreases n - p,
        {
            p = p + 1;
        }
        proof {
            lemma_insertion_point_is(out@, step_key(), key as int, p as int);
            assert(all.take(k + 1).drop_last() =~= all.take(k as int));
            assert(all.take(k + 1).last() == x);
            assert(all.skip(k as int).drop_first() =~= all.skip(k + 1));
        }
        out.insert(p, x);
        k = k + 1;
    }
    assert(all.take(k as int) =~= all);
    out
}

impl ProceduralMemory {
    /// A new, empty, pending procedure. Its base memory is a procedural
    /// memory named "Procedural Memory" whose content is the empty JSON
    /// object's text.
    pub fn new(id: &str, name: &str, description: &str) -> (r: ProceduralMemory)
        ensures
            r.base.id@ == id@,
            r.base.name@ == "Procedural Memory"@,
            r.base.description@ == "Auto-generated procedural memory"@,
            is_fresh_metadata(r.base.metadata, memory_type_name(MemoryTypeEnum::Procedural)),
            r.name@ == name@,
            r.description@ == description@,
            r.steps@.len() == 0,
            r.conditions@.len() == 0,
            r.current_step is None,
            r.status == StepStatus::Pending,
            r.result is None,
            r.error is None,
    {
        let content = MemoryContent::json(json_object_new());
        let base = BaseMemory::new(
            id,
            "Procedural Memory",
            "Auto-generated procedural memory",
            MemoryTypeEnum::Procedural,
            content,
        );
        ProceduralMemory {
            base,
            name: String::from_str(name),
            description: String::from_str(description),
            steps: Vec::new(),
            conditions: Vec::new(),
            current_step: None,
            status: StepStatus::Pending,
            result: None,
            error: None,
        }
    }

    /// Adds a step, then re-orders the steps by their `order` field (a
    /// stable sort: steps with equal order keep the order they were added).
    pub fn add_step(&mut self, step: Step)
        ensures
            final(self).steps@ == stable_sorted(old(self).steps@.push(step), step_key()),
            final(self).base == old(self).base,
            final(self).name == old(self).name,
            final(self).description == old(self).description,
            final(self).conditions == old(self).conditions,
            final(self).current_step == old(self).current_step,
            final(self).status == old(self).status,
            final(self).result == old(self).result,
            final(self).error == old(self).error,
    {
        let mut items: Vec<Step> = Vec::new();
        std::mem::swap(&mut items, &mut self.steps);
        items.push(step);
        self.steps = sort_steps(items);
    }

    /// Adds a procedure-level condition at the end.
    pub fn add_condition(&mut self, condition: Condition)
        ensures
            final(self).conditions@ == old(self).conditions@.push(condition),
            final(self).steps == old(self).steps,
            final(self).base == old(self).base,
            final(self).current_step == old(self).current_step,
            final(self).status == old(self).status,
    {
        self.conditions.push(condition);
    }

    /// The first step with the ID `id`, if any.
    pub fn get_step(&self, id: &str) -> (r: Option<&Step>)
        ensures
            r is None <==> forall|j: int| 0 <= j < self.steps@.len() ==> #[trigger] self.steps@[j].id@ != id@,
            r matches Some(x) ==> exists|p: int| 0 <= p < self.steps@.len() && self.steps@[p].id@ == id@
                && (forall|j: int| 0 <= j < p ==> #[trigger] self.steps@[j].id@ != id@) && *x == self.steps@[p],
    {
        match self.step_position(id) {
            Some(p) => Some(&self.steps[p]),
            None => None,
        }
    }

    /// The position of the first step with the ID `id`, if any (the place
    /// that `get_step_mut` hands out).
    pub fn step_position(&self, id: &str) -> (r: Option<usize>)
        ensures
            r is None <==> forall|j: int| 0 <= j < self.steps@.len() ==> #[trigger] self.steps@[j].id@ != id@,
            r matches Some(p) ==> p < self.steps@.len() && self.steps@[p as int].id@ == id@ && (forall|j: int|
                0 <= j < p ==> #[trigger] self.steps@[j].id@ != id@),
    {
        let n = self.steps.len();
        let mut i: usize = 0;
        while i < n
            invariant
                n == self.steps@.len(),
                i <= n,
                forall|j: int| 0 <= j < i ==> #[trigger] self.steps@[j].id@ != id@,
            decreases n - i,
        {
            if str_eq(self.steps[i].id.as_str(), id) {
                return Some(i);
            }
            i = i + 1;
        }
        None
    }

    /// The first condition with the ID `id`, if any.
    pub fn get_condition(&self, id: &str) -> (r: Option<&Condition>)
        ensures
            r is None <==> forall|j: int| 0 <= j < self.conditions@.len() ==> #[trigger] self.conditions@[j].id@ != id@,
            r matches Some(x) ==> exists|p: int| 0 <= p < self.conditions@.len() && self.conditions@[p].id@ == id@
                && (forall|j: int| 0 <= j < p ==> #[trigger] self.conditions@[j].id@ != id@)
                && *x == self.conditions@[p],
    {
        match self.condition_position(id) {
            Some(p) => Some(&self.conditions[p]),
            None => None,
        }
    }

    /// The position of the first condition with the ID `id`, if any (the
    /// place that `get_condition_mut` hands out).
    pub fn condition_position(&self, id: &str) -> (r: Option<usize>)
        ensures
            r is None <==> forall|j: int| 0 <= j < self.conditions@.len() ==> #[trigger] self.conditions@[j].id@ != id@,
            r matches Some(p) ==> p < self.conditions@.len() && self.conditions@[p as int].id@ == id@ && (forall|j: int|
                0 <= j < p ==> #[trigger] self.conditions@[j].id@ != id@),
    {
        let n = self.conditions.len();
        let mut i: usize = 0;
        while i < n
            invariant
                n == self.conditions@.len(),
                i <= n,
                forall|j: int| 0 <= j < i ==> #[trigger] self.conditions@[j].id@ != id@,
            decreases n - i,
        {
            if str_eq(self.conditions[i].id.as_str(), id) {
                return Some(i);
            }
            i = i + 1;
        }
        None
    }

    /// The step at the cursor, if the cursor is set and in range.
    pub fn current_step(&self) -> (r: Option<&Step>)
        ensures
            match self.current_step {
                Some(i) => if i < self.steps@.len() {
                    r matches Some(x) && *x == self.steps@[i as int]
                } else {
                    r is None
                },
                None => r is None,
            },
    {
        match self.current_step {
            Some(i) => {
                if i < self.steps.len() {
                    Some(&self.steps[i])
                } else {
                    None
                }
            },
            None => None,
        }
    }

    /// The step after the cursor: the first step when nothing has run yet,
    /// the following one while there is one.
    pub fn next_step(&self) -> (r: Option<&Step>)
        ensures
            match next_step_index(self.steps@.len(), self.current_step) {
                Some(i) => r matches Some(x) && *x == self.steps@[i],
                None => r is None,
            },
    {
        match self.current_step {
            Some(i) => {
                if i < self.steps.len() && i + 1 < self.steps.len() {
                    Some(&self.steps[i + 1])
                } else {
                    None
                }
            },
            None => {
                if self.steps.len() > 0 {
                    Some(&self.steps[0])
                } else {
                    None
                }
            },
        }
    }
}

/// After a step is added, the steps are ordered and there is one more.
pub proof fn lemma_added_steps_ordered(steps: Seq<Step>, s: Step)
    ensures
        sorted_by(stable_sorted(steps.push(s), step_key()), step_key()),
        stable_sorted(steps.push(s), step_key()).len() == steps.len() + 1,
{
    lemma_stable_sorted_sorted(steps.push(s), step_key());
}

/// Adding a step to ordered steps keeps every earlier step in its order and
/// places the new one after all steps whose order is not greater.
pub proof fn lemma_added_step_inserted(steps: Seq<Step>, s: Step)
    requires
        sorted_by(steps, step_key()),
    ensures
        stable_sorted(steps.push(s), step_key()) == insert_stable(steps, step_key(), s),
{
    lemma_stable_sorted_of_sorted(steps, step_key());
    assert(steps.push(s).drop_last() =~= steps);
}

} // verus!
