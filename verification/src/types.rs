//! Memory kinds, relationship kinds and relationship directions, with the
//! names by which they are parsed and printed.
use vstd::prelude::*;
use crate::error::Error;
use crate::error::message;
use crate::text::str_eq;

verus! {

/// The kinds of memory the store keeps.
#[derive(Debug, Clone, Copy, PartialEq, Eq, Hash, Structural)]
pub enum MemoryTypeEnum {
    /// Semantic memory (knowledge graph)
    Semantic,
    /// Episodic memory (events and experiences)
    Episodic,
    /// Procedural memory (skills and procedures)
    Procedural,
    /// Working memory (temporary storage)
    Working,
    /// Long-term memory (the default kind)
    LongTerm,
}

/// The name under which a memory kind is printed and parsed.
pub open spec fn memory_type_name(t: MemoryTypeEnum) -> Seq<char> {
    match t {
        MemoryTypeEnum::Semantic => "semantic"@,
        MemoryTypeEnum::Episodic => "episodic"@,
        MemoryTypeEnum::Procedural => "procedural"@,
        MemoryTypeEnum::Working => "working"@,
        MemoryTypeEnum::LongTerm => "long_term"@,
    }
}

/// The memory kind named `s`, if `s` is exactly one of the five names.
pub open spec fn memory_type_named(s: Seq<char>) -> Option<MemoryTypeEnum> {
    if s == "semantic"@ {
        Some(MemoryTypeEnum::Semantic)
    } else if s == "episodic"@ {
        Some(MemoryTypeEnum::Episodic)
    } else if s == "procedural"@ {
        Some(MemoryTypeEnum::Procedural)
    } else if s == "working"@ {
        Some(MemoryTypeEnum::Working)
    } else if s == "long_term"@ {
        Some(MemoryTypeEnum::LongTerm)
    } else {
        None
    }
}

impl MemoryTypeEnum {
    /// Parses a memory kind from its exact name ("semantic", "episodic",
    /// "procedural", "working", "long_term"); any other text is refused
    /// with `InvalidInput("Invalid memory type: <s>")`.
    pub fn from_string(s: &str) -> (r: Result<MemoryTypeEnum, Error>)
        ensures
            memory_type_named(s@) matches Some(t) ==> r == Ok::<MemoryTypeEnum, Error>(t),
            memory_type_named(s@) is None ==> (r matches Err(Error::InvalidInput(m))
                && m@ == "Invalid memory type: "@ + s@),
    {
        proof {
            reveal_strlit("semantic");
            reveal_strlit("episodic");
            reveal_strlit("procedural");
            reveal_strlit("working");
            reveal_strlit("long_term");
        }
        if str_eq(s, "semantic") {
            Ok(MemoryTypeEnum::Semantic)
        } else if str_eq(s, "episodic") {
            Ok(MemoryTypeEnum::Episodic)
        } else if str_eq(s, "procedural") {
            Ok(MemoryTypeEnum::Procedural)
        } else if str_eq(s, "working") {
            Ok(MemoryTypeEnum::Working)
        } else if str_eq(s, "long_term") {
            Ok(MemoryTypeEnum::LongTerm)
        } else {
            Err(Error::InvalidInput(message("Invalid memory type: ", s)))
        }
    }

    /// The printed name of this kind.
    pub fn as_str(&self) -> (r: &'static str)
        ensures
            r@ == memory_type_name(*self),
    {
        match self {
            MemoryTypeEnum::Semantic => "semantic",
            MemoryTypeEnum::Episodic => "episodic",
            MemoryTypeEnum::Procedural => "procedural",
            MemoryTypeEnum::Working => "working",
            MemoryTypeEnum::LongTerm => "long_term",
        }
    }

    /// The printed name of this kind, as an owned string (what the
    /// kind's display form shows).
    pub fn to_string(&self) -> (r: String)
        ensures
            r@ == memory_type_name(*self),
    {
        String::from_str(self.as_str())
    }
}

impl Default for MemoryTypeEnum {
    /// Long-term memory is the default kind.
    fn default() -> (r: Self)
        ensures
            r == MemoryTypeEnum::LongTerm,
    {
        MemoryTypeEnum::LongTerm
    }
}

/// Every kind is read back from its printed name.
pub proof fn lemma_memory_type_name_roundtrip(t: MemoryTypeEnum)
    ensures
        memory_type_named(memory_type_name(t)) == Some(t),
{
    reveal_strlit("semantic");
    reveal_strlit("episodic");
    reveal_strlit("procedural");
    reveal_strlit("working");
    reveal_strlit("long_term");
    assert("semantic"@[0] == 's');
    assert("episodic"@[0] == 'e');
    assert("procedural"@[0] == 'p');
    assert("working"@[0] == 'w');
    assert("long_term"@[0] == 'l');
}

impl std::str::FromStr for MemoryTypeEnum {
    type Err = Error;

    /// Parses a memory kind as `from_string` does.
    fn from_str(s: &str) -> (r: core::result::Result<Self, Error>)
        ensures
            memory_type_named(s@) matches Some(t) ==> r == Ok::<MemoryTypeEnum, Error>(t),
            memory_type_named(s@) is None ==> (r matches Err(Error::InvalidInput(m))
                && m@ == "Invalid memory type: "@ + s@),
    {
        Self::from_string(s)
    }
}


/// Kinds of relationship between memories.
#[derive(Debug, PartialEq, Eq, Hash)]
pub enum RelationshipType {
    /// Causal relationship (A causes B)
    CausedBy,
    /// Temporal relationship (A happens before B)
    PrecedesTemporally,
    /// Semantic similarity
    SimilarTo,
    /// Contradiction relationship
    Contradicts,
    /// Supporting evidence
    Supports,
    /// Part-whole relationship
    PartOf,
    /// Generalization relationship
    GeneralizationOf,
    /// Specialization relationship
    SpecializationOf,
    /// Association relationship
    AssociatedWith,
    /// Custom relationship kind
    Custom(String),
}

/// Whether `s` is the name of one of the built-in relationship kinds.
pub open spec fn is_builtin_relationship_name(s: Seq<char>) -> bool {
    s == "caused_by"@ || s == "precedes_temporally"@ || s == "similar_to"@ || s == "contradicts"@
        || s == "supports"@ || s == "part_of"@ || s == "generalization_of"@
        || s == "specialization_of"@ || s == "associated_with"@
}

/// Whether `r` is the relationship kind that the name `s` stands for:
/// a built-in kind for its snake-case name, `Custom(s)` for any other text.
pub open spec fn relationship_named(r: RelationshipType, s: Seq<char>) -> bool {
    match r {
        RelationshipType::CausedBy => s == "caused_by"@,
        RelationshipType::PrecedesTemporally => s == "precedes_temporally"@,
        RelationshipType::SimilarTo => s == "similar_to"@,
        RelationshipType::Contradicts => s == "contradicts"@,
        RelationshipType::Supports => s == "supports"@,
        RelationshipType::PartOf => s == "part_of"@,
        RelationshipType::GeneralizationOf => s == "generalization_of"@,
        RelationshipType::SpecializationOf => s == "specialization_of"@,
        RelationshipType::AssociatedWith => s == "associated_with"@,
        RelationshipType::Custom(c) => c@ == s && !is_builtin_relationship_name(s),
    }
}

/// Whether a relationship kind holds in both directions.
pub open spec fn relationship_bidirectional(r: RelationshipType) -> bool {
    r is SimilarTo || r is Contradicts || r is AssociatedWith
}

/// Whether `inv` is the inverse of `r` as the library defines it.
pub open spec fn is_inverse_of(r: RelationshipType, inv: Option<RelationshipType>) -> bool {
    match r {
        RelationshipType::CausedBy => inv matches Some(RelationshipType::Custom(c)) && c@ == "causes"@,
        RelationshipType::PrecedesTemporally => inv matches Some(RelationshipType::Custom(c)) && c@
            == "follows_temporally"@,
        RelationshipType::PartOf => inv matches Some(RelationshipType::Custom(c)) && c@ == "has_part"@,
        RelationshipType::GeneralizationOf => inv == Some(RelationshipType::SpecializationOf),
        RelationshipType::SpecializationOf => inv == Some(RelationshipType::GeneralizationOf),
        RelationshipType::Supports => inv matches Some(RelationshipType::Custom(c)) && c@
            == "supported_by"@,
        _ => inv is None,
    }
}

impl Clone for RelationshipType {
    /// A copy of this kind.
    fn clone(&self) -> (r: RelationshipType)
        ensures
            r == *self,
    {
        match self {
            RelationshipType::CausedBy => RelationshipType::CausedBy,
            RelationshipType::PrecedesTemporally => RelationshipType::PrecedesTemporally,
            RelationshipType::SimilarTo => RelationshipType::SimilarTo,
            RelationshipType::Contradicts => RelationshipType::Contradicts,
            RelationshipType::Supports => RelationshipType::Supports,
            RelationshipType::PartOf => RelationshipType::PartOf,
            RelationshipType::GeneralizationOf => RelationshipType::GeneralizationOf,
            RelationshipType::SpecializationOf => RelationshipType::SpecializationOf,
            RelationshipType::AssociatedWith => RelationshipType::AssociatedWith,
            RelationshipType::Custom(c) => RelationshipType::Custom(c.clone()),
        }
    }
}

impl RelationshipType {
    /// Whether this kind holds in both directions (similarity,
    /// contradiction and association).
    pub fn is_bidirectional(&self) -> (r: bool)
        ensures
            r == relationship_bidirectional(*self),
    {
        match self {
            RelationshipType::SimilarTo | RelationshipType::Contradicts
            | RelationshipType::AssociatedWith => true,
            _ => false,
        }
    }

    /// The inverse kind, where the library defines one.
    pub fn inverse(&self) -> (r: Option<RelationshipType>)
        ensures
            is_inverse_of(*self, r),
    {
        match self {
            RelationshipType::CausedBy => Some(
                RelationshipType::Custom(String::from_str("causes")),
            ),
            RelationshipType::PrecedesTemporally => Some(
                RelationshipType::Custom(String::from_str("follows_temporally")),
            ),
            RelationshipType::PartOf => Some(RelationshipType::Custom(String::from_str("has_part"))),
            RelationshipType::GeneralizationOf => Some(RelationshipType::SpecializationOf),
            RelationshipType::SpecializationOf => Some(RelationshipType::GeneralizationOf),
            RelationshipType::Supports => Some(
                RelationshipType::Custom(String::from_str("supported_by")),
            ),
            _ => None,
        }
    }

    /// The relationship kind that a name stands for: the built-in kind for
    /// its snake-case name, a custom kind holding the text otherwise.
    pub fn from_name(s: &str) -> (r: RelationshipType)
        ensures
            relationship_named(r, s@),
    {
        if str_eq(s, "caused_by") {
            RelationshipType::CausedBy
        } else if str_eq(s, "precedes_temporally") {
            RelationshipType::PrecedesTemporally
        } else if str_eq(s, "similar_to") {
            RelationshipType::SimilarTo
        } else if str_eq(s, "contradicts") {
            RelationshipType::Contradicts
        } else if str_eq(s, "supports") {
            RelationshipType::Supports
        } else if str_eq(s, "part_of") {
            RelationshipType::PartOf
        } else if str_eq(s, "generalization_of") {
            RelationshipType::GeneralizationOf
        } else if str_eq(s, "specialization_of") {
            RelationshipType::SpecializationOf
        } else if str_eq(s, "associated_with") {
            RelationshipType::AssociatedWith
        } else {
            RelationshipType::Custom(String::from_str(s))
        }
    }
}

/// The kinds that hold in both directions are exactly the built-in kinds
/// that have no inverse (similarity, contradiction, association): a kind
/// with an inverse, and any custom kind, holds one way only.
pub proof fn lemma_bidirectional_exactly_symmetric(r: RelationshipType)
    ensures
        relationship_bidirectional(r) == (!(r is Custom) && is_inverse_of(r, None)),
        r is Custom ==> !relationship_bidirectional(r),
{
}

/// A kind that holds in both directions has no inverse.
pub proof fn lemma_bidirectional_has_no_inverse(r: RelationshipType, inv: Option<RelationshipType>)
    requires
        relationship_bidirectional(r),
        is_inverse_of(r, inv),
    ensures
        inv is None,
{
}

/// Taking the inverse twice gives back generalization and specialization.
pub proof fn lemma_inverse_involutive(
    r: RelationshipType,
    inv: Option<RelationshipType>,
    back: Option<RelationshipType>,
)
    requires
        r is GeneralizationOf || r is SpecializationOf,
        is_inverse_of(r, inv),
        inv is Some,
        is_inverse_of(inv->0, back),
    ensures
        back == Some(r),
{
}

/// The direction of a stored relationship.
#[derive(Debug, Clone, Copy, PartialEq, Eq, Structural)]
pub enum RelationshipDirection {
    /// One-way relationship from source to target
    OneWay,
    /// Two-way relationship between source and target
    TwoWay,
}

impl RelationshipDirection {
    /// The printed name of this direction ("one_way" or "two_way").
    pub fn to_string(&self) -> (r: String)
        ensures
            r@ == (match *self {
                RelationshipDirection::OneWay => "one_way"@,
                RelationshipDirection::TwoWay => "two_way"@,
            }),
    {
        match self {
            RelationshipDirection::OneWay => String::from_str("one_way"),
            RelationshipDirection::TwoWay => String::from_str("two_way"),
        }
    }
}

} // verus!
