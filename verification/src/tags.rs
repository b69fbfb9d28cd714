//! The closed enumeration of JSON type tags and finite sets of them.

use vstd::prelude::*;

verus! {

/// One of the seven JSON-Schema-primitive type classifications.
///
/// `Integer` and `Number` are distinct: a numeric value is tagged `Integer`
/// when the decoded token is representable as a 64-bit signed or unsigned
/// integer (no fractional part, no exponent in the decoded form), otherwise
/// `Number`.  In particular the text `1.0` decodes to a float and is tagged
/// `Number`, while `1` is tagged `Integer`.
#[derive(Debug, Clone, Copy, PartialEq, Eq, Structural)]
pub enum TypeTag {
    Null,
    Boolean,
    Integer,
    Number,
    String,
    Object,
    Array,
}

/// The name under which a tag appears in a schema's `type` keyword.
pub open spec fn tag_name(t: TypeTag) -> Seq<char> {
    match t {
        TypeTag::Null => seq!['n', 'u', 'l', 'l'],
        TypeTag::Boolean => seq!['b', 'o', 'o', 'l', 'e', 'a', 'n'],
        TypeTag::Integer => seq!['i', 'n', 't', 'e', 'g', 'e', 'r'],
        TypeTag::Number => seq!['n', 'u', 'm', 'b', 'e', 'r'],
        TypeTag::String => seq!['s', 't', 'r', 'i', 'n', 'g'],
        TypeTag::Object => seq!['o', 'b', 'j', 'e', 'c', 't'],
        TypeTag::Array => seq!['a', 'r', 'r', 'a', 'y'],
    }
}

impl TypeTag {
    /// The name under which this tag appears in a schema's `type` keyword.
    pub fn as_str(&self) -> (r: &'static str)
        ensures
            r@ == tag_name(*self),
    {
        proof {
            reveal_strlit("null");
            reveal_strlit("boolean");
            reveal_strlit("integer");
            reveal_strlit("number");
            reveal_strlit("string");
            reveal_strlit("object");
            reveal_strlit("array");
        }
        match self {
            TypeTag::Null => "null",
            TypeTag::Boolean => "boolean",
            TypeTag::Integer => "integer",
            TypeTag::Number => "number",
            TypeTag::String => "string",
            TypeTag::Object => "object",
            TypeTag::Array => "array",
        }
    }
}

/// A set of [`TypeTag`]s, one membership flag per tag.
///
/// Seven flags stand in for a hash set of tags: the universe is closed, so a
/// struct of booleans is already a canonical, order-free representation.
#[derive(Debug, Clone, Copy, PartialEq, Eq, Structural)]
pub struct TagSet {
    pub null: bool,
    pub boolean: bool,
    pub integer: bool,
    pub number: bool,
    pub string: bool,
    pub object: bool,
    pub array: bool,
}

impl TagSet {
    /// The set with no members.
    pub open spec fn spec_empty() -> TagSet {
        TagSet {
            null: false,
            boolean: false,
            integer: false,
            number: false,
            string: false,
            object: false,
            array: false,
        }
    }

    /// The set with no members.
    pub fn empty() -> (r: TagSet)
        ensures
            r == TagSet::spec_empty(),
    {
        TagSet {
            null: false,
            boolean: false,
            integer: false,
            number: false,
            string: false,
            object: false,
            array: false,
        }
    }

    /// Whether `t` is a member.
    pub open spec fn spec_has(&self, t: TypeTag) -> bool {
        match t {
            TypeTag::Null => self.null,
            TypeTag::Boolean => self.boolean,
            TypeTag::Integer => self.integer,
            TypeTag::Number => self.number,
            TypeTag::String => self.string,
            TypeTag::Object => self.object,
            TypeTag::Array => self.array,
        }
    }

    /// Whether `t` is a member.
    #[verifier::when_used_as_spec(spec_has)]
    pub fn has(&self, t: TypeTag) -> (r: bool)
        ensures
            r == self.spec_has(t),
    {
        match t {
            TypeTag::Null => self.null,
            TypeTag::Boolean => self.boolean,
            TypeTag::Integer => self.integer,
            TypeTag::Number => self.number,
            TypeTag::String => self.string,
            TypeTag::Object => self.object,
            TypeTag::Array => self.array,
        }
    }

    /// The set with `t` added.
    pub open spec fn spec_insert(self, t: TypeTag) -> TagSet {
        match t {
            TypeTag::Null => TagSet { null: true, ..self },
            TypeTag::Boolean => TagSet { boolean: true, ..self },
            TypeTag::Integer => TagSet { integer: true, ..self },
            TypeTag::Number => TagSet { number: true, ..self },
            TypeTag::String => TagSet { string: true, ..self },
            TypeTag::Object => TagSet { object: true, ..self },
            TypeTag::Array => TagSet { array: true, ..self },
        }
    }

    /// Adds `t` to the set in place.
    pub fn insert(&mut self, t: TypeTag)
        ensures
            *final(self) == old(self).spec_insert(t),
    {
        match t {
            TypeTag::Null => self.null = true,
            TypeTag::Boolean => self.boolean = true,
            TypeTag::Integer => self.integer = true,
            TypeTag::Number => self.number = true,
            TypeTag::String => self.string = true,
            TypeTag::Object => self.object = true,
            TypeTag::Array => self.array = true,
        }
    }
}

/// Inserting two tags in either order yields the same set.
pub proof fn lemma_tagset_insert_commutes(s: TagSet, a: TypeTag, b: TypeTag)
    ensures
        s.spec_insert(a).spec_insert(b) == s.spec_insert(b).spec_insert(a),
{
}

} // verus!
