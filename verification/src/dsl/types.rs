//! The closed set of value types a mapping node may declare.
use vstd::prelude::*;

use crate::text::{same, Text};

verus! {

/// The value type of a mapping node.
#[derive(Debug, Clone, Copy, PartialEq, Eq, PartialOrd, Ord, Hash, Structural)]
pub enum MappingType {
    /// Free text.
    String,
    /// An identifier.
    Identifier,
    /// A calendar date, `YYYY-MM-DD`.
    Date,
    /// A date and a time of day.
    Datetime,
    /// A decimal number.
    Decimal,
    /// A three-letter currency code.
    Currency,
    /// A unit-of-measure code.
    UnitCode,
    /// `true` or `false`.
    Boolean,
    /// A repeated structure.
    Collection,
}

impl DeepView for MappingType {
    type V = MappingType;

    open spec fn deep_view(&self) -> MappingType {
        *self
    }
}

/// The keyword a mapping file writes for a type.
pub open spec fn type_keyword(ty: MappingType) -> Text {
    match ty {
        MappingType::String => "string"@,
        MappingType::Identifier => "identifier"@,
        MappingType::Date => "date"@,
        MappingType::Datetime => "datetime"@,
        MappingType::Decimal => "decimal"@,
        MappingType::Currency => "currency"@,
        MappingType::UnitCode => "unit_code"@,
        MappingType::Boolean => "boolean"@,
        MappingType::Collection => "collection"@,
    }
}

/// The type a keyword stands for, if it is one.
pub open spec fn type_of_keyword(word: Text) -> Option<MappingType> {
    if word == "string"@ {
        Some(MappingType::String)
    } else if word == "identifier"@ {
        Some(MappingType::Identifier)
    } else if word == "date"@ {
        Some(MappingType::Date)
    } else if word == "datetime"@ {
        Some(MappingType::Datetime)
    } else if word == "decimal"@ {
        Some(MappingType::Decimal)
    } else if word == "currency"@ {
        Some(MappingType::Currency)
    } else if word == "unit_code"@ {
        Some(MappingType::UnitCode)
    } else if word == "boolean"@ {
        Some(MappingType::Boolean)
    } else if word == "collection"@ {
        Some(MappingType::Collection)
    } else {
        None
    }
}

impl MappingType {
    /// Whether this is the collection type.
    pub fn is_collection(self) -> (r: bool)
        ensures
            r == (self == MappingType::Collection),
    {
        matches!(self, MappingType::Collection)
    }

    /// The keyword a mapping file writes for this type.
    pub fn as_str(self) -> (s: &'static str)
        ensures
            s@ == type_keyword(self),
    {
        match self {
            MappingType::String => "string",
            MappingType::Identifier => "identifier",
            MappingType::Date => "date",
            MappingType::Datetime => "datetime",
            MappingType::Decimal => "decimal",
            MappingType::Currency => "currency",
            MappingType::UnitCode => "unit_code",
            MappingType::Boolean => "boolean",
            MappingType::Collection => "collection",
        }
    }

    /// The type a keyword stands for, if it is one.
    pub fn from_keyword(word: &str) -> (r: Option<MappingType>)
        ensures
            r == type_of_keyword(word@),
    {
        if same(word, "string") {
            Some(MappingType::String)
        } else if same(word, "identifier") {
            Some(MappingType::Identifier)
        } else if same(word, "date") {
            Some(MappingType::Date)
        } else if same(word, "datetime") {
            Some(MappingType::Datetime)
        } else if same(word, "decimal") {
            Some(MappingType::Decimal)
        } else if same(word, "currency") {
            Some(MappingType::Currency)
        } else if same(word, "unit_code") {
            Some(MappingType::UnitCode)
        } else if same(word, "boolean") {
            Some(MappingType::Boolean)
        } else if same(word, "collection") {
            Some(MappingType::Collection)
        } else {
            None
        }
    }
}

/// Every type is what its own keyword stands for.
pub proof fn law_type_keyword_round_trip(ty: MappingType)
    ensures
        type_of_keyword(type_keyword(ty)) == Some(ty),
{
    reveal_strlit("string");
    reveal_strlit("identifier");
    reveal_strlit("date");
    reveal_strlit("datetime");
    reveal_strlit("decimal");
    reveal_strlit("currency");
    reveal_strlit("unit_code");
    reveal_strlit("boolean");
    reveal_strlit("collection");
    assert("date"@.len() == 4 && "string"@.len() == 6 && "decimal"@.len() == 7 && "boolean"@.len()
        == 7 && "datetime"@.len() == 8 && "currency"@.len() == 8 && "unit_code"@.len() == 9
        && "identifier"@.len() == 10 && "collection"@.len() == 10);
    assert("decimal"@[0] != "boolean"@[0]);
    assert("datetime"@[0] != "currency"@[0]);
    assert("identifier"@[0] != "collection"@[0]);
}

} // verus!
