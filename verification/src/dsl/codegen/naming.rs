//! The names and types that generated code uses for canonical keys.
use vstd::prelude::*;

use crate::dsl::types::MappingType;
use crate::text::{char_is_upper, char_lower, chars_of, is_upper, lower, Text};

verus! {

/// The field name of the first `n` characters of a canonical key.
pub open spec fn field_upto(s: Text, n: int) -> Text
    decreases n,
{
    if n <= 0 {
        Seq::empty()
    } else {
        let head = field_upto(s, n - 1);
        if is_upper(s[n - 1]) && n > 1 {
            head.push('_').push(lower(s[n - 1]))
        } else {
            head.push(lower(s[n - 1]))
        }
    }
}

/// The field name of a canonical key: an underscore before every capital but the
/// first, and all in small letters.
pub open spec fn field_of(s: Text) -> Text {
    field_upto(s, s.len() as int)
}

/// The field name of a canonical key.
pub fn snake_case(s: &str) -> (out: String)
    ensures
        out@ == field_of(s@),
{
    let chars = chars_of(s);
    let mut out = String::new();
    let mut i: usize = 0;
    while i < chars.len()
        invariant
            i <= chars.len(),
            out@ == field_upto(chars@, i as int),
        decreases chars.len() - i,
    {
        let c = chars[i];
        if i != 0 && char_is_upper(c) {
            out.push('_');
        }
        out.push(char_lower(c));
        i += 1;
    }
    out
}

/// The hub field of a canonical key.
pub fn field_name(key: &str) -> (out: String)
    ensures
        out@ == field_of(key@),
{
    snake_case(key)
}

/// The struct of the items of a canonical collection.
pub open spec fn item_of(coll_key: Text) -> Text {
    coll_key + "Item"@
}

/// The struct of the items of a canonical collection.
pub fn item_struct_name(coll_key: &str) -> (out: String)
    ensures
        out@ == item_of(coll_key@),
{
    let mut out = coll_key.to_string();
    out.push_str("Item");
    out
}

/// The Rust type of a canonical scalar.
pub open spec fn rust_type_of(ty: MappingType) -> Text {
    match ty {
        MappingType::Decimal => "Decimal"@,
        MappingType::Boolean => "bool"@,
        _ => "CompactString"@,
    }
}

/// The Rust type of a canonical scalar.
pub fn canonical_rust_type(ty: MappingType) -> (s: &'static str)
    ensures
        s@ == rust_type_of(ty),
{
    match ty {
        MappingType::Decimal => "Decimal",
        MappingType::Boolean => "bool",
        _ => "CompactString",
    }
}

} // verus!
