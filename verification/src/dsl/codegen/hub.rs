//! The generated hub: the root struct and one struct for the items of each
//! collection.
use vstd::prelude::*;

use crate::dsl::codegen::naming::{
    canonical_rust_type, field_name, field_of, item_of, item_struct_name, rust_type_of,
};
use crate::dsl::hub::{inside, CFieldV, CanonicalField, CanonicalModel, CanonicalScope, HubV, ScopeV};
use crate::text::Text;

verus! {

/// The text `t` with the declaration of a hub field.
pub open spec fn field_decl(t: Text, f: CFieldV) -> Text
{
    let t = if f.is_collection {
        let t = t + "    pub "@ + field_of(f.key) + ": Vec<"@ + item_of(f.key) + ">,\n"@;
        t
    } else {
        let t = t + "    pub "@ + field_of(f.key) + ": Option<"@ + rust_type_of(f.ty) + ">,\n"@;
        t
    };
    t
}

/// Declares one field of a generated struct.
fn hub_field_decl(out: &mut String, f: &CanonicalField)
    ensures
        final(out)@ == field_decl(old(out)@, f@),
{
    if f.is_collection {
        out.push_str("    pub ");
        out.push_str(field_name(f.key.as_str()).as_str());
        out.push_str(": Vec<");
        out.push_str(item_struct_name(f.key.as_str()).as_str());
        out.push_str(">,\n");
    } else {
        out.push_str("    pub ");
        out.push_str(field_name(f.key.as_str()).as_str());
        out.push_str(": Option<");
        out.push_str(canonical_rust_type(f.ty));
        out.push_str(">,\n");
    }
}

/// The text `t` with the declarations of those of the first `n` hub fields that
/// stand in a scope.
pub open spec fn scope_decls(t: Text, hub: HubV, scope: ScopeV, n: int) -> Text
    decreases n,
{
    if n <= 0 {
        t
    } else {
        let t = scope_decls(t, hub, scope, n - 1);
        if hub[n - 1].1.scope == scope {
            field_decl(t, hub[n - 1].1)
        } else {
            t
        }
    }
}

/// Declares the fields of a scope.
fn declare_scope(out: &mut String, hub: &CanonicalModel, scope: &CanonicalScope)
    ensures
        final(out)@ == scope_decls(old(out)@, hub@, scope@, hub@.len() as int),
{
    let mut i: usize = 0;
    while i < hub.fields.len()
        invariant
            i <= hub@.len(),
            out@ == scope_decls(old(out)@, hub@, scope@, i as int),
        decreases hub@.len() - i,
    {
        let f = hub.fields.value_at(i);
        if f.scope.same_as(scope) {
            hub_field_decl(out, f);
        }
        i += 1;
    }
}

/// The text `t` with the struct of the items of a collection.
pub open spec fn item_struct_text(t: Text, hub: HubV, f: CFieldV) -> Text
{
    let t = t + "\n/// One item of the `"@ + f.key + "` canonical collection.\n#[derive(Debug, Clone, Default, PartialEq)]\npub struct "@ + item_of(f.key) + " {\n"@;
    let t = scope_decls(t, hub, inside(f.scope, f.key), hub.len() as int);
    let t = t + "}\n"@;
    t
}

/// Declares the struct of the items of a collection.
fn item_struct(out: &mut String, hub: &CanonicalModel, f: &CanonicalField)
    ensures
        final(out)@ == item_struct_text(old(out)@, hub@, f@),
{
    out.push_str("\n/// One item of the `");
    out.push_str(f.key.as_str());
    out.push_str("` canonical collection.\n#[derive(Debug, Clone, Default, PartialEq)]\npub struct ");
    out.push_str(item_struct_name(f.key.as_str()).as_str());
    out.push_str(" {\n");
    declare_scope(out, hub, &f.scope.child(f.key.as_str()));
    out.push_str("}\n");
}

/// The text `t` with an item struct for each of the first `n` hub fields that are
/// collections.
pub open spec fn item_structs(t: Text, hub: HubV, n: int) -> Text
    decreases n,
{
    if n <= 0 {
        t
    } else {
        let t = item_structs(t, hub, n - 1);
        if hub[n - 1].1.is_collection {
            item_struct_text(t, hub, hub[n - 1].1)
        } else {
            t
        }
    }
}

/// The generated hub.
pub open spec fn hub_text(hub: HubV) -> Text {
    let t = "// Generated canonical hub. Do not edit by hand.\n\n"@
        + "use compact_str::CompactString;\n"@ + "use rust_decimal::Decimal;\n\n"@
        + "/// The canonical invoice hub (union of every spoke's canonical keys).\n"@
        + "#[derive(Debug, Clone, Default, PartialEq)]\n"@ + "pub struct MainKey {\n"@;
    let t = scope_decls(t, hub, None, hub.len() as int) + "}\n"@;
    item_structs(t, hub, hub.len() as int)
}

/// Generates the hub: a struct with every root field, and one for the items of
/// each collection.
pub fn generate_hub(hub: &CanonicalModel) -> (out: String)
    ensures
        out@ == hub_text(hub@),
{
    let mut out = "// Generated canonical hub. Do not edit by hand.\n\n".to_string();
    out.push_str("use compact_str::CompactString;\n");
    out.push_str("use rust_decimal::Decimal;\n\n");
    out.push_str("/// The canonical invoice hub (union of every spoke's canonical keys).\n");
    out.push_str("#[derive(Debug, Clone, Default, PartialEq)]\n");
    out.push_str("pub struct MainKey {\n");
    declare_scope(&mut out, hub, &CanonicalScope::Root);
    out.push_str("}\n");
    let ghost t = out@;
    let mut i: usize = 0;
    while i < hub.fields.len()
        invariant
            i <= hub@.len(),
            out@ == item_structs(t, hub@, i as int),
        decreases hub@.len() - i,
    {
        let f = hub.fields.value_at(i);
        if f.is_collection {
            item_struct(&mut out, hub, f);
        }
        i += 1;
    }
    out
}

} // verus!
