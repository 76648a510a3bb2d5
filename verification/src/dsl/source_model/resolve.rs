//! Following a dotted path through a source model.
use vstd::prelude::*;

use crate::dsl::source_model::meta::{
    FieldType, FieldV, FieldsV, ModelV, PathError, PathErrorV, ResolvedField, ResolvedV,
    SourceModelMeta, StructsV,
};
use crate::ordmap::lookup;
use crate::text::{outcome, split, split_at_char, Text};

verus! {

/// Where the fields `segs` lead from the struct `name`, given whether a field
/// passed so far repeats or is optional.
pub open spec fn walk(
    structs: StructsV,
    name: Text,
    segs: Seq<Text>,
    repeated: bool,
    optional: bool,
) -> Result<ResolvedV, PathErrorV>
    decreases segs.len(),
{
    match lookup::<String, FieldsV>(structs, name) {
        None => Err(PathErrorV::UnknownRoot(name)),
        Some(fields) => if segs.len() == 0 {
            Err(PathErrorV::Empty)
        } else {
            match lookup::<String, FieldV>(fields, segs[0]) {
                None => Err(PathErrorV::UnknownField { struct_name: name, field: segs[0] }),
                Some(f) => {
                    let rep = repeated || f.repeated;
                    let opt = optional || f.optional;
                    if segs.len() == 1 {
                        Ok(
                            ResolvedV {
                                repeated: rep,
                                optional: opt,
                                is_struct: f.ty is Some,
                                struct_name: f.ty,
                            },
                        )
                    } else {
                        match f.ty {
                            Some(next) => walk(structs, next, segs.drop_first(), rep, opt),
                            None => Err(
                                PathErrorV::NotAStruct { struct_name: name, field: segs[0] },
                            ),
                        }
                    }
                },
            }
        },
    }
}

/// Where a dotted path leads from a struct.
pub open spec fn resolved_from(model: ModelV, start: Text, path: Text) -> Result<
    ResolvedV,
    PathErrorV,
> {
    if path.len() == 0 {
        Err(PathErrorV::Empty)
    } else {
        walk(model.structs, start, split(path, '.'), false, false)
    }
}

/// Resolves a dotted path from the root struct.
///
/// # Errors
///
/// See [`resolve_path_from`].
pub fn resolve_path(meta: &SourceModelMeta, path: &str) -> (r: Result<ResolvedField, PathError>)
    ensures
        outcome(r) == resolved_from(meta@, meta@.root, path@),
{
    resolve_path_from(meta, meta.root.as_str(), path)
}

/// Resolves a dotted path from the struct `start`.
///
/// # Errors
///
/// [`PathError::Empty`] for an empty path, [`PathError::UnknownRoot`] for a
/// struct the model lacks, [`PathError::UnknownField`] for a field a struct
/// lacks, and [`PathError::NotAStruct`] for a path that goes on behind a scalar.
pub fn resolve_path_from(meta: &SourceModelMeta, start: &str, path: &str) -> (r: Result<
    ResolvedField,
    PathError,
>)
    ensures
        outcome(r) == resolved_from(meta@, start@, path@),
{
    if path.is_empty() {
        return Err(PathError::Empty);
    }
    let segments = split_at_char(path, '.');
    let ghost segs = split(path@, '.');
    let mut name = start.to_string();
    let mut repeated = false;
    let mut optional = false;
    let mut i: usize = 0;
    assert(segs.skip(0) =~= segs);
    loop
        invariant
            i < segments.len(),
            segments.deep_view() == segs,
            resolved_from(meta@, start@, path@) == walk(
                meta@.structs,
                name@,
                segs.skip(i as int),
                repeated,
                optional,
            ),
        decreases segments.len() - i,
    {
        assert(segs.skip(i as int)[0] == segments@[i as int]@);
        assert(segs.skip(i as int).drop_first() =~= segs.skip(i + 1));
        let current = match meta.structs.get(&name) {
            None => {
                return Err(PathError::UnknownRoot(name));
            },
            Some(s) => s,
        };
        let field = match current.fields.get(&segments[i]) {
            None => {
                return Err(
                    PathError::UnknownField { struct_name: name, field: segments[i].clone() },
                );
            },
            Some(f) => f,
        };
        repeated = repeated || field.repeated;
        optional = optional || field.optional;
        let is_last = i + 1 == segments.len();
        match &field.ty {
            FieldType::Struct(next) => {
                if is_last {
                    return Ok(
                        ResolvedField {
                            repeated,
                            optional,
                            is_struct: true,
                            struct_name: Some(next.clone()),
                        },
                    );
                }
                name = next.clone();
            },
            FieldType::Scalar => {
                if is_last {
                    return Ok(
                        ResolvedField { repeated, optional, is_struct: false, struct_name: None },
                    );
                }
                return Err(
                    PathError::NotAStruct { struct_name: name, field: segments[i].clone() },
                );
            },
        }
        i += 1;
    }
}

} // verus!
