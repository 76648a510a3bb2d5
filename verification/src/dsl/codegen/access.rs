//! Rust expressions that reach a source field through its path.
use vstd::prelude::*;

use crate::dsl::meta::clone_opt;
use crate::dsl::normalize::NormalizeOp;
use crate::dsl::source_model::meta::{
    FieldType, FieldV, FieldsV, ModelV, SourceModelMeta, StructsV,
};
use crate::ordmap::lookup;
use crate::text::{decimal, decimal_of, split, split_at_char, Text};

verus! {

/// One field on a path.
#[derive(Debug, PartialEq, Eq)]
pub struct SegInfo {
    /// The name of the field.
    pub name: String,
    /// Whether the field is held in an `Option`.
    pub optional: bool,
    /// Whether the field is held in a `Vec`.
    pub repeated: bool,
    /// The struct it holds, if any.
    pub struct_name: Option<String>,
}

/// The model of a [`SegInfo`].
#[verifier::ext_equal]
pub struct SegV {
    pub name: Text,
    pub optional: bool,
    pub repeated: bool,
    pub struct_name: Option<Text>,
}

impl DeepView for SegInfo {
    type V = SegV;

    open spec fn deep_view(&self) -> SegV {
        SegV {
            name: self.name@,
            optional: self.optional,
            repeated: self.repeated,
            struct_name: self.struct_name.deep_view(),
        }
    }
}

/// What a path knows of one of its fields: a struct that does not repeat is held
/// in an `Option`.
pub open spec fn seg_of(name: Text, f: FieldV) -> SegV {
    SegV {
        name,
        optional: f.optional || (f.ty is Some && !f.repeated),
        repeated: f.repeated,
        struct_name: f.ty,
    }
}

/// The fields that `segs` name one after the other, from the struct `name`;
/// `None` if one of them does not exist.
pub open spec fn segs_from(structs: StructsV, name: Text, segs: Seq<Text>) -> Option<Seq<SegV>>
    decreases segs.len(),
{
    match lookup::<String, FieldsV>(structs, name) {
        None => None,
        Some(fields) => if segs.len() == 0 {
            None
        } else {
            match lookup::<String, FieldV>(fields, segs[0]) {
                None => None,
                Some(f) => if segs.len() == 1 {
                    Some(seq![seg_of(segs[0], f)])
                } else {
                    match f.ty {
                        None => None,
                        Some(next) => match segs_from(structs, next, segs.drop_first()) {
                            None => None,
                            Some(rest) => Some(seq![seg_of(segs[0], f)] + rest),
                        },
                    }
                },
            }
        },
    }
}

/// The fields of a dotted path.
pub open spec fn path_segs(model: ModelV, start: Text, path: Text) -> Option<Seq<SegV>> {
    segs_from(model.structs, start, split(path, '.'))
}

/// The fields that are found behind those already passed.
spec fn behind(passed: Seq<SegV>, rest: Option<Seq<SegV>>) -> Option<Seq<SegV>> {
    match rest {
        None => None,
        Some(r) => Some(passed + r),
    }
}

/// The fields of a dotted path, if all of them exist.
pub fn walk_segments(source: &SourceModelMeta, start_struct: &str, path: &str) -> (r: Option<
    Vec<SegInfo>,
>)
    ensures
        r.deep_view() == path_segs(source@, start_struct@, path@),
        r matches Some(v) ==> v@.len() > 0,
{
    let segments = split_at_char(path, '.');
    let ghost segs = split(path@, '.');
    let mut name = start_struct.to_string();
    let mut out: Vec<SegInfo> = Vec::new();
    let mut i: usize = 0;
    assert(segs.skip(0) =~= segs);
    assert(out.deep_view() =~= Seq::<SegV>::empty());
    assert(behind(Seq::empty(), path_segs(source@, start_struct@, path@)) == path_segs(
        source@,
        start_struct@,
        path@,
    )) by {
        if let Some(r) = path_segs(source@, start_struct@, path@) {
            assert(Seq::<SegV>::empty() + r =~= r);
        }
    }
    loop
        invariant
            i < segments.len(),
            segments.deep_view() == segs,
            path_segs(source@, start_struct@, path@) == behind(
                out.deep_view(),
                segs_from(source@.structs, name@, segs.skip(i as int)),
            ),
        decreases segments.len() - i,
    {
        assert(segs.skip(i as int)[0] == segments@[i as int]@);
        assert(segs.skip(i as int).drop_first() =~= segs.skip(i + 1));
        let current = match source.structs.get(&name) {
            None => {
                return None;
            },
            Some(s) => s,
        };
        let field = match current.fields.get(&segments[i]) {
            None => {
                return None;
            },
            Some(f) => f,
        };
        let struct_name = match &field.ty {
            FieldType::Struct(n) => Some(n.clone()),
            FieldType::Scalar => None,
        };
        let is_last = i + 1 == segments.len();
        let ghost before = out.deep_view();
        let info = SegInfo {
            name: segments[i].clone(),
            optional: field.optional || (struct_name.is_some() && !field.repeated),
            repeated: field.repeated,
            struct_name: clone_opt(&struct_name),
        };
        out.push(info);
        proof {
            assert(info.deep_view() == seg_of(segments@[i as int]@, field@));
            assert(out.deep_view() =~= before.push(info.deep_view()));
            assert(before + seq![info.deep_view()] =~= out.deep_view());
        }
        if is_last {
            return Some(out);
        }
        match struct_name {
            None => {
                return None;
            },
            Some(next) => {
                proof {
                    if let Some(rest) = segs_from(source@.structs, next@, segs.skip(i + 1)) {
                        assert(before + (seq![info.deep_view()] + rest) =~= out.deep_view() + rest);
                    }
                }
                name = next;
            },
        }
        i += 1;
    }
}

/// Whether a field of a path is held in an `Option`.
pub open spec fn any_optional(segs: Seq<SegV>) -> bool {
    exists|i: int| 0 <= i < segs.len() && (#[trigger] segs[i]).optional
}

/// Whether a field of a path is held in an `Option`.
pub fn has_optional(segs: &Vec<SegInfo>) -> (r: bool)
    ensures
        r == any_optional(segs.deep_view()),
{
    let mut i: usize = 0;
    while i < segs.len()
        invariant
            i <= segs.len(),
            forall|j: int| 0 <= j < i ==> !(#[trigger] segs.deep_view()[j]).optional,
        decreases segs.len() - i,
    {
        if segs[i].optional {
            assert(segs.deep_view()[i as int].optional);
            return true;
        }
        i += 1;
    }
    false
}

/// What stands for a path that does not resolve.
pub open spec fn unresolved_text(path: Text, start: Text) -> Text {
    "compile_error!(\"unresolved source path `"@ + path + "` against `"@ + start
        + "` (codegen bug or unvalidated mapping)\")"@
}

/// What stands for a path that does not resolve.
fn unresolved(path: &str, start_struct: &str) -> (out: String)
    ensures
        out@ == unresolved_text(path@, start_struct@),
{
    let mut out = "compile_error!(\"unresolved source path `".to_string();
    out.push_str(path);
    out.push_str("` against `");
    out.push_str(start_struct);
    out.push_str("` (codegen bug or unvalidated mapping)\")");
    out
}

/// An expression under construction: what is written so far, the receiver of the
/// next field, how many closures are open, and what closes them.
#[verifier::ext_equal]
pub struct ExprV {
    pub expr: Text,
    pub recv: Text,
    pub depth: nat,
    pub closers: Text,
}

/// The variable of the closure at a depth.
pub open spec fn closure_var(depth: nat) -> Text {
    "v"@ + decimal(depth)
}

/// The place of a field behind a receiver.
pub open spec fn place_of(recv: Text, name: Text) -> Text {
    recv + "."@ + name
}

/// The expression that has passed the first `n` fields; each field held in an
/// `Option` is opened by a closure on what `by` borrows.
pub open spec fn opened(base: Text, segs: Seq<SegV>, n: int, by: Text) -> ExprV
    decreases n,
{
    if n <= 0 {
        ExprV { expr: Seq::empty(), recv: base, depth: 0, closers: Seq::empty() }
    } else {
        let e = opened(base, segs, n - 1, by);
        let place = place_of(e.recv, segs[n - 1].name);
        if segs[n - 1].optional {
            ExprV {
                expr: e.expr + place + by + ".and_then(|"@ + closure_var(e.depth) + "| "@,
                recv: closure_var(e.depth),
                depth: e.depth + 1,
                closers: e.closers + ")"@,
            }
        } else {
            ExprV { recv: place, ..e }
        }
    }
}

/// An expression under construction.
struct Opening {
    expr: String,
    recv: String,
    depth: usize,
    closers: String,
}

impl Opening {
    spec fn state(&self) -> ExprV {
        ExprV {
            expr: self.expr@,
            recv: self.recv@,
            depth: self.depth as nat,
            closers: self.closers@,
        }
    }
}

/// The variable of the closure at a depth.
fn variable(depth: usize) -> (out: String)
    ensures
        out@ == closure_var(depth as nat),
{
    let mut out = "v".to_string();
    out.push_str(decimal_of(depth as u64).as_str());
    out
}

/// The place of a field behind a receiver.
fn place(recv: &str, name: &str) -> (out: String)
    ensures
        out@ == place_of(recv@, name@),
{
    let mut out = recv.to_string();
    out.push_str(".");
    out.push_str(name);
    out
}

/// The expression that has passed every field of a path but the last.
fn open_path(base: &str, segs: &Vec<SegInfo>, by: &str) -> (e: Opening)
    requires
        segs@.len() > 0,
    ensures
        e.state() == opened(base@, segs.deep_view(), segs@.len() - 1, by@),
{
    let ghost views = segs.deep_view();
    let mut e = Opening {
        expr: String::new(),
        recv: base.to_string(),
        depth: 0,
        closers: String::new(),
    };
    let mut i: usize = 0;
    while i < segs.len() - 1
        invariant
            i < segs.len(),
            views == segs.deep_view(),
            e.depth <= i,
            e.state() == opened(base@, views, i as int, by@),
        decreases segs.len() - i,
    {
        let p = place(e.recv.as_str(), segs[i].name.as_str());
        assert(views[i as int] == segs@[i as int].deep_view());
        if segs[i].optional {
            let var = variable(e.depth);
            e.expr.push_str(p.as_str());
            e.expr.push_str(by);
            e.expr.push_str(".and_then(|");
            e.expr.push_str(var.as_str());
            e.expr.push_str("| ");
            e.recv = var;
            e.closers.push_str(")");
            e.depth += 1;
        } else {
            e.recv = p;
        }
        i += 1;
    }
    e
}

/// The expression that borrows the text of a field as an optional slice.
pub open spec fn access_text(base: Text, path: Text, segs: Seq<SegV>) -> Text {
    if !any_optional(segs) {
        "Some("@ + base + "."@ + path + ".as_str())"@
    } else {
        let e = opened(base, segs, segs.len() - 1, ".as_ref()"@);
        let place = place_of(e.recv, segs.last().name);
        if segs.last().optional {
            e.expr + place + ".as_ref().and_then(|"@ + closure_var(e.depth) + "| Some("@
                + closure_var(e.depth) + ".as_str()))"@ + e.closers
        } else {
            e.expr + "Some("@ + place + ".as_str())"@ + e.closers
        }
    }
}

/// The expression that borrows the text of a field as an optional slice.
fn build_access(base: &str, full_path: &str, segs: &Vec<SegInfo>) -> (out: String)
    requires
        segs@.len() > 0,
    ensures
        out@ == access_text(base@, full_path@, segs.deep_view()),
{
    if !has_optional(segs) {
        let mut out = "Some(".to_string();
        out.push_str(base);
        out.push_str(".");
        out.push_str(full_path);
        out.push_str(".as_str())");
        return out;
    }
    let e = open_path(base, segs, ".as_ref()");
    let last = &segs[segs.len() - 1];
    assert(segs.deep_view().last() == last.deep_view());
    let p = place(e.recv.as_str(), last.name.as_str());
    let mut out = e.expr;
    if last.optional {
        let var = variable(e.depth);
        out.push_str(p.as_str());
        out.push_str(".as_ref().and_then(|");
        out.push_str(var.as_str());
        out.push_str("| Some(");
        out.push_str(var.as_str());
        out.push_str(".as_str()))");
    } else {
        out.push_str("Some(");
        out.push_str(p.as_str());
        out.push_str(".as_str())");
    }
    out.push_str(e.closers.as_str());
    out
}

/// The expression that moves a field out of its place as an optional value.
pub open spec fn take_text(base: Text, path: Text, segs: Seq<SegV>) -> Text {
    if !any_optional(segs) {
        "Some(std::mem::take(&mut "@ + base + "."@ + path + "))"@
    } else {
        let e = opened(base, segs, segs.len() - 1, ".as_mut()"@);
        let place = place_of(e.recv, segs.last().name);
        if segs.last().optional {
            e.expr + place + ".take()"@ + e.closers
        } else {
            e.expr + "Some(std::mem::take(&mut "@ + place + "))"@ + e.closers
        }
    }
}

/// The expression that moves a field out of its place as an optional value.
fn build_take(base: &str, full_path: &str, segs: &Vec<SegInfo>) -> (out: String)
    requires
        segs@.len() > 0,
    ensures
        out@ == take_text(base@, full_path@, segs.deep_view()),
{
    if !has_optional(segs) {
        let mut out = "Some(std::mem::take(&mut ".to_string();
        out.push_str(base);
        out.push_str(".");
        out.push_str(full_path);
        out.push_str("))");
        return out;
    }
    let e = open_path(base, segs, ".as_mut()");
    let last = &segs[segs.len() - 1];
    assert(segs.deep_view().last() == last.deep_view());
    let p = place(e.recv.as_str(), last.name.as_str());
    let mut out = e.expr;
    if last.optional {
        out.push_str(p.as_str());
        out.push_str(".take()");
    } else {
        out.push_str("Some(std::mem::take(&mut ");
        out.push_str(p.as_str());
        out.push_str("))");
    }
    out.push_str(e.closers.as_str());
    out
}

/// The expression that borrows the text at a path.
pub open spec fn access_of(model: ModelV, start: Text, path: Text, base: Text) -> Text {
    match path_segs(model, start, path) {
        Some(segs) => access_text(base, path, segs),
        None => unresolved_text(path, start),
    }
}

/// The expression that borrows the text at a path.
pub fn access_expr(source: &SourceModelMeta, start_struct: &str, path: &str, base_var: &str) -> (out:
    String)
    ensures
        out@ == access_of(source@, start_struct@, path@, base_var@),
{
    match walk_segments(source, start_struct, path) {
        Some(segs) => build_access(base_var, path, &segs),
        None => unresolved(path, start_struct),
    }
}

/// The expression that moves the text at a path.
pub open spec fn take_of(model: ModelV, start: Text, path: Text, base: Text) -> Text {
    match path_segs(model, start, path) {
        Some(segs) => take_text(base, path, segs),
        None => unresolved_text(path, start),
    }
}

/// The expression that moves the text at a path.
pub fn take_expr(source: &SourceModelMeta, start_struct: &str, path: &str, base_var: &str) -> (out:
    String)
    ensures
        out@ == take_of(source@, start_struct@, path@, base_var@),
{
    match walk_segments(source, start_struct, path) {
        Some(segs) => build_take(base_var, path, &segs),
        None => unresolved(path, start_struct),
    }
}

/// The expression that moves the list at a path.
pub open spec fn list_take_of(model: ModelV, start: Text, path: Text, base: Text) -> Text {
    match path_segs(model, start, path) {
        Some(segs) => if any_optional(segs) {
            take_text(base, path, segs) + ".unwrap_or_default()"@
        } else {
            "std::mem::take(&mut "@ + base + "."@ + path + ")"@
        },
        None => unresolved_text(path, start),
    }
}

/// The expression that moves the list at a path.
pub fn collection_take_expr(
    source: &SourceModelMeta,
    start_struct: &str,
    path: &str,
    base_var: &str,
) -> (out: String)
    ensures
        out@ == list_take_of(source@, start_struct@, path@, base_var@),
{
    match walk_segments(source, start_struct, path) {
        Some(segs) => {
            if has_optional(&segs) {
                let mut out = build_take(base_var, path, &segs);
                out.push_str(".unwrap_or_default()");
                out
            } else {
                let mut out = "std::mem::take(&mut ".to_string();
                out.push_str(base_var);
                out.push_str(".");
                out.push_str(path);
                out.push_str(")");
                out
            }
        },
        None => unresolved(path, start_struct),
    }
}

/// The expression that borrows the list at a path as a slice.
pub open spec fn list_slice_of(model: ModelV, start: Text, path: Text, base: Text) -> Text {
    match path_segs(model, start, path) {
        Some(segs) => if any_optional(segs) {
            let e = opened(base, segs, segs.len() - 1, ".as_ref()"@);
            e.expr + "Some("@ + place_of(e.recv, segs.last().name) + ".as_slice())"@ + e.closers
                + ".unwrap_or(&[])"@
        } else {
            base + "."@ + path + ".as_slice()"@
        },
        None => unresolved_text(path, start),
    }
}

/// The expression that borrows the list at a path as a slice.
pub fn collection_slice_expr(
    source: &SourceModelMeta,
    start_struct: &str,
    path: &str,
    base_var: &str,
) -> (out: String)
    ensures
        out@ == list_slice_of(source@, start_struct@, path@, base_var@),
{
    let segs = match walk_segments(source, start_struct, path) {
        Some(s) => s,
        None => {
            return unresolved(path, start_struct);
        },
    };
    if !has_optional(&segs) {
        let mut out = base_var.to_string();
        out.push_str(".");
        out.push_str(path);
        out.push_str(".as_slice()");
        return out;
    }
    let e = open_path(base_var, &segs, ".as_ref()");
    let last = &segs[segs.len() - 1];
    assert(segs.deep_view().last() == last.deep_view());
    let mut out = e.expr;
    out.push_str("Some(");
    out.push_str(place(e.recv.as_str(), last.name.as_str()).as_str());
    out.push_str(".as_slice())");
    out.push_str(e.closers.as_str());
    out.push_str(".unwrap_or(&[])");
    out
}

/// The place that the first `n` of `total` fields lead to, with every absent
/// struct on the way filled in.
pub open spec fn filled(base: Text, segs: Seq<SegV>, n: int) -> Text
    decreases n,
{
    if n <= 0 {
        base
    } else {
        let p = filled(base, segs, n - 1) + "."@ + segs[n - 1].name;
        if n < segs.len() && segs[n - 1].optional {
            p + ".get_or_insert_default()"@
        } else {
            p
        }
    }
}

/// The place at a path that a value is assigned to.
pub open spec fn target_of(model: ModelV, start: Text, path: Text, base: Text) -> Text {
    match path_segs(model, start, path) {
        Some(segs) => filled(base, segs, segs.len() as int),
        None => unresolved_text(path, start),
    }
}

/// The place at a path that a value is assigned to.
pub fn assign_target_expr(
    source: &SourceModelMeta,
    start_struct: &str,
    path: &str,
    base_var: &str,
) -> (out: String)
    ensures
        out@ == target_of(source@, start_struct@, path@, base_var@),
{
    let segs = match walk_segments(source, start_struct, path) {
        Some(s) => s,
        None => {
            return unresolved(path, start_struct);
        },
    };
    let ghost views = segs.deep_view();
    let mut out = base_var.to_string();
    let mut i: usize = 0;
    while i < segs.len()
        invariant
            i <= segs.len(),
            views == segs.deep_view(),
            out@ == filled(base_var@, views, i as int),
        decreases segs.len() - i,
    {
        assert(views[i as int] == segs@[i as int].deep_view());
        out.push_str(".");
        out.push_str(segs[i].name.as_str());
        if i + 1 < segs.len() && segs[i].optional {
            out.push_str(".get_or_insert_default()");
        }
        i += 1;
    }
    out
}

/// The call of a normalization step on an optional value.
pub open spec fn step_call(op: NormalizeOp) -> Text {
    match op {
        NormalizeOp::Trim => ".map(normalize::trim)"@,
        NormalizeOp::Uppercase => ".map(normalize::uppercase)"@,
        NormalizeOp::Lowercase => ".map(normalize::lowercase)"@,
        NormalizeOp::EmptyAsMissing => ".and_then(normalize::empty_as_missing)"@,
    }
}

/// An expression with the first `n` normalization steps applied; a borrowed text
/// is copied first.
pub open spec fn normalized(access: Text, ops: Seq<NormalizeOp>, owned: bool, n: int) -> Text
    decreases n,
{
    if n <= 0 {
        if owned {
            access
        } else {
            access + ".map(CompactString::from)"@
        }
    } else {
        normalized(access, ops, owned, n - 1) + step_call(ops[n - 1])
    }
}

/// An expression with normalization steps applied.
pub fn normalize_chain(access: &str, ops: &Vec<NormalizeOp>, owned: bool) -> (out: String)
    ensures
        out@ == normalized(access@, ops.deep_view(), owned, ops@.len() as int),
{
    let ghost steps = ops.deep_view();
    let mut out = access.to_string();
    if !owned {
        out.push_str(".map(CompactString::from)");
    }
    let mut i: usize = 0;
    while i < ops.len()
        invariant
            i <= ops.len(),
            steps == ops.deep_view(),
            out@ == normalized(access@, steps, owned, i as int),
        decreases ops.len() - i,
    {
        assert(steps[i as int] == ops@[i as int]);
        match ops[i] {
            NormalizeOp::Trim => out.push_str(".map(normalize::trim)"),
            NormalizeOp::Uppercase => out.push_str(".map(normalize::uppercase)"),
            NormalizeOp::Lowercase => out.push_str(".map(normalize::lowercase)"),
            NormalizeOp::EmptyAsMissing => out.push_str(
                ".and_then(normalize::empty_as_missing)",
            ),
        }
        i += 1;
    }
    out
}

/// The struct of the items of the list at a path; the root if there is none.
pub open spec fn item_struct_at(model: ModelV, start: Text, path: Text) -> Text {
    match path_segs(model, start, path) {
        Some(segs) => match segs.last().struct_name {
            Some(name) => name,
            None => model.root,
        },
        None => model.root,
    }
}

/// The struct of the items of the list at a path.
pub fn collection_item_struct(source: &SourceModelMeta, start_struct: &str, path: &str) -> (out:
    String)
    ensures
        out@ == item_struct_at(source@, start_struct@, path@),
{
    match walk_segments(source, start_struct, path) {
        Some(segs) => {
            assert(segs.deep_view().last() == segs@.last().deep_view());
            match &segs[segs.len() - 1].struct_name {
                Some(name) => name.clone(),
                None => source.root.clone(),
            }
        },
        None => source.root.clone(),
    }
}

} // verus!
