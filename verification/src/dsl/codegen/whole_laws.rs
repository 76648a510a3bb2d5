//! What whole mappers are made of: the code of each of their nodes, once and in order.
use vstd::prelude::*;

use crate::dsl::codegen::access::item_struct_at;
use crate::dsl::codegen::append::{
    lemma_clone_code, lemma_collection_code, lemma_collection_write_code, lemma_constant_code,
    lemma_scalar_code, lemma_scalar_write_code,
};
use crate::dsl::codegen::plan::{picked, FrameV, Role};
use crate::dsl::codegen::read::{
    clone_code, clones_code, closing_code, collection_code, inner_frame, inner_target, nested_code,
    opening_code, read_paths, reader_code, reader_head, root_collections_code, root_frame,
    root_target, scalar_code, scalars_code, TargetV,
};
use crate::dsl::codegen::sharing::repeats;
use crate::dsl::codegen::write::{
    collection_write_code, constant_code, constants_code, hub_key_of, inner_place,
    inner_write_frame, nested_write_code, root_collections_write_code, root_place,
    scalar_write_code, scalars_write_code, write_closing, write_keys, write_opening, write_test,
    writer_code, writer_head, PlaceV,
};
use crate::dsl::ir::{scopes_ascend, IrNodesV};
use crate::dsl::node::NodeV;
use crate::dsl::source_model::meta::ModelV;
use crate::text::Text;

verus! {

/// Texts one behind the other.
pub open spec fn cat(parts: Seq<Text>) -> Text
    decreases parts.len(),
{
    if parts.len() == 0 {
        Seq::empty()
    } else {
        parts[0] + cat(parts.drop_first())
    }
}

pub proof fn lemma_cat_push(parts: Seq<Text>, x: Text)
    ensures
        cat(parts.push(x)) == cat(parts) + x,
    decreases parts.len(),
{
    if parts.len() == 0 {
        assert(parts.push(x).drop_first() =~= Seq::<Text>::empty());
        assert(cat(Seq::<Text>::empty()) =~= Seq::<char>::empty());
        assert(parts.push(x)[0] == x);
        assert(cat(parts.push(x)) == x + cat(Seq::<Text>::empty()));
        assert(cat(parts.push(x)) =~= x);
        assert(cat(parts) + x =~= x);
    } else {
        lemma_cat_push(parts.drop_first(), x);
        assert(parts.push(x).drop_first() =~= parts.drop_first().push(x));
        assert(parts[0] + (cat(parts.drop_first()) + x) =~= (parts[0] + cat(parts.drop_first()))
            + x);
    }
}

proof fn lemma_behind(t: Text, head: Text, x: Text)
    ensures
        (t + head) + x == t + (head + x),
{
    assert((t + head) + x =~= t + (head + x));
}


// ---------------------------------------------------------------------------
// Readers
// ---------------------------------------------------------------------------

/// The code of each scalar of a list, each behind an empty line.
pub open spec fn scalar_blocks(
    nodes: IrNodesV,
    model: ModelV,
    start: Text,
    pad: Text,
    target: TargetV,
    shared: Seq<Text>,
    list: Seq<NodeV>,
) -> Seq<Text> {
    list.map_values(
        |n: NodeV|
            "\n"@ + scalar_code(Seq::empty(), nodes, model, n, start, pad, target, shared),
    )
}

/// The code of each copy of a list, each behind an empty line.
pub open spec fn copy_blocks(
    model: ModelV,
    start: Text,
    pad: Text,
    target: TargetV,
    shared: Seq<Text>,
    list: Seq<NodeV>,
) -> Seq<Text> {
    list.map_values(
        |n: NodeV| "\n"@ + clone_code(Seq::empty(), model, n, start, pad, target, shared),
    )
}

/// The code of each collection of a list, each behind an empty line.
pub open spec fn collection_blocks(
    nodes: IrNodesV,
    model: ModelV,
    f: FrameV,
    shared: Seq<Text>,
    list: Seq<NodeV>,
) -> Seq<Text> {
    list.map_values(
        |n: NodeV| "\n"@ + collection_code(Seq::empty(), nodes, model, n, f, shared),
    )
}

proof fn lemma_scalars(
    t: Text,
    nodes: IrNodesV,
    model: ModelV,
    start: Text,
    pad: Text,
    target: TargetV,
    shared: Seq<Text>,
    list: Seq<NodeV>,
    n: int,
)
    requires
        0 <= n <= list.len(),
    ensures
        scalars_code(t, nodes, model, start, pad, target, shared, list, n) == t + cat(
            scalar_blocks(nodes, model, start, pad, target, shared, list.take(n)),
        ),
    decreases n,
{
    let none = Seq::<char>::empty();
    if n == 0 {
        assert(scalar_blocks(nodes, model, start, pad, target, shared, list.take(0)) =~= Seq::<
            Text,
        >::empty());
        assert(t + cat(Seq::<Text>::empty()) =~= t);
    } else {
        lemma_scalars(t, nodes, model, start, pad, target, shared, list, n - 1);
        let before = scalar_blocks(nodes, model, start, pad, target, shared, list.take(n - 1));
        let x = "\n"@ + scalar_code(none, nodes, model, list[n - 1], start, pad, target, shared);
        assert(scalar_blocks(nodes, model, start, pad, target, shared, list.take(n))
            =~= before.push(x));
        lemma_cat_push(before, x);
        let u = t + cat(before);
        lemma_scalar_code(u + "\n"@, none, nodes, model, list[n - 1], start, pad, target, shared);
        assert((u + "\n"@) + none =~= u + "\n"@);
        let y = scalar_code(none, nodes, model, list[n - 1], start, pad, target, shared);
        lemma_behind(u, "\n"@, y);
        lemma_behind(t, cat(before), x);
    }
}

proof fn lemma_copies(
    t: Text,
    model: ModelV,
    start: Text,
    pad: Text,
    target: TargetV,
    shared: Seq<Text>,
    list: Seq<NodeV>,
    n: int,
)
    requires
        0 <= n <= list.len(),
    ensures
        clones_code(t, model, start, pad, target, shared, list, n) == t + cat(
            copy_blocks(model, start, pad, target, shared, list.take(n)),
        ),
    decreases n,
{
    let none = Seq::<char>::empty();
    if n == 0 {
        assert(copy_blocks(model, start, pad, target, shared, list.take(0)) =~= Seq::<
            Text,
        >::empty());
        assert(t + cat(Seq::<Text>::empty()) =~= t);
    } else {
        lemma_copies(t, model, start, pad, target, shared, list, n - 1);
        let before = copy_blocks(model, start, pad, target, shared, list.take(n - 1));
        let y = clone_code(none, model, list[n - 1], start, pad, target, shared);
        let x = "\n"@ + y;
        assert(copy_blocks(model, start, pad, target, shared, list.take(n)) =~= before.push(x));
        lemma_cat_push(before, x);
        let u = t + cat(before);
        lemma_clone_code(u + "\n"@, none, model, list[n - 1], start, pad, target, shared);
        assert((u + "\n"@) + none =~= u + "\n"@);
        lemma_behind(u, "\n"@, y);
        lemma_behind(t, cat(before), x);
    }
}

proof fn lemma_nested(
    t: Text,
    nodes: IrNodesV,
    model: ModelV,
    outer: Text,
    f: FrameV,
    shared: Seq<Text>,
    n: int,
)
    requires
        scopes_ascend(nodes),
        0 <= n <= picked(nodes, Role::Collection, Some(outer)).len(),
    ensures
        nested_code(t, nodes, model, outer, f, shared, n) == t + cat(
            collection_blocks(
                nodes,
                model,
                f,
                shared,
                picked(nodes, Role::Collection, Some(outer)).take(n),
            ),
        ),
    decreases n,
{
    let none = Seq::<char>::empty();
    let list = picked(nodes, Role::Collection, Some(outer));
    if n == 0 {
        assert(collection_blocks(nodes, model, f, shared, list.take(0)) =~= Seq::<Text>::empty());
        assert(t + cat(Seq::<Text>::empty()) =~= t);
    } else {
        lemma_nested(t, nodes, model, outer, f, shared, n - 1);
        let before = collection_blocks(nodes, model, f, shared, list.take(n - 1));
        let y = collection_code(none, nodes, model, list[n - 1], f, shared);
        let x = "\n"@ + y;
        assert(collection_blocks(nodes, model, f, shared, list.take(n)) =~= before.push(x));
        lemma_cat_push(before, x);
        let u = t + cat(before);
        lemma_collection_code(u + "\n"@, none, nodes, model, list[n - 1], f, shared);
        assert((u + "\n"@) + none =~= u + "\n"@);
        lemma_behind(u, "\n"@, y);
        lemma_behind(t, cat(before), x);
    }
}

proof fn lemma_root_collections(
    t: Text,
    nodes: IrNodesV,
    model: ModelV,
    shared: Seq<Text>,
    n: int,
)
    requires
        scopes_ascend(nodes),
        0 <= n <= picked(nodes, Role::Collection, None).len(),
    ensures
        root_collections_code(t, nodes, model, shared, n) == t + cat(
            collection_blocks(
                nodes,
                model,
                root_frame(model),
                shared,
                picked(nodes, Role::Collection, None).take(n),
            ),
        ),
    decreases n,
{
    let none = Seq::<char>::empty();
    let list = picked(nodes, Role::Collection, None);
    let f = root_frame(model);
    if n == 0 {
        assert(collection_blocks(nodes, model, f, shared, list.take(0)) =~= Seq::<Text>::empty());
        assert(t + cat(Seq::<Text>::empty()) =~= t);
    } else {
        lemma_root_collections(t, nodes, model, shared, n - 1);
        let before = collection_blocks(nodes, model, f, shared, list.take(n - 1));
        let y = collection_code(none, nodes, model, list[n - 1], f, shared);
        let x = "\n"@ + y;
        assert(collection_blocks(nodes, model, f, shared, list.take(n)) =~= before.push(x));
        lemma_cat_push(before, x);
        let u = t + cat(before);
        lemma_collection_code(u + "\n"@, none, nodes, model, list[n - 1], f, shared);
        assert((u + "\n"@) + none =~= u + "\n"@);
        lemma_behind(u, "\n"@, y);
        lemma_behind(t, cat(before), x);
    }
}

/// A reader is, behind its head, the code of every scalar at the root, of every copy and
/// of every collection, each once and in the order of the nodes; and then it returns the
/// hub with the diagnostics.
pub proof fn law_reader_reads_every_node_once(
    t: Text,
    nodes: IrNodesV,
    model: ModelV,
    root: Text,
)
    requires
        scopes_ascend(nodes),
    ensures
        ({
            let shared = read_paths(nodes, None);
            reader_code(t, nodes, model, root) == reader_head(t, root) + cat(
                scalar_blocks(
                    nodes,
                    model,
                    model.root,
                    "    "@,
                    root_target(),
                    shared,
                    picked(nodes, Role::Scalar, None),
                ),
            ) + cat(
                copy_blocks(
                    model,
                    model.root,
                    "    "@,
                    root_target(),
                    shared,
                    picked(nodes, Role::Clone, None),
                ),
            ) + cat(
                collection_blocks(
                    nodes,
                    model,
                    root_frame(model),
                    shared,
                    picked(nodes, Role::Collection, None),
                ),
            ) + "\n"@ + "    MappingResult::new(Some(main), diagnostics)\n"@ + "}\n"@
        }),
{
    let shared = read_paths(nodes, None);
    let a = picked(nodes, Role::Scalar, None);
    let b = picked(nodes, Role::Clone, None);
    let c = picked(nodes, Role::Collection, None);
    assert(a.take(a.len() as int) =~= a);
    assert(b.take(b.len() as int) =~= b);
    assert(c.take(c.len() as int) =~= c);
    let t1 = reader_head(t, root);
    let (pad, target) = ("    "@, root_target());
    lemma_scalars(t1, nodes, model, model.root, pad, target, shared, a, a.len() as int);
    let t2 = scalars_code(t1, nodes, model, model.root, pad, target, shared, a, a.len() as int);
    lemma_copies(t2, model, model.root, pad, target, shared, b, b.len() as int);
    let t3 = clones_code(t2, model, model.root, pad, target, shared, b, b.len() as int);
    lemma_root_collections(t3, nodes, model, shared, c.len() as int);
}

/// The code that reads a collection is, behind the head of its loop, the code of every
/// scalar inside it, of every copy and of every collection, each once and in order.
pub proof fn law_collection_reader_reads_every_node_once(
    t: Text,
    nodes: IrNodesV,
    model: ModelV,
    coll: NodeV,
    f: FrameV,
    shared: Seq<Text>,
)
    requires
        scopes_ascend(nodes),
    ensures
        ({
            let owned = f.owned && !repeats(shared, coll.source_path);
            let item_struct = item_struct_at(model, f.parent_struct, coll.source_path);
            let inside = Some(coll.id);
            let inner = read_paths(nodes, inside);
            let pad = f.pad + "    "@;
            let target = inner_target(f, owned);
            collection_code(t, nodes, model, coll, f, shared) == closing_code(
                opening_code(t, model, coll, f, owned) + cat(
                    scalar_blocks(
                        nodes,
                        model,
                        item_struct,
                        pad,
                        target,
                        inner,
                        picked(nodes, Role::Scalar, inside),
                    ),
                ) + cat(
                    copy_blocks(
                        model,
                        item_struct,
                        pad,
                        target,
                        inner,
                        picked(nodes, Role::Clone, inside),
                    ),
                ) + cat(
                    collection_blocks(
                        nodes,
                        model,
                        inner_frame(f, item_struct, owned),
                        inner,
                        picked(nodes, Role::Collection, inside),
                    ),
                ),
                coll,
                f,
            )
        }),
{
    let owned = f.owned && !repeats(shared, coll.source_path);
    let item_struct = item_struct_at(model, f.parent_struct, coll.source_path);
    let inside = Some(coll.id);
    let inner = read_paths(nodes, inside);
    let pad = f.pad + "    "@;
    let target = inner_target(f, owned);
    let a = picked(nodes, Role::Scalar, inside);
    let b = picked(nodes, Role::Clone, inside);
    let c = picked(nodes, Role::Collection, inside);
    assert(a.take(a.len() as int) =~= a);
    assert(b.take(b.len() as int) =~= b);
    assert(c.take(c.len() as int) =~= c);
    let t1 = opening_code(t, model, coll, f, owned);
    lemma_scalars(t1, nodes, model, item_struct, pad, target, inner, a, a.len() as int);
    let t2 = scalars_code(t1, nodes, model, item_struct, pad, target, inner, a, a.len() as int);
    lemma_copies(t2, model, item_struct, pad, target, inner, b, b.len() as int);
    let t3 = clones_code(t2, model, item_struct, pad, target, inner, b, b.len() as int);
    let g = inner_frame(f, item_struct, owned);
    lemma_nested(t3, nodes, model, coll.id, g, inner, c.len() as int);
}

// ---------------------------------------------------------------------------
// Writers
// ---------------------------------------------------------------------------

/// The code of each of a list of nodes that is written from the hub; constants are left
/// out where `skip` says so.
pub open spec fn written_blocks(
    model: ModelV,
    p: PlaceV,
    shared: Seq<Text>,
    skip: bool,
    list: Seq<NodeV>,
) -> Seq<Text> {
    list.map_values(
        |n: NodeV|
            if skip && n.constant is Some {
                Seq::<char>::empty()
            } else {
                (if p.spaced {
                    "\n"@
                } else {
                    Seq::<char>::empty()
                }) + scalar_write_code(
                    Seq::empty(),
                    model,
                    n,
                    p.start,
                    p.hub_var,
                    p.src_var,
                    p.index,
                    p.pad,
                    p.owned && !repeats(shared, hub_key_of(n)),
                )
            },
    )
}

/// The code of each constant of a list.
pub open spec fn constant_blocks(
    model: ModelV,
    start: Text,
    src_var: Text,
    pad: Text,
    spaced: bool,
    list: Seq<NodeV>,
) -> Seq<Text> {
    list.map_values(
        |n: NodeV|
            (if spaced {
                "\n"@
            } else {
                Seq::<char>::empty()
            }) + constant_code(Seq::empty(), model, n, start, src_var, pad),
    )
}

/// The code of each collection of a list.
pub open spec fn written_collections(
    nodes: IrNodesV,
    model: ModelV,
    f: FrameV,
    shared: Seq<Text>,
    spaced: bool,
    list: Seq<NodeV>,
) -> Seq<Text> {
    list.map_values(
        |n: NodeV|
            (if spaced {
                "\n"@
            } else {
                Seq::<char>::empty()
            }) + collection_write_code(Seq::empty(), nodes, model, n, f, shared),
    )
}

proof fn lemma_written(
    t: Text,
    model: ModelV,
    p: PlaceV,
    shared: Seq<Text>,
    skip: bool,
    list: Seq<NodeV>,
    n: int,
)
    requires
        0 <= n <= list.len(),
    ensures
        scalars_write_code(t, model, p, shared, skip, list, n) == t + cat(
            written_blocks(model, p, shared, skip, list.take(n)),
        ),
    decreases n,
{
    let none = Seq::<char>::empty();
    if n == 0 {
        assert(written_blocks(model, p, shared, skip, list.take(0)) =~= Seq::<Text>::empty());
        assert(t + cat(Seq::<Text>::empty()) =~= t);
    } else {
        lemma_written(t, model, p, shared, skip, list, n - 1);
        let before = written_blocks(model, p, shared, skip, list.take(n - 1));
        let node = list[n - 1];
        let gap = if p.spaced {
            "\n"@
        } else {
            none
        };
        let take = p.owned && !repeats(shared, hub_key_of(node));
        let y = scalar_write_code(
            none,
            model,
            node,
            p.start,
            p.hub_var,
            p.src_var,
            p.index,
            p.pad,
            take,
        );
        let x = if skip && node.constant is Some {
            none
        } else {
            gap + y
        };
        assert(written_blocks(model, p, shared, skip, list.take(n)) =~= before.push(x));
        lemma_cat_push(before, x);
        let u = t + cat(before);
        lemma_scalar_write_code(
            u + gap,
            none,
            model,
            node,
            p.start,
            p.hub_var,
            p.src_var,
            p.index,
            p.pad,
            take,
        );
        assert((u + gap) + none =~= u + gap);
        assert(u + none =~= u);
        lemma_behind(u, gap, y);
        lemma_behind(t, cat(before), x);
    }
}

proof fn lemma_constants(
    t: Text,
    model: ModelV,
    start: Text,
    src_var: Text,
    pad: Text,
    spaced: bool,
    list: Seq<NodeV>,
    n: int,
)
    requires
        0 <= n <= list.len(),
    ensures
        constants_code(t, model, start, src_var, pad, spaced, list, n) == t + cat(
            constant_blocks(model, start, src_var, pad, spaced, list.take(n)),
        ),
    decreases n,
{
    let none = Seq::<char>::empty();
    if n == 0 {
        assert(constant_blocks(model, start, src_var, pad, spaced, list.take(0)) =~= Seq::<
            Text,
        >::empty());
        assert(t + cat(Seq::<Text>::empty()) =~= t);
    } else {
        lemma_constants(t, model, start, src_var, pad, spaced, list, n - 1);
        let before = constant_blocks(model, start, src_var, pad, spaced, list.take(n - 1));
        let gap = if spaced {
            "\n"@
        } else {
            none
        };
        let y = constant_code(none, model, list[n - 1], start, src_var, pad);
        let x = gap + y;
        assert(constant_blocks(model, start, src_var, pad, spaced, list.take(n)) =~= before.push(
            x,
        ));
        lemma_cat_push(before, x);
        let u = t + cat(before);
        lemma_constant_code(u + gap, none, model, list[n - 1], start, src_var, pad);
        assert((u + gap) + none =~= u + gap);
        assert(u + none =~= u);
        lemma_behind(u, gap, y);
        lemma_behind(t, cat(before), x);
    }
}

proof fn lemma_nested_written(
    t: Text,
    nodes: IrNodesV,
    model: ModelV,
    outer: Text,
    f: FrameV,
    shared: Seq<Text>,
    n: int,
)
    requires
        scopes_ascend(nodes),
        0 <= n <= picked(nodes, Role::Collection, Some(outer)).len(),
    ensures
        nested_write_code(t, nodes, model, outer, f, shared, n) == t + cat(
            written_collections(
                nodes,
                model,
                f,
                shared,
                false,
                picked(nodes, Role::Collection, Some(outer)).take(n),
            ),
        ),
    decreases n,
{
    let none = Seq::<char>::empty();
    let list = picked(nodes, Role::Collection, Some(outer));
    if n == 0 {
        assert(written_collections(nodes, model, f, shared, false, list.take(0)) =~= Seq::<
            Text,
        >::empty());
        assert(t + cat(Seq::<Text>::empty()) =~= t);
    } else {
        lemma_nested_written(t, nodes, model, outer, f, shared, n - 1);
        let before = written_collections(nodes, model, f, shared, false, list.take(n - 1));
        let y = collection_write_code(none, nodes, model, list[n - 1], f, shared);
        let x = none + y;
        assert(written_collections(nodes, model, f, shared, false, list.take(n)) =~= before.push(
            x,
        ));
        lemma_cat_push(before, x);
        let u = t + cat(before);
        lemma_collection_write_code(u, none, nodes, model, list[n - 1], f, shared);
        assert(u + none =~= u);
        lemma_behind(u, none, y);
        lemma_behind(t, cat(before), x);
    }
}

proof fn lemma_root_written(
    t: Text,
    nodes: IrNodesV,
    model: ModelV,
    shared: Seq<Text>,
    n: int,
)
    requires
        scopes_ascend(nodes),
        0 <= n <= picked(nodes, Role::Collection, None).len(),
    ensures
        root_collections_write_code(t, nodes, model, shared, n) == t + cat(
            written_collections(
                nodes,
                model,
                root_frame(model),
                shared,
                true,
                picked(nodes, Role::Collection, None).take(n),
            ),
        ),
    decreases n,
{
    let none = Seq::<char>::empty();
    let list = picked(nodes, Role::Collection, None);
    let f = root_frame(model);
    if n == 0 {
        assert(written_collections(nodes, model, f, shared, true, list.take(0)) =~= Seq::<
            Text,
        >::empty());
        assert(t + cat(Seq::<Text>::empty()) =~= t);
    } else {
        lemma_root_written(t, nodes, model, shared, n - 1);
        let before = written_collections(nodes, model, f, shared, true, list.take(n - 1));
        let y = collection_write_code(none, nodes, model, list[n - 1], f, shared);
        let x = "\n"@ + y;
        assert(written_collections(nodes, model, f, shared, true, list.take(n)) =~= before.push(
            x,
        ));
        lemma_cat_push(before, x);
        let u = t + cat(before);
        lemma_collection_write_code(u + "\n"@, none, nodes, model, list[n - 1], f, shared);
        assert((u + "\n"@) + none =~= u + "\n"@);
        lemma_behind(u, "\n"@, y);
        lemma_behind(t, cat(before), x);
    }
}

/// A writer is, behind its head, the code of every constant at the root, of every value
/// of the hub that is no constant, of every copy and of every collection, each once and
/// in the order of the nodes; and then it returns the document with the diagnostics.
pub proof fn law_writer_writes_every_node_once(
    t: Text,
    nodes: IrNodesV,
    model: ModelV,
    root: Text,
)
    requires
        scopes_ascend(nodes),
    ensures
        ({
            let shared = write_keys(nodes, None);
            let p = root_place(model);
            writer_code(t, nodes, model, root) == writer_head(t, root) + cat(
                constant_blocks(
                    model,
                    model.root,
                    "source"@,
                    "    "@,
                    true,
                    picked(nodes, Role::Constant, None),
                ),
            ) + cat(
                written_blocks(model, p, shared, true, picked(nodes, Role::Scalar, None)),
            ) + cat(
                written_blocks(model, p, shared, false, picked(nodes, Role::Clone, None)),
            ) + cat(
                written_collections(
                    nodes,
                    model,
                    root_frame(model),
                    shared,
                    true,
                    picked(nodes, Role::Collection, None),
                ),
            ) + "\n"@ + "    MappingResult::new(Some(source), diagnostics)\n"@ + "}\n"@
        }),
{
    let shared = write_keys(nodes, None);
    let p = root_place(model);
    let k = picked(nodes, Role::Constant, None);
    let a = picked(nodes, Role::Scalar, None);
    let b = picked(nodes, Role::Clone, None);
    let c = picked(nodes, Role::Collection, None);
    assert(k.take(k.len() as int) =~= k);
    assert(a.take(a.len() as int) =~= a);
    assert(b.take(b.len() as int) =~= b);
    assert(c.take(c.len() as int) =~= c);
    let t1 = writer_head(t, root);
    lemma_constants(t1, model, model.root, "source"@, "    "@, true, k, k.len() as int);
    let t2 = constants_code(t1, model, model.root, "source"@, "    "@, true, k, k.len() as int);
    lemma_written(t2, model, p, shared, true, a, a.len() as int);
    let t3 = scalars_write_code(t2, model, p, shared, true, a, a.len() as int);
    lemma_written(t3, model, p, shared, false, b, b.len() as int);
    let t4 = scalars_write_code(t3, model, p, shared, false, b, b.len() as int);
    lemma_root_written(t4, nodes, model, shared, c.len() as int);
}

/// The code that writes a collection is, behind the head of its loop, the code of every
/// value inside it that is no constant, of every copy and of every collection; and then,
/// for an item that is not empty, of every constant.
pub proof fn law_collection_writer_writes_every_node_once(
    t: Text,
    nodes: IrNodesV,
    model: ModelV,
    coll: NodeV,
    f: FrameV,
    shared: Seq<Text>,
)
    requires
        scopes_ascend(nodes),
    ensures
        ({
            let owned = f.owned && !repeats(shared, coll.canonical_key->0);
            let item_struct = item_struct_at(model, f.parent_struct, coll.source_path);
            let inside = Some(coll.id);
            let inner = write_keys(nodes, inside);
            let p = inner_place(f, item_struct, owned);
            collection_write_code(t, nodes, model, coll, f, shared) == write_closing(
                write_test(
                    write_opening(t, model, coll, f, item_struct, owned) + cat(
                        written_blocks(
                            model,
                            p,
                            inner,
                            true,
                            picked(nodes, Role::Scalar, inside),
                        ),
                    ) + cat(
                        written_blocks(
                            model,
                            p,
                            inner,
                            false,
                            picked(nodes, Role::Clone, inside),
                        ),
                    ) + cat(
                        written_collections(
                            nodes,
                            model,
                            inner_write_frame(f, item_struct, owned),
                            inner,
                            false,
                            picked(nodes, Role::Collection, inside),
                        ),
                    ),
                    f,
                ) + cat(
                    constant_blocks(
                        model,
                        item_struct,
                        p.src_var,
                        f.pad + "        "@,
                        false,
                        picked(nodes, Role::Constant, inside),
                    ),
                ),
                model,
                coll,
                f,
            )
        }),
{
    let owned = f.owned && !repeats(shared, coll.canonical_key->0);
    let item_struct = item_struct_at(model, f.parent_struct, coll.source_path);
    let inside = Some(coll.id);
    let inner = write_keys(nodes, inside);
    let p = inner_place(f, item_struct, owned);
    let k = picked(nodes, Role::Constant, inside);
    let a = picked(nodes, Role::Scalar, inside);
    let b = picked(nodes, Role::Clone, inside);
    let c = picked(nodes, Role::Collection, inside);
    assert(k.take(k.len() as int) =~= k);
    assert(a.take(a.len() as int) =~= a);
    assert(b.take(b.len() as int) =~= b);
    assert(c.take(c.len() as int) =~= c);
    let t1 = write_opening(t, model, coll, f, item_struct, owned);
    lemma_written(t1, model, p, inner, true, a, a.len() as int);
    let t2 = scalars_write_code(t1, model, p, inner, true, a, a.len() as int);
    lemma_written(t2, model, p, inner, false, b, b.len() as int);
    let t3 = scalars_write_code(t2, model, p, inner, false, b, b.len() as int);
    let g = inner_write_frame(f, item_struct, owned);
    lemma_nested_written(t3, nodes, model, coll.id, g, inner, c.len() as int);
    let t4 = nested_write_code(t3, nodes, model, coll.id, g, inner, c.len() as int);
    let t5 = write_test(t4, f);
    let pad = f.pad + "        "@;
    lemma_constants(t5, model, item_struct, p.src_var, pad, false, k, k.len() as int);
}

} // verus!
