//! Which spokes share a source model, and which nodes stand where in their mappers.
use vstd::prelude::*;

use crate::dsl::codegen::access::target_of;
use crate::dsl::codegen::naming::{field_of, item_of};
use crate::dsl::codegen::plan::{picked, picked_upto, plays, FrameV, Role};
use crate::dsl::codegen::read::opening_code;
use crate::dsl::codegen::reader_laws::lemma_pieces_behind;
use crate::dsl::codegen::spoke::{
    blank_from, bodies_of, body_of, code_of, first_from, first_like, leads, led, mapper_module_text,
    shared_name, sharers, slugs_of, spoke_text, SpokesV,
};
use crate::dsl::codegen::write::{crosses_optional, write_opening};
use crate::dsl::ir::IrNodesV;
use crate::dsl::node::{NodeId, NodeV};
use crate::dsl::source_model::meta::ModelV;
use crate::dsl::types::MappingType;
use crate::ordmap::ascending;
use crate::text::{decimal, lt, Text};
use crate::text_laws::law_decimal_is_the_number;

verus! {

// ---------------------------------------------------------------------------
// Roles
// ---------------------------------------------------------------------------

/// A node with a canonical key is a value or, if it is a collection, a list of items; a
/// value may also be a constant or a copy; and a node without any of these has no role.
pub proof fn law_roles_of_nodes(n: NodeV)
    ensures
        n.canonical_key is Some ==> plays(n, Role::Scalar) != plays(n, Role::Collection),
        plays(n, Role::Collection) ==> n.source_type == MappingType::Collection
            && n.canonical_key is Some,
        n.source_type == MappingType::Collection ==> !plays(n, Role::Scalar) && !plays(
            n,
            Role::Constant,
        ) && !plays(n, Role::Clone),
        n.source_type != MappingType::Collection ==> (plays(n, Role::Scalar)
            <==> n.canonical_key is Some) && (plays(n, Role::Constant) <==> n.constant is Some) && (
        plays(n, Role::Clone) <==> n.clone_of is Some),
{
}

proof fn lemma_picked_order(nodes: IrNodesV, role: Role, scope: Option<Text>, n: int)
    requires
        ascending::<NodeId, NodeV>(nodes),
        forall|i: int| 0 <= i < nodes.len() ==> (#[trigger] nodes[i]).1.id == nodes[i].0,
        0 <= n <= nodes.len(),
    ensures
        forall|i: int, j: int|
            0 <= i < j < picked_upto(nodes, role, scope, n).len() ==> lt(
                (#[trigger] picked_upto(nodes, role, scope, n)[i]).id,
                (#[trigger] picked_upto(nodes, role, scope, n)[j]).id,
            ),
        forall|i: int, k: int|
            0 <= i < picked_upto(nodes, role, scope, n).len() && n <= k < nodes.len() ==> lt(
                (#[trigger] picked_upto(nodes, role, scope, n)[i]).id,
                (#[trigger] nodes[k]).0,
            ),
    decreases n,
{
    if n > 0 {
        lemma_picked_order(nodes, role, scope, n - 1);
        let head = picked_upto(nodes, role, scope, n - 1);
        let all = picked_upto(nodes, role, scope, n);
        assert(nodes[n - 1].1.id == nodes[n - 1].0);
        assert forall|i: int, j: int| 0 <= i < j < all.len() implies lt(
            (#[trigger] all[i]).id,
            (#[trigger] all[j]).id,
        ) by {
            assert(all[i] == head[i]);
            if j < head.len() {
                assert(all[j] == head[j]);
            } else {
                assert(all[j] == nodes[n - 1].1);
            }
        }
        assert forall|i: int, k: int| 0 <= i < all.len() && n <= k < nodes.len() implies lt(
            (#[trigger] all[i]).id,
            (#[trigger] nodes[k]).0,
        ) by {
            if i < head.len() {
                assert(all[i] == head[i]);
            } else {
                assert(all[i] == nodes[n - 1].1);
            }
        }
    }
}

/// The nodes of a scope stand in the order of their ids, each once.
pub proof fn law_nodes_of_a_scope_stand_in_order(
    nodes: IrNodesV,
    role: Role,
    scope: Option<Text>,
    i: int,
    j: int,
)
    requires
        ascending::<NodeId, NodeV>(nodes),
        forall|k: int| 0 <= k < nodes.len() ==> (#[trigger] nodes[k]).1.id == nodes[k].0,
        0 <= i < j < picked(nodes, role, scope).len(),
    ensures
        lt(picked(nodes, role, scope)[i].id, picked(nodes, role, scope)[j].id),
{
    lemma_picked_order(nodes, role, scope, nodes.len() as int);
}

// ---------------------------------------------------------------------------
// Loops
// ---------------------------------------------------------------------------

proof fn lemma_loop_words()
    ensures
        "let elements"@ == "let "@ + "elements"@,
        "let count"@ == "let "@ + "count"@,
        " = elements"@ == " = "@ + "elements"@,
        ".reserve(count"@ == ".reserve("@ + "count"@,
        "for (idx"@ == "for ("@ + "idx"@,
        ", mut element"@ == ", mut "@ + "element"@,
        ", element"@ == ", "@ + "element"@,
        ") in elements"@ == ") in "@ + "elements"@,
        "    let mut item"@ == "    "@ + "let mut "@ + "item"@,
{
    reveal_strlit("let ");
    reveal_strlit("elements");
    reveal_strlit("let elements");
    reveal_strlit("count");
    reveal_strlit("let count");
    reveal_strlit(" = ");
    reveal_strlit(" = elements");
    reveal_strlit(".reserve(");
    reveal_strlit(".reserve(count");
    reveal_strlit("for (");
    reveal_strlit("idx");
    reveal_strlit("for (idx");
    reveal_strlit(", mut ");
    reveal_strlit("element");
    reveal_strlit(", mut element");
    reveal_strlit(", ");
    reveal_strlit(", element");
    reveal_strlit(") in ");
    reveal_strlit(") in elements");
    reveal_strlit("    ");
    reveal_strlit("let mut ");
    reveal_strlit("item");
    reveal_strlit("    let mut item");
    assert("let elements"@ =~= "let "@ + "elements"@);
    assert("let count"@ =~= "let "@ + "count"@);
    assert(" = elements"@ =~= " = "@ + "elements"@);
    assert(".reserve(count"@ =~= ".reserve("@ + "count"@);
    assert("for (idx"@ =~= "for ("@ + "idx"@);
    assert(", mut element"@ =~= ", mut "@ + "element"@);
    assert(", element"@ =~= ", "@ + "element"@);
    assert(") in elements"@ =~= ") in "@ + "elements"@);
    assert("    let mut item"@ =~= "    "@ + "let mut "@ + "item"@);
}

/// The code that reads a collection walks the elements of its list, counts them before it
/// does, and begins each item as an empty one of the collection's kind.
pub proof fn law_reading_loops_begin_an_empty_item(
    t: Text,
    model: ModelV,
    coll: NodeV,
    f: FrameV,
    owned: bool,
)
    ensures
        ({
            let d = decimal(f.depth);
            let key = coll.canonical_key->0;
            exists|list: Text|
                opening_code(t, model, coll, f, owned) == #[trigger] (t + f.pad + "// "@ + coll.id
                    + " -> "@ + key + " (collection)\n"@ + f.pad + "let elements"@ + d + " = "@
                    + list) + ";\n"@ + f.pad + "let count"@ + d + " = elements"@ + d + ".len();\n"@
                    + f.pad + f.parent_hub + "."@ + field_of(key) + ".reserve(count"@ + d + ");\n"@
                    + f.pad + "for (idx"@ + d + (if owned {
                    ", mut element"@
                } else {
                    ", element"@
                }) + d + ") in elements"@ + d + (if owned {
                    ".into_iter().enumerate() {\n"@
                } else {
                    ".iter().enumerate() {\n"@
                }) + f.pad + "    let mut item"@ + d + " = "@ + item_of(key) + "::default();\n"@
        }),
{
    let d = decimal(f.depth);
    let key = coll.canonical_key->0;
    lemma_loop_words();
    lemma_pieces_behind();
    let list = if owned {
        crate::dsl::codegen::access::list_take_of(
            model,
            f.parent_struct,
            coll.source_path,
            f.parent_src,
        )
    } else {
        crate::dsl::codegen::access::list_slice_of(
            model,
            f.parent_struct,
            coll.source_path,
            f.parent_src,
        )
    };
    let start = t + f.pad + "// "@ + coll.id + " -> "@ + key + " (collection)\n"@ + f.pad
        + "let elements"@ + d + " = "@ + list;
    if owned {
        assert(opening_code(t, model, coll, f, owned) == start + ";\n"@ + f.pad + "let count"@ + d
            + " = elements"@ + d + ".len();\n"@ + f.pad + f.parent_hub + "."@ + field_of(key)
            + ".reserve(count"@ + d + ");\n"@ + f.pad + "for (idx"@ + d + (if owned {
            ", mut element"@
        } else {
            ", element"@
        }) + d + ") in elements"@ + d + (if owned {
            ".into_iter().enumerate() {\n"@
        } else {
            ".iter().enumerate() {\n"@
        }) + f.pad + "    let mut item"@ + d + " = "@ + item_of(key) + "::default();\n"@);
    } else {
        assert(opening_code(t, model, coll, f, owned) == start + ";\n"@ + f.pad + "let count"@ + d
            + " = elements"@ + d + ".len();\n"@ + f.pad + f.parent_hub + "."@ + field_of(key)
            + ".reserve(count"@ + d + ");\n"@ + f.pad + "for (idx"@ + d + (if owned {
            ", mut element"@
        } else {
            ", element"@
        }) + d + ") in elements"@ + d + (if owned {
            ".into_iter().enumerate() {\n"@
        } else {
            ".iter().enumerate() {\n"@
        }) + f.pad + "    let mut item"@ + d + " = "@ + item_of(key) + "::default();\n"@);
    }
}

proof fn lemma_writing_words()
    ensures
        "let mut written_count"@ == "let mut "@ + "written_count"@,
        "let hub_items"@ == "let "@ + "hub_items"@,
        "for (idx"@ == "for ("@ + "idx"@,
        ", mut hub_item"@ == ", mut "@ + "hub_item"@,
        ", hub_item"@ == ", "@ + "hub_item"@,
        ") in hub_items"@ == ") in "@ + "hub_items"@,
        "    let mut element"@ == "    "@ + "let mut "@ + "element"@,
        ".len());\n"@ == ".len()"@ + ");\n"@,
{
    reveal_strlit("let mut written_count");
    reveal_strlit("let mut ");
    reveal_strlit("written_count");
    reveal_strlit("let hub_items");
    reveal_strlit("let ");
    reveal_strlit("hub_items");
    reveal_strlit("for (idx");
    reveal_strlit("for (");
    reveal_strlit("idx");
    reveal_strlit(", mut hub_item");
    reveal_strlit(", mut ");
    reveal_strlit("hub_item");
    reveal_strlit(", hub_item");
    reveal_strlit(", ");
    reveal_strlit(") in hub_items");
    reveal_strlit(") in ");
    reveal_strlit("    let mut element");
    reveal_strlit("    ");
    reveal_strlit("element");
    reveal_strlit(".len());\n");
    reveal_strlit(".len()");
    reveal_strlit(");\n");
    assert(".len());\n"@ =~= ".len()"@ + ");\n"@);
    assert("let mut written_count"@ =~= "let mut "@ + "written_count"@);
    assert("let hub_items"@ =~= "let "@ + "hub_items"@);
    assert("for (idx"@ =~= "for ("@ + "idx"@);
    assert(", mut hub_item"@ =~= ", mut "@ + "hub_item"@);
    assert(", hub_item"@ =~= ", "@ + "hub_item"@);
    assert(") in hub_items"@ =~= ") in "@ + "hub_items"@);
    assert("    let mut element"@ =~= "    "@ + "let mut "@ + "element"@);
}

/// The code that writes a collection counts from zero, walks the items that the hub has
/// under the collection's key, and begins each element as an empty one. Between the two it
/// only makes room in the list, and where the list may be absent only if there are items.
pub proof fn law_writing_loops_count_from_zero(
    t: Text,
    model: ModelV,
    coll: NodeV,
    f: FrameV,
    item_struct: Text,
    owned: bool,
)
    ensures
        ({
            let d = decimal(f.depth);
            let key = coll.canonical_key->0;
            let list = f.parent_hub + "."@ + field_of(key);
            let place = target_of(model, f.parent_struct, coll.source_path, f.parent_src);
            let many = if owned {
                "hub_items"@ + d + ".len()"@
            } else {
                list + ".len()"@
            };
            let start = t + f.pad + "// "@ + key + " -> "@ + coll.source_path + " (collection)\n"@
                + f.pad + "let mut written_count"@ + d + " = 0usize;\n"@ + (if owned {
                f.pad + "let hub_items"@ + d + " = std::mem::take(&mut "@ + list + ");\n"@
            } else {
                Seq::<char>::empty()
            });
            let room = if !crosses_optional(model, f.parent_struct, coll.source_path) {
                f.pad + place + ".reserve("@ + many + ");\n"@
            } else {
                f.pad + (if owned {
                    "if !"@ + "hub_items"@ + d + ".is_empty() {\n"@
                } else {
                    "if "@ + many + " > 0 {\n"@
                }) + f.pad + "    "@ + place + ".reserve("@ + many + ");\n"@ + f.pad + "}\n"@
            };
            write_opening(t, model, coll, f, item_struct, owned) == start + room + f.pad
                + "for (idx"@ + d + (if owned {
                ", mut hub_item"@ + d + ") in hub_items"@ + d + ".into_iter().enumerate() {\n"@
            } else {
                ", hub_item"@ + d + ") in "@ + list + ".iter().enumerate() {\n"@
            }) + f.pad + "    let mut element"@ + d + " = "@ + item_struct + "::default();\n"@
        }),
{
    lemma_writing_words();
    lemma_pieces_behind();
    let d = decimal(f.depth);
    let key = coll.canonical_key->0;
    let head = t + f.pad + "// "@ + key + " -> "@ + coll.source_path + " (collection)\n"@ + f.pad
        + "let mut written_count"@ + d + " = 0usize;\n"@;
    assert(head + Seq::<char>::empty() =~= head);
}

// ---------------------------------------------------------------------------
// Shared source models
// ---------------------------------------------------------------------------

proof fn lemma_first_from(list: Seq<Text>, x: Text, i: int, k: int)
    requires
        0 <= i <= k < list.len(),
        list[k] == x,
        forall|j: int| i <= j < k ==> (#[trigger] list[j]) != x,
    ensures
        first_from(list, x, i) == k,
    decreases k - i,
{
    if i < k {
        lemma_first_from(list, x, i + 1, k);
    }
}

/// Among spokes with the same source model the first is the one that leads.
pub proof fn law_first_is_the_earliest(list: Seq<Text>, i: int)
    requires
        0 <= i < list.len(),
    ensures
        0 <= first_like(list, i) <= i,
        list[first_like(list, i)] == list[i],
        forall|j: int| 0 <= j < first_like(list, i) ==> (#[trigger] list[j]) != list[i],
{
    lemma_earliest(list, list[i], 0, i);
}

proof fn lemma_earliest(list: Seq<Text>, x: Text, i: int, k: int)
    requires
        0 <= i <= k < list.len(),
        list[k] == x,
    ensures
        i <= first_from(list, x, i) <= k,
        list[first_from(list, x, i)] == x,
        forall|j: int| i <= j < first_from(list, x, i) ==> (#[trigger] list[j]) != x,
    decreases k - i,
{
    if list[i] != x {
        lemma_earliest(list, x, i + 1, k);
    }
}

proof fn lemma_sharers_count(slugs: Seq<Text>, bodies: Seq<Text>, x: Text, i: int, n: int)
    requires
        0 <= i < n <= bodies.len(),
        bodies[i] == x,
    ensures
        sharers(slugs, bodies, x, i).len() < sharers(slugs, bodies, x, n).len(),
        sharers(slugs, bodies, x, n)[sharers(slugs, bodies, x, i).len() as int] == slugs[i],
    decreases n,
{
    if i < n - 1 {
        lemma_sharers_count(slugs, bodies, x, i, n - 1);
    }
}

proof fn lemma_no_sharers(slugs: Seq<Text>, bodies: Seq<Text>, x: Text, i: int, n: int)
    requires
        0 <= i <= n <= bodies.len(),
        forall|j: int| i <= j < n ==> (#[trigger] bodies[j]) != x,
    ensures
        sharers(slugs, bodies, x, n) == sharers(slugs, bodies, x, i),
    decreases n - i,
{
    if i < n {
        lemma_no_sharers(slugs, bodies, x, i, n - 1);
        assert(bodies[n - 1] != x);
    }
}

/// A spoke leads a shared source model if, and only if, no spoke before it has the same
/// model and one behind it has.
pub proof fn law_shared_models_have_two_spokes(slugs: Seq<Text>, bodies: Seq<Text>, i: int)
    requires
        0 <= i < bodies.len(),
        slugs.len() == bodies.len(),
    ensures
        leads(slugs, bodies, i) <==> (forall|j: int|
            0 <= j < i ==> (#[trigger] bodies[j]) != bodies[i]) && (exists|j: int|
            i < j < bodies.len() && (#[trigger] bodies[j]) == bodies[i]),
{
    let x = bodies[i];
    let n = bodies.len() as int;
    law_first_is_the_earliest(bodies, i);
    if forall|j: int| 0 <= j < i ==> (#[trigger] bodies[j]) != x {
        lemma_first_from(bodies, x, 0, i);
        lemma_no_sharers(slugs, bodies, x, 0, i);
        assert(sharers(slugs, bodies, x, i).len() == 0);
        assert(sharers(slugs, bodies, x, i + 1).len() == 1);
        if exists|j: int| i < j < n && (#[trigger] bodies[j]) == x {
            let j = choose|j: int| i < j < n && (#[trigger] bodies[j]) == x;
            lemma_sharers_count(slugs, bodies, x, i, j);
            lemma_sharers_count(slugs, bodies, x, j, n);
        } else {
            lemma_no_sharers(slugs, bodies, x, i + 1, n);
        }
    }
}

/// Every spoke that has a shared source model is named in it.
pub proof fn law_sharers_are_named(slugs: Seq<Text>, bodies: Seq<Text>, i: int)
    requires
        0 <= i < bodies.len(),
    ensures
        sharers(slugs, bodies, bodies[i], bodies.len() as int).contains(slugs[i]),
{
    let n = bodies.len() as int;
    lemma_sharers_count(slugs, bodies, bodies[i], i, n);
}

proof fn lemma_led_grows(slugs: Seq<Text>, bodies: Seq<Text>, i: int, n: int)
    requires
        0 <= i <= n,
    ensures
        led(slugs, bodies, i) <= led(slugs, bodies, n),
        i < n && leads(slugs, bodies, i) ==> led(slugs, bodies, i) < led(slugs, bodies, n),
    decreases n,
{
    if i < n {
        lemma_led_grows(slugs, bodies, i, n - 1);
    }
}

/// Different shared source models have different names.
pub proof fn law_shared_models_have_names_of_their_own(
    slugs: Seq<Text>,
    bodies: Seq<Text>,
    i: int,
    j: int,
)
    requires
        0 <= i < j < bodies.len(),
        leads(slugs, bodies, i),
        leads(slugs, bodies, j),
    ensures
        shared_name(slugs, bodies, i) != shared_name(slugs, bodies, j),
{
    lemma_led_grows(slugs, bodies, i, j);
    let (a, b) = (led(slugs, bodies, i), led(slugs, bodies, j));
    law_decimal_is_the_number(a);
    law_decimal_is_the_number(b);
    if "shared_"@ + decimal(a) == "shared_"@ + decimal(b) {
        let (x, y) = ("shared_"@ + decimal(a), "shared_"@ + decimal(b));
        let k = "shared_"@.len() as int;
        assert(x.skip(k) =~= decimal(a));
        assert(y.skip(k) =~= decimal(b));
    }
}

/// A spoke whose source model another spoke has too is generated on the shared model, and
/// any other with its own structs.
pub proof fn law_spokes_stand_on_shared_models(spokes: SpokesV, hub_module: Text, i: int)
    requires
        0 <= i < spokes.len(),
    ensures
        ({
            let bodies = bodies_of(spokes);
            let alone = forall|j: int|
                0 <= j < bodies.len() && j != i ==> (#[trigger] bodies[j]) != bodies[i];
            let (_, ir, model) = spokes[i];
            &&& alone ==> code_of(spokes, hub_module, i) == spoke_text(ir, model, hub_module)
            &&& !alone ==> code_of(spokes, hub_module, i) == mapper_module_text(
                ir,
                model,
                hub_module,
                "super::"@ + shared_name(slugs_of(spokes), bodies, first_like(bodies, i)),
            )
        }),
{
    let (slugs, bodies) = (slugs_of(spokes), bodies_of(spokes));
    let first = first_like(bodies, i);
    law_first_is_the_earliest(bodies, i);
    law_shared_models_have_two_spokes(slugs, bodies, first);
    if forall|j: int| 0 <= j < bodies.len() && j != i ==> (#[trigger] bodies[j]) != bodies[i] {
        assert(first == i);
        assert(!leads(slugs, bodies, first));
    } else {
        let j = choose|j: int|
            0 <= j < bodies.len() && j != i && (#[trigger] bodies[j]) == bodies[i];
        if first == i {
            assert(j > i);
        } else {
            assert(bodies[i] == bodies[first]);
        }
        assert(leads(slugs, bodies, first));
    }
}

proof fn lemma_blank(t: Text, i: int, k: int)
    requires
        0 <= i <= k,
        k + 1 < t.len(),
        t[k] == '\n' && t[k + 1] == '\n',
        forall|j: int| i <= j < k ==> !((#[trigger] t[j]) == '\n' && t[j + 1] == '\n'),
    ensures
        blank_from(t, i) == k,
    decreases k - i,
{
    if i < k {
        lemma_blank(t, i + 1, k);
    }
}

/// The body of a module is what stands behind its first empty line.
pub proof fn law_bodies_stand_behind_the_first_empty_line(head: Text, body: Text)
    requires
        head.len() == 0 || head.last() != '\n',
        forall|j: int|
            0 <= j < head.len() - 1 ==> !((#[trigger] head[j]) == '\n' && head[j + 1] == '\n'),
    ensures
        body_of(head + "\n\n"@ + body) == body,
{
    reveal_strlit("\n\n");
    let t = head + "\n\n"@ + body;
    let k = head.len() as int;
    assert(t[k] == '\n' && t[k + 1] == '\n');
    assert forall|j: int| 0 <= j < k implies !((#[trigger] t[j]) == '\n' && t[j + 1] == '\n') by {
        assert(t[j] == head[j]);
        if j + 1 < k {
            assert(t[j + 1] == head[j + 1]);
        } else {
            assert(head[j] == head.last());
        }
    }
    lemma_blank(t, 0, k);
    assert(t.subrange(k + 2, t.len() as int) =~= body);
}

} // verus!
