//! Values are moved only where nothing else needs them.
use vstd::prelude::*;

use crate::dsl::codegen::plan::{picked, Role};
use crate::dsl::codegen::read::{id_paths, read_paths, scalar_paths};
use crate::dsl::codegen::sharing::repeats;
use crate::dsl::codegen::write::{hub_key_of, own_keys, write_keys};
use crate::dsl::ir::IrNodesV;
use crate::dsl::node::{NodeId, NodeV};
use crate::ordmap::lookup;
use crate::text::Text;

verus! {

/// A place in the code of a scope at which a path is read: for a scalar, for a fallback of
/// a scalar, for a copy, or for a collection.
pub enum PathUse {
    Scalar(int),
    Fallback(int, int),
    Clone(int),
    Items(int),
}

/// Whether a scope has a reader.
pub open spec fn has_use(nodes: IrNodesV, scope: Option<Text>, r: PathUse) -> bool {
    match r {
        PathUse::Scalar(i) => 0 <= i < picked(nodes, Role::Scalar, scope).len(),
        PathUse::Fallback(i, k) => {
            let list = picked(nodes, Role::Scalar, scope);
            0 <= i < list.len() && 0 <= k < list[i].fallbacks.len() && lookup::<NodeId, NodeV>(
                nodes,
                list[i].fallbacks[k],
            ) is Some
        },
        PathUse::Clone(i) => 0 <= i < picked(nodes, Role::Clone, scope).len(),
        PathUse::Items(i) => 0 <= i < picked(nodes, Role::Collection, scope).len(),
    }
}

/// The path that is read there.
pub open spec fn path_read(nodes: IrNodesV, scope: Option<Text>, r: PathUse) -> Text {
    match r {
        PathUse::Scalar(i) => picked(nodes, Role::Scalar, scope)[i].source_path,
        PathUse::Fallback(i, k) => lookup::<NodeId, NodeV>(
            nodes,
            picked(nodes, Role::Scalar, scope)[i].fallbacks[k],
        )->0.source_path,
        PathUse::Clone(i) => picked(nodes, Role::Clone, scope)[i].source_path,
        PathUse::Items(i) => picked(nodes, Role::Collection, scope)[i].source_path,
    }
}

/// Where a reader stands among the paths of its scope.
spec fn position(nodes: IrNodesV, scope: Option<Text>, r: PathUse) -> int {
    let list = picked(nodes, Role::Scalar, scope);
    let copies = picked(nodes, Role::Clone, scope);
    let all = scalar_paths(nodes, list, list.len() as int).len() as int;
    match r {
        PathUse::Scalar(i) => scalar_paths(nodes, list, i).len() as int,
        PathUse::Fallback(i, k) => scalar_paths(nodes, list, i).len() as int + 1 + id_paths(
            nodes,
            list[i].fallbacks,
            k,
        ).len(),
        PathUse::Clone(i) => all + i,
        PathUse::Items(i) => all + copies.len() + i,
    }
}

proof fn lemma_id_paths(nodes: IrNodesV, ids: Seq<Text>, k: int, n: int)
    requires
        0 <= k < n <= ids.len(),
    ensures
        id_paths(nodes, ids, k).len() <= id_paths(nodes, ids, n).len(),
        lookup::<NodeId, NodeV>(nodes, ids[k]) is Some ==> id_paths(nodes, ids, k).len()
            < id_paths(nodes, ids, n).len() && id_paths(nodes, ids, n)[id_paths(
            nodes,
            ids,
            k,
        ).len() as int] == lookup::<NodeId, NodeV>(nodes, ids[k])->0.source_path,
    decreases n,
{
    if k < n - 1 {
        lemma_id_paths(nodes, ids, k, n - 1);
    }
}

proof fn lemma_scalar_paths(nodes: IrNodesV, list: Seq<NodeV>, i: int, n: int)
    requires
        0 <= i < n <= list.len(),
    ensures
        ({
            let at = scalar_paths(nodes, list, i).len() as int;
            let all = scalar_paths(nodes, list, n);
            let ids = id_paths(nodes, list[i].fallbacks, list[i].fallbacks.len() as int);
            &&& at + 1 + ids.len() == scalar_paths(nodes, list, i + 1).len()
            &&& at + 1 + ids.len() <= all.len()
            &&& all[at] == list[i].source_path
            &&& forall|j: int| 0 <= j < ids.len() ==> all[at + 1 + j] == #[trigger] ids[j]
        }),
    decreases n,
{
    if i < n - 1 {
        lemma_scalar_paths(nodes, list, i, n - 1);
        let at = scalar_paths(nodes, list, i).len() as int;
        let head = scalar_paths(nodes, list, n - 1);
        let all = scalar_paths(nodes, list, n);
        let ids = id_paths(nodes, list[i].fallbacks, list[i].fallbacks.len() as int);
        assert forall|j: int| 0 <= j < head.len() implies all[j] == #[trigger] head[j] by {}
        assert(all[at] == head[at]);
        assert forall|j: int| 0 <= j < ids.len() implies all[at + 1 + j] == #[trigger] ids[j] by {
            assert(all[at + 1 + j] == head[at + 1 + j]);
        }
    }
}

proof fn lemma_paths_grow(nodes: IrNodesV, list: Seq<NodeV>, i: int, j: int)
    requires
        0 <= i <= j <= list.len(),
    ensures
        scalar_paths(nodes, list, i).len() <= scalar_paths(nodes, list, j).len(),
        i < j ==> scalar_paths(nodes, list, i).len() + 1 + id_paths(
            nodes,
            list[i].fallbacks,
            list[i].fallbacks.len() as int,
        ).len() <= scalar_paths(nodes, list, j).len(),
    decreases j,
{
    if i < j {
        lemma_scalar_paths(nodes, list, i, j);
    }
}

proof fn lemma_position(nodes: IrNodesV, scope: Option<Text>, r: PathUse)
    requires
        has_use(nodes, scope, r),
    ensures
        0 <= position(nodes, scope, r) < read_paths(nodes, scope).len(),
        read_paths(nodes, scope)[position(nodes, scope, r)] == path_read(nodes, scope, r),
        (r is Scalar || r is Fallback) ==> position(nodes, scope, r) < scalar_paths(
            nodes,
            picked(nodes, Role::Scalar, scope),
            picked(nodes, Role::Scalar, scope).len() as int,
        ).len(),
{
    let list = picked(nodes, Role::Scalar, scope);
    let n = list.len() as int;
    match r {
        PathUse::Scalar(i) => {
            lemma_scalar_paths(nodes, list, i, n);
        },
        PathUse::Fallback(i, k) => {
            lemma_scalar_paths(nodes, list, i, n);
            let m = list[i].fallbacks.len() as int;
            lemma_id_paths(nodes, list[i].fallbacks, k, m);
            let ids = id_paths(nodes, list[i].fallbacks, m);
            let j = id_paths(nodes, list[i].fallbacks, k).len() as int;
            let at = scalar_paths(nodes, list, i).len() as int;
            assert(scalar_paths(nodes, list, n)[at + 1 + j] == ids[j]);
        },
        PathUse::Clone(i) => {},
        PathUse::Items(i) => {},
    }
}

/// Where, in the order of the code, one of two readers of the scalars of a scope stands
/// before the other.
spec fn earlier(a: PathUse, b: PathUse) -> bool {
    match (a, b) {
        (PathUse::Scalar(i), PathUse::Scalar(j)) => i < j,
        (PathUse::Scalar(i), PathUse::Fallback(j, _)) => i <= j,
        (PathUse::Fallback(i, _), PathUse::Scalar(j)) => i < j,
        (PathUse::Fallback(i, k), PathUse::Fallback(j, m)) => i < j || (i == j && k < m),
        _ => false,
    }
}

proof fn lemma_earlier(nodes: IrNodesV, scope: Option<Text>, a: PathUse, b: PathUse)
    requires
        has_use(nodes, scope, a),
        has_use(nodes, scope, b),
        earlier(a, b),
    ensures
        position(nodes, scope, a) < position(nodes, scope, b),
{
    let list = picked(nodes, Role::Scalar, scope);
    match (a, b) {
        (PathUse::Scalar(i), PathUse::Scalar(j)) => {
            lemma_paths_grow(nodes, list, i, j);
        },
        (PathUse::Scalar(i), PathUse::Fallback(j, m)) => {
            lemma_paths_grow(nodes, list, i, j);
        },
        (PathUse::Fallback(i, k), PathUse::Scalar(j)) => {
            lemma_paths_grow(nodes, list, i, j);
            lemma_id_paths(nodes, list[i].fallbacks, k, list[i].fallbacks.len() as int);
        },
        (PathUse::Fallback(i, k), PathUse::Fallback(j, m)) => {
            lemma_paths_grow(nodes, list, i, j);
            if i < j {
                lemma_id_paths(nodes, list[i].fallbacks, k, list[i].fallbacks.len() as int);
            } else {
                lemma_id_paths(nodes, list[i].fallbacks, k, m);
            }
        },
        _ => {},
    }
}

/// A path that is read at two places of a scope, whichever they are, counts as shared, so
/// that neither moves its value away from the other.
pub proof fn law_shared_paths_are_those_read_twice(
    nodes: IrNodesV,
    scope: Option<Text>,
    a: PathUse,
    b: PathUse,
)
    requires
        has_use(nodes, scope, a),
        has_use(nodes, scope, b),
        a != b,
        path_read(nodes, scope, a) == path_read(nodes, scope, b),
    ensures
        repeats(read_paths(nodes, scope), path_read(nodes, scope, a)),
{
    lemma_position(nodes, scope, a);
    lemma_position(nodes, scope, b);
    if earlier(a, b) {
        lemma_earlier(nodes, scope, a, b);
    } else if earlier(b, a) {
        lemma_earlier(nodes, scope, b, a);
    }
    let (p, q) = (position(nodes, scope, a), position(nodes, scope, b));
    let list = read_paths(nodes, scope);
    assert(p != q);
    if p < q {
        assert(list[p] == path_read(nodes, scope, a) && list[q] == path_read(nodes, scope, a));
    } else {
        assert(list[q] == path_read(nodes, scope, a) && list[p] == path_read(nodes, scope, a));
    }
}

// ---------------------------------------------------------------------------
// Writing
// ---------------------------------------------------------------------------

/// The nodes of a scope that are written from the hub, by role.
pub open spec fn written_with(nodes: IrNodesV, scope: Option<Text>, role: Role, i: int) -> bool {
    &&& role == Role::Scalar || role == Role::Clone || role == Role::Collection
    &&& 0 <= i < picked(nodes, role, scope).len()
    &&& picked(nodes, role, scope)[i].constant is None
}

spec fn key_position(nodes: IrNodesV, scope: Option<Text>, role: Role, i: int) -> int {
    let scalars = picked(nodes, Role::Scalar, scope);
    let copies = picked(nodes, Role::Clone, scope);
    let first = own_keys(scalars, scalars.len() as int).len() as int;
    let second = own_keys(copies, copies.len() as int).len() as int;
    let here = own_keys(picked(nodes, role, scope), i).len() as int;
    match role {
        Role::Scalar => here,
        Role::Clone => first + here,
        _ => first + second + here,
    }
}

proof fn lemma_own_keys(list: Seq<NodeV>, i: int, n: int)
    requires
        0 <= i < n <= list.len(),
    ensures
        own_keys(list, i).len() <= own_keys(list, n).len(),
        list[i].constant is None ==> own_keys(list, i).len() < own_keys(list, n).len() && own_keys(
            list,
            n,
        )[own_keys(list, i).len() as int] == hub_key_of(list[i]),
    decreases n,
{
    if i < n - 1 {
        lemma_own_keys(list, i, n - 1);
    }
}

proof fn lemma_key_position(nodes: IrNodesV, scope: Option<Text>, role: Role, i: int)
    requires
        written_with(nodes, scope, role, i),
    ensures
        ({
            let p = key_position(nodes, scope, role, i);
            let all = write_keys(nodes, scope);
            &&& 0 <= p < all.len()
            &&& all[p] == hub_key_of(picked(nodes, role, scope)[i])
        }),
{
    let list = picked(nodes, role, scope);
    lemma_own_keys(list, i, list.len() as int);
}

/// A key that is written at two places of a scope, as itself or as a copy, counts as
/// shared, so that neither place moves the value away from the other.
pub proof fn law_shared_keys_are_those_written_twice(
    nodes: IrNodesV,
    scope: Option<Text>,
    a: Role,
    i: int,
    b: Role,
    j: int,
)
    requires
        written_with(nodes, scope, a, i),
        written_with(nodes, scope, b, j),
        a != b || i != j,
        hub_key_of(picked(nodes, a, scope)[i]) == hub_key_of(picked(nodes, b, scope)[j]),
    ensures
        repeats(write_keys(nodes, scope), hub_key_of(picked(nodes, a, scope)[i])),
{
    lemma_key_position(nodes, scope, a, i);
    lemma_key_position(nodes, scope, b, j);
    let (p, q) = (key_position(nodes, scope, a, i), key_position(nodes, scope, b, j));
    let all = write_keys(nodes, scope);
    lemma_own_keys(picked(nodes, a, scope), i, picked(nodes, a, scope).len() as int);
    lemma_own_keys(picked(nodes, b, scope), j, picked(nodes, b, scope).len() as int);
    if a == b {
        if i < j {
            lemma_own_keys(picked(nodes, a, scope), i, j);
        } else {
            lemma_own_keys(picked(nodes, a, scope), j, i);
        }
    }
    assert(p != q);
    if p < q {
        assert(all[p] == all[q]);
    } else {
        assert(all[q] == all[p]);
    }
}

} // verus!
