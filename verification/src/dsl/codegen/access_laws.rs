//! What the expressions that lead to a field of a document give.
use vstd::prelude::*;

use crate::dsl::codegen::access::{
    access_of, access_text, any_optional, closure_var, filled, list_slice_of, list_take_of, opened,
    path_segs, place_of, segs_from, take_of, take_text, SegV,
};
use crate::dsl::codegen::whole_laws::{cat, lemma_cat_push};
use crate::dsl::source_model::meta::{FieldsV, FieldV, ModelV, StructsV};
use crate::ordmap::lookup;
use crate::text::{join, lemma_join_split, split, Text};

verus! {

/// A document or a part of one: a text, a list, or fields, each of which may be absent.
pub enum Doc {
    Leaf(Text),
    Items(Seq<Doc>),
    Node(Map<Text, Option<Doc>>),
}

/// The part of a document that a path leads to, if nothing on the way is absent.
pub open spec fn fetch(doc: Doc, segs: Seq<SegV>) -> Option<Doc>
    decreases segs.len(),
{
    if segs.len() == 0 {
        Some(doc)
    } else {
        match doc {
            Doc::Node(fields) => match fields[segs[0].name] {
                None => None,
                Some(d) => fetch(d, segs.drop_first()),
            },
            _ => None,
        }
    }
}

/// Whether a document has the fields of a path, as far as they are there; a field that is
/// not held in an `Option` is there.
pub open spec fn conforms(doc: Doc, segs: Seq<SegV>) -> bool
    decreases segs.len(),
{
    segs.len() > 0 ==> (doc matches Doc::Node(fields) && fields.dom().contains(segs[0].name) && match
        fields[segs[0].name] {
        None => segs[0].optional,
        Some(d) => conforms(d, segs.drop_first()),
    })
}

/// An expression that leads to a field.
pub enum Get {
    /// A variable.
    Var(Text),
    /// A field of a place.
    Field(Box<Get>, Text),
    /// What an expression gives for the content of an optional place, if there is any.
    Opened(Box<Get>, Text, Text, Box<Get>),
    /// The content of a place that is always there, borrowed or moved.
    Whole(Text, Box<Get>, Text),
    /// The content of an optional place, moved.
    Moved(Box<Get>),
}

/// The text of an expression.
pub open spec fn show(g: Get) -> Text
    decreases g,
{
    match g {
        Get::Var(x) => x,
        Get::Field(place, name) => show(*place) + "."@ + name,
        Get::Opened(place, by, var, body) => show(*place) + by + ".and_then(|"@ + var + "| "@ + show(
            *body,
        ) + ")"@,
        Get::Whole(front, place, back) => front + show(*place) + back,
        Get::Moved(place) => show(*place) + ".take()"@,
    }
}

/// What a place holds.
pub open spec fn held(vars: Map<Text, Doc>, g: Get) -> Option<Doc>
    decreases g,
{
    match g {
        Get::Var(x) => Some(vars[x]),
        Get::Field(place, name) => match held(vars, *place) {
            Some(Doc::Node(fields)) => fields[name],
            _ => None,
        },
        _ => None,
    }
}

/// What an expression gives.
pub open spec fn given(vars: Map<Text, Doc>, g: Get) -> Option<Doc>
    decreases g,
{
    match g {
        Get::Opened(place, _, var, body) => match held(vars, *place) {
            None => None,
            Some(d) => given(vars.insert(var, d), *body),
        },
        Get::Whole(_, place, _) => held(vars, *place),
        Get::Moved(place) => held(vars, *place),
        _ => None,
    }
}

/// How the last field of a path is taken.
pub enum Last {
    /// Borrowed as a text.
    Borrow,
    /// Moved away.
    Move,
    /// Borrowed as a list.
    Slice,
}

spec fn ended(recv: Get, seg: SegV, depth: nat, how: Last) -> Get {
    let place = Get::Field(Box::new(recv), seg.name);
    let var = closure_var(depth);
    match how {
        Last::Borrow => if seg.optional {
            Get::Opened(
                Box::new(place),
                ".as_ref()"@,
                var,
                Box::new(Get::Whole("Some("@, Box::new(Get::Var(var)), ".as_str())"@)),
            )
        } else {
            Get::Whole("Some("@, Box::new(place), ".as_str())"@)
        },
        Last::Move => if seg.optional {
            Get::Moved(Box::new(place))
        } else {
            Get::Whole("Some(std::mem::take(&mut "@, Box::new(place), "))"@)
        },
        Last::Slice => Get::Whole("Some("@, Box::new(place), ".as_slice())"@),
    }
}

spec fn by_of(how: Last) -> Text {
    match how {
        Last::Move => ".as_mut()"@,
        _ => ".as_ref()"@,
    }
}

spec fn built(recv: Get, segs: Seq<SegV>, i: int, depth: nat, how: Last) -> Get
    decreases segs.len() - i,
{
    if i >= segs.len() - 1 {
        ended(recv, segs.last(), depth, how)
    } else {
        let place = Get::Field(Box::new(recv), segs[i].name);
        if segs[i].optional {
            Get::Opened(
                Box::new(place),
                by_of(how),
                closure_var(depth),
                Box::new(built(Get::Var(closure_var(depth)), segs, i + 1, depth + 1, how)),
            )
        } else {
            built(place, segs, i + 1, depth, how)
        }
    }
}

spec fn receiver(base: Text, segs: Seq<SegV>, n: int, how: Last) -> Get
    decreases n,
{
    if n <= 0 {
        Get::Var(base)
    } else if segs[n - 1].optional {
        Get::Var(closure_var(opened(base, segs, n - 1, by_of(how)).depth))
    } else {
        Get::Field(Box::new(receiver(base, segs, n - 1, how)), segs[n - 1].name)
    }
}

proof fn lemma_closers(base: Text, segs: Seq<SegV>, n: int, by: Text)
    ensures
        forall|i: int|
            0 <= i < opened(base, segs, n, by).closers.len() ==> (#[trigger] opened(
                base,
                segs,
                n,
                by,
            ).closers[i]) == ')',
    decreases n,
{
    reveal_strlit(")");
    if n > 0 {
        lemma_closers(base, segs, n - 1, by);
        let before = opened(base, segs, n - 1, by).closers;
        let all = opened(base, segs, n, by).closers;
        assert forall|i: int| 0 <= i < all.len() implies (#[trigger] all[i]) == ')' by {
            if i < before.len() {
                assert(all[i] == before[i]);
            }
        }
    }
}

proof fn lemma_built_text(base: Text, segs: Seq<SegV>, n: int, how: Last)
    requires
        0 <= n < segs.len(),
    ensures
        ({
            let e = opened(base, segs, n, by_of(how));
            &&& show(receiver(base, segs, n, how)) == e.recv
            &&& show(built(Get::Var(base), segs, 0, 0, how)) == e.expr + show(
                built(receiver(base, segs, n, how), segs, n, e.depth, how),
            ) + e.closers
        }),
    decreases n,
{
    let by = by_of(how);
    if n == 0 {
        let g = built(Get::Var(base), segs, 0, 0, how);
        assert(Seq::<char>::empty() + show(g) + Seq::<char>::empty() =~= show(g));
    } else {
        lemma_built_text(base, segs, n - 1, how);
        let e = opened(base, segs, n - 1, by);
        let f = opened(base, segs, n, by);
        let r = receiver(base, segs, n - 1, how);
        let place = Get::Field(Box::new(r), segs[n - 1].name);
        assert(show(place) == place_of(e.recv, segs[n - 1].name));
        if segs[n - 1].optional {
            let var = closure_var(e.depth);
            let body = built(Get::Var(var), segs, n, e.depth + 1, how);
            let x = show(place);
            let b = show(body);
            lemma_closers(base, segs, n - 1, by);
            reveal_strlit(")");
            assert(")"@ + e.closers =~= e.closers + ")"@);
            assert(f.expr == e.expr + x + by + ".and_then(|"@ + var + "| "@);
            let inner = x + by + ".and_then(|"@ + var + "| "@ + b + ")"@;
            assert(show(built(r, segs, n - 1, e.depth, how)) == inner);
            assert(e.expr + inner + e.closers =~= (e.expr + x + by + ".and_then(|"@ + var + "| "@)
                + b + (")"@ + e.closers));
        }
    }
}

proof fn lemma_built_gives(
    vars: Map<Text, Doc>,
    recv: Get,
    doc: Doc,
    segs: Seq<SegV>,
    i: int,
    depth: nat,
    how: Last,
)
    requires
        0 <= i < segs.len(),
        held(vars, recv) == Some(doc),
        conforms(doc, segs.skip(i)),
    ensures
        given(vars, built(recv, segs, i, depth, how)) == fetch(doc, segs.skip(i)),
    decreases segs.len() - i,
{
    let rest = segs.skip(i);
    assert(rest[0] == segs[i]);
    assert(rest.drop_first() =~= segs.skip(i + 1));
    let fields = doc->Node_0;
    let place = Get::Field(Box::new(recv), segs[i].name);
    assert(held(vars, place) == fields[segs[i].name]);
    if i == segs.len() - 1 {
        assert(segs.last() == segs[i]);
        let found = fields[segs[i].name];
        assert(rest.drop_first().len() == 0);
        if found is Some {
            assert(fetch(found->0, rest.drop_first()) == Some(found->0));
            let var = closure_var(depth);
            let inner = vars.insert(var, found->0);
            assert(held(inner, Get::Var(var)) == Some(found->0));
            assert(given(inner, Get::Whole("Some("@, Box::new(Get::Var(var)), ".as_str())"@))
                == Some(found->0));
        }
        assert(fetch(doc, rest) == found);
        lemma_ended(vars, recv, segs[i], depth, how, found);
    } else if fields[segs[i].name] is Some {
        let d = fields[segs[i].name]->0;
        if segs[i].optional {
            let var = closure_var(depth);
            let inner = vars.insert(var, d);
            assert(held(inner, Get::Var(var)) == Some(d));
            lemma_built_gives(inner, Get::Var(var), d, segs, i + 1, depth + 1, how);
        } else {
            lemma_built_gives(vars, place, d, segs, i + 1, depth, how);
        }
    }
}

proof fn lemma_ended(
    vars: Map<Text, Doc>,
    recv: Get,
    seg: SegV,
    depth: nat,
    how: Last,
    found: Option<Doc>,
)
    requires
        held(vars, Get::Field(Box::new(recv), seg.name)) == found,
    ensures
        given(vars, ended(recv, seg, depth, how)) == found,
{
    if let Some(d) = found {
        let var = closure_var(depth);
        let inner = vars.insert(var, d);
        assert(held(inner, Get::Var(var)) == Some(d));
        assert(given(inner, Get::Whole("Some("@, Box::new(Get::Var(var)), ".as_str())"@)) == Some(
            d,
        ));
    }
}

/// The names of the fields of a path.
pub open spec fn names_of(segs: Seq<SegV>) -> Seq<Text> {
    segs.map_values(|s: SegV| s.name)
}

proof fn lemma_plain_place(base: Text, segs: Seq<SegV>, n: int, how: Last)
    requires
        0 < n <= segs.len(),
        !any_optional(segs),
    ensures
        ({
            let e = opened(base, segs, n - 1, by_of(how));
            &&& e.expr.len() == 0
            &&& e.closers.len() == 0
            &&& place_of(e.recv, segs[n - 1].name) == base + "."@ + join(
                names_of(segs).take(n),
                "."@,
            )
        }),
    decreases n,
{
    let names = names_of(segs);
    assert(!segs[n - 1].optional);
    if n == 1 {
        assert(names.take(1) =~= seq![segs[0].name]);
    } else {
        lemma_plain_place(base, segs, n - 1, how);
        assert(!segs[n - 2].optional);
        assert(names.take(n).drop_last() =~= names.take(n - 1));
        assert(names.take(n).last() == segs[n - 1].name);
        let j = join(names.take(n - 1), "."@);
        assert(base + "."@ + j + "."@ + segs[n - 1].name =~= base + "."@ + (j + "."@ + segs[n
            - 1].name));
    }
}

/// Whether a text is an expression that gives, for every document with the fields of a
/// path, what the path leads to.
pub open spec fn leads(text: Text, base: Text, segs: Seq<SegV>) -> bool {
    exists|g: Get|
        #[trigger] show(g) == text && forall|vars: Map<Text, Doc>, doc: Doc|
            vars.dom().contains(base) && vars[base] == doc && #[trigger] conforms(doc, segs)
                ==> #[trigger] given(vars, g) == fetch(doc, segs)
}

proof fn lemma_leads(base: Text, segs: Seq<SegV>, how: Last)
    requires
        segs.len() > 0,
    ensures
        leads(
            ({
                let n = segs.len() - 1;
                let e = opened(base, segs, n, by_of(how));
                e.expr + show(ended(receiver(base, segs, n, how), segs.last(), e.depth, how))
                    + e.closers
            }),
            base,
            segs,
        ),
        show(receiver(base, segs, segs.len() - 1, how)) == opened(
            base,
            segs,
            segs.len() - 1,
            by_of(how),
        ).recv,
{
    let n = segs.len() - 1;
    let e = opened(base, segs, n, by_of(how));
    lemma_built_text(base, segs, n, how);
    let g = built(Get::Var(base), segs, 0, 0, how);
    assert(built(receiver(base, segs, n, how), segs, n, e.depth, how) == ended(
        receiver(base, segs, n, how),
        segs.last(),
        e.depth,
        how,
    ));
    assert forall|vars: Map<Text, Doc>, doc: Doc|
        vars.dom().contains(base) && vars[base] == doc && #[trigger] conforms(
            doc,
            segs,
        ) implies #[trigger] given(vars, g) == fetch(doc, segs) by {
        assert(segs.skip(0) =~= segs);
        lemma_built_gives(vars, Get::Var(base), doc, segs, 0, 0, how);
    }
}

/// The expression that borrows a text gives what the path leads to, and nothing where an
/// optional field on the way is absent; so does the expression that moves it.
pub proof fn law_expressions_follow_their_path(base: Text, path: Text, segs: Seq<SegV>)
    requires
        segs.len() > 0,
        path == join(names_of(segs), "."@),
    ensures
        leads(access_text(base, path, segs), base, segs),
        leads(take_text(base, path, segs), base, segs),
{
    let n = segs.len() - 1;
    let last = segs.last();
    reveal_strlit(".as_ref()");
    reveal_strlit(".and_then(|");
    reveal_strlit(".as_ref().and_then(|");
    reveal_strlit("| ");
    reveal_strlit("Some(");
    reveal_strlit("| Some(");
    reveal_strlit(".as_str())");
    reveal_strlit(")");
    reveal_strlit(".as_str()))");
    assert(".as_ref().and_then(|"@ =~= ".as_ref()"@ + ".and_then(|"@);
    assert("| Some("@ =~= "| "@ + "Some("@);
    assert(".as_str()))"@ =~= ".as_str())"@ + ")"@);
    // Borrowing.
    lemma_leads(base, segs, Last::Borrow);
    let e = opened(base, segs, n, ".as_ref()"@);
    let place = place_of(e.recv, last.name);
    let var = closure_var(e.depth);
    let g = ended(receiver(base, segs, n, Last::Borrow), last, e.depth, Last::Borrow);
    assert(show(Get::Field(Box::new(receiver(base, segs, n, Last::Borrow)), last.name)) == place);
    if last.optional {
        assert(any_optional(segs)) by {
            assert(segs[n].optional);
        }
        let inner = Get::Whole("Some("@, Box::new(Get::Var(var)), ".as_str())"@);
        assert(show(Get::Var(var)) == var);
        assert(show(inner) == "Some("@ + var + ".as_str())"@);
        assert(show(g) == place + ".as_ref()"@ + ".and_then(|"@ + var + "| "@ + show(inner) + ")"@);
        assert(access_text(base, path, segs) =~= e.expr + show(g) + e.closers);
    } else {
        assert(show(g) == "Some("@ + place + ".as_str())"@);
        if any_optional(segs) {
            assert(access_text(base, path, segs) =~= e.expr + show(g) + e.closers);
        } else {
            lemma_plain_place(base, segs, n + 1, Last::Borrow);
            assert(names_of(segs).take(n + 1) =~= names_of(segs));
            assert(access_text(base, path, segs) =~= e.expr + show(g) + e.closers);
        }
    }
    // Moving.
    lemma_leads(base, segs, Last::Move);
    let e = opened(base, segs, n, ".as_mut()"@);
    let place = place_of(e.recv, last.name);
    let g = ended(receiver(base, segs, n, Last::Move), last, e.depth, Last::Move);
    assert(show(Get::Field(Box::new(receiver(base, segs, n, Last::Move)), last.name)) == place);
    if last.optional {
        assert(any_optional(segs)) by {
            assert(segs[n].optional);
        }
        assert(show(g) == place + ".take()"@);
        assert(take_text(base, path, segs) =~= e.expr + show(g) + e.closers);
    } else {
        assert(show(g) == "Some(std::mem::take(&mut "@ + place + "))"@);
        if any_optional(segs) {
            assert(take_text(base, path, segs) =~= e.expr + show(g) + e.closers);
        } else {
            lemma_plain_place(base, segs, n + 1, Last::Move);
            assert(names_of(segs).take(n + 1) =~= names_of(segs));
            reveal_strlit("Some(std::mem::take(&mut ");
            assert(take_text(base, path, segs) =~= e.expr + show(g) + e.closers);
        }
    }
}

proof fn lemma_segs(structs: StructsV, name: Text, segs: Seq<Text>)
    requires
        segs_from(structs, name, segs) is Some,
    ensures
        segs_from(structs, name, segs)->0.len() == segs.len(),
        names_of(segs_from(structs, name, segs)->0) == segs,
        segs.len() > 0,
    decreases segs.len(),
{
    let found = segs_from(structs, name, segs)->0;
    if segs.len() > 1 {
        let f = lookup::<String, FieldV>(
            lookup::<String, FieldsV>(structs, name)->0,
            segs[0],
        )->0;
        lemma_segs(structs, f.ty->0, segs.drop_first());
        let rest = segs_from(structs, f.ty->0, segs.drop_first())->0;
        assert forall|i: int| 0 <= i < segs.len() implies names_of(found)[i] == segs[i] by {
            if i > 0 {
                assert(found[i] == rest[i - 1]);
                assert(names_of(rest)[i - 1] == segs.drop_first()[i - 1]);
            }
        }
    }
    assert(names_of(found) =~= segs);
}

/// The expressions for a path of a model that resolves give, for every document of the
/// model, the value at that path: for texts, whether borrowed or moved, and for lists,
/// which are empty where the path ends early.
pub proof fn law_paths_are_followed(model: ModelV, start: Text, path: Text, base: Text)
    requires
        path_segs(model, start, path) is Some,
    ensures
        leads(access_of(model, start, path, base), base, path_segs(model, start, path)->0),
        leads(take_of(model, start, path, base), base, path_segs(model, start, path)->0),
        any_optional(path_segs(model, start, path)->0) ==> exists|expr: Text|
            leads(expr, base, path_segs(model, start, path)->0) && list_take_of(
                model,
                start,
                path,
                base,
            ) == #[trigger] (expr + ".unwrap_or_default()"@),
        any_optional(path_segs(model, start, path)->0) ==> exists|expr: Text|
            leads(expr, base, path_segs(model, start, path)->0) && list_slice_of(
                model,
                start,
                path,
                base,
            ) == #[trigger] (expr + ".unwrap_or(&[])"@),
        !any_optional(path_segs(model, start, path)->0) ==> list_take_of(model, start, path, base)
            == "std::mem::take(&mut "@ + base + "."@ + path + ")"@,
        !any_optional(path_segs(model, start, path)->0) ==> list_slice_of(model, start, path, base)
            == base + "."@ + path + ".as_slice()"@,
{
    let segs = path_segs(model, start, path)->0;
    lemma_segs(model.structs, start, split(path, '.'));
    lemma_join_split(path, '.');
    reveal_strlit(".");
    assert("."@ =~= seq!['.']);
    law_expressions_follow_their_path(base, path, segs);
    if any_optional(segs) {
        assert(list_take_of(model, start, path, base) == take_text(base, path, segs)
            + ".unwrap_or_default()"@);
        let n = segs.len() - 1;
        lemma_leads(base, segs, Last::Slice);
        let e = opened(base, segs, n, ".as_ref()"@);
        let place = place_of(e.recv, segs.last().name);
        let recv = receiver(base, segs, n, Last::Slice);
        let g = ended(recv, segs.last(), e.depth, Last::Slice);
        assert(show(Get::Field(Box::new(recv), segs.last().name)) == place);
        assert(show(g) == "Some("@ + place + ".as_slice())"@);
        let expr = e.expr + show(g) + e.closers;
        assert(list_slice_of(model, start, path, base) =~= expr + ".unwrap_or(&[])"@);
        assert(leads(expr, base, segs));
    }
}

/// The place that a value is written to names the fields of its path one after the other;
/// every optional struct on the way is filled in, and the field itself is not.
pub proof fn law_places_fill_in_what_is_absent(base: Text, segs: Seq<SegV>)
    requires
        segs.len() > 0,
    ensures
        filled(base, segs, segs.len() as int) == base + cat(
            segs.drop_last().map_values(
                |s: SegV|
                    "."@ + s.name + (if s.optional {
                        ".get_or_insert_default()"@
                    } else {
                        Seq::<char>::empty()
                    }),
            ),
        ) + "."@ + segs.last().name,
{
    let n = segs.len() - 1;
    lemma_filled(base, segs, n);
    assert(segs.take(n) =~= segs.drop_last());
}

proof fn lemma_filled(base: Text, segs: Seq<SegV>, n: int)
    requires
        0 <= n < segs.len(),
    ensures
        filled(base, segs, n) == base + cat(
            segs.take(n).map_values(
                |s: SegV|
                    "."@ + s.name + (if s.optional {
                        ".get_or_insert_default()"@
                    } else {
                        Seq::<char>::empty()
                    }),
            ),
        ),
    decreases n,
{
    let f = |s: SegV|
        "."@ + s.name + (if s.optional {
            ".get_or_insert_default()"@
        } else {
            Seq::<char>::empty()
        });
    if n == 0 {
        assert(segs.take(0).map_values(f) =~= Seq::<Text>::empty());
        assert(base + cat(Seq::<Text>::empty()) =~= base);
    } else {
        lemma_filled(base, segs, n - 1);
        let before = segs.take(n - 1).map_values(f);
        let x = f(segs[n - 1]);
        assert(segs.take(n).map_values(f) =~= before.push(x));
        lemma_cat_push(before, x);
        assert(filled(base, segs, n) =~= base + (cat(before) + x));
    }
}

} // verus!
