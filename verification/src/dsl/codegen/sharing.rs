//! Values that are read or written more than once, which generated code must copy
//! instead of move.
use vstd::prelude::*;

use crate::ordmap::{member, TextSet};
use crate::text::Text;

verus! {

/// Whether a text occurs more than once in a list.
pub open spec fn repeats(list: Seq<Text>, x: Text) -> bool {
    exists|i: int, j: int|
        0 <= i < j < list.len() && #[trigger] list[i] == x && #[trigger] list[j] == x
}

/// The texts that occur more than once in a list.
pub struct Shared {
    repeated: TextSet,
    list: Ghost<Seq<Text>>,
}

impl View for Shared {
    type V = Seq<Text>;

    closed spec fn view(&self) -> Seq<Text> {
        self.list@
    }
}

impl Shared {
    #[verifier::type_invariant]
    spec fn inv(&self) -> bool {
        forall|x: Text| #[trigger] member(self.repeated@, x) == repeats(self.list@, x)
    }

    /// The texts that occur more than once in `list`.
    pub fn of(list: &Vec<String>) -> (r: Shared)
        ensures
            r@ == list.deep_view(),
    {
        let ghost all = list.deep_view();
        let mut seen: TextSet = TextSet::new();
        let mut repeated: TextSet = TextSet::new();
        let mut i: usize = 0;
        assert(all.take(0) =~= Seq::<Text>::empty());
        while i < list.len()
            invariant
                i <= list.len(),
                all == list.deep_view(),
                forall|x: Text| #[trigger] member(seen@, x) == all.take(i as int).contains(x),
                forall|x: Text| #[trigger] member(repeated@, x) == repeats(all.take(i as int), x),
            decreases list.len() - i,
        {
            let ghost seen_before = seen@;
            let ghost before = repeated@;
            seen.sorted();
            repeated.sorted();
            if seen.insert(list[i].clone(), ()) {
                repeated.insert(list[i].clone(), ());
            }
            proof {
                let k = all[i as int];
                let old_list = all.take(i as int);
                let new_list = all.take(i + 1);
                assert(new_list =~= old_list.push(k));
                assert forall|x: Text| #[trigger] member(seen@, x) == new_list.contains(x) by {
                    crate::ordmap::lemma_put_lookup::<String, ()>(seen_before, k, (), x);
                    lemma_pushed(old_list, k, x);
                    assert(member(seen_before, x) == old_list.contains(x));
                }
                assert(member(seen_before, k) == old_list.contains(k));
                assert forall|x: Text| #[trigger] member(repeated@, x) == repeats(new_list, x) by {
                    crate::ordmap::lemma_put_lookup::<String, ()>(before, k, (), x);
                    lemma_pushed(old_list, k, x);
                    assert(member(before, x) == repeats(old_list, x));
                }
            }
            i += 1;
        }
        assert(all.take(i as int) =~= all);
        Shared { repeated, list: Ghost(all) }
    }

    /// Whether a text occurs more than once.
    pub fn has(&self, x: &String) -> (r: bool)
        ensures
            r == repeats(self@, x@),
    {
        proof {
            use_type_invariant(self);
            assert(member(self.repeated@, x@) == repeats(self@, x@));
        }
        self.repeated.contains_key(x)
    }
}

/// What a list with one more text holds, and what repeats in it.
proof fn lemma_pushed(list: Seq<Text>, k: Text, x: Text)
    ensures
        list.push(k).contains(x) == (list.contains(x) || x == k),
        repeats(list.push(k), x) == (repeats(list, x) || (x == k && list.contains(k))),
{
    let longer = list.push(k);
    assert(longer[list.len() as int] == k);
    assert forall|i: int| 0 <= i < list.len() implies longer[i] == #[trigger] list[i] by {}
    if list.contains(x) {
        let i = list.index_of(x);
        assert(longer[i] == x);
        if x == k {
            assert(longer[i] == x && longer[list.len() as int] == x);
        }
    }
    if repeats(list, x) {
        let (i, j) = choose|i: int, j: int|
            0 <= i < j < list.len() && #[trigger] list[i] == x && #[trigger] list[j] == x;
        assert(longer[i] == x && longer[j] == x);
    }
    if repeats(longer, x) {
        let (i, j) = choose|i: int, j: int|
            0 <= i < j < longer.len() && #[trigger] longer[i] == x && #[trigger] longer[j] == x;
        assert(list[i] == x);
        if j < list.len() {
            assert(list[j] == x);
        }
    }
}

} // verus!
