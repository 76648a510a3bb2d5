//! The memory gate: requests reserve their peak memory before they are read, and
//! wait in order of arrival while it is not free.
use vstd::prelude::*;

use crate::text::{decimal, decimal_of, Text};

verus! {

/// A reservation that exceeds the whole budget.
#[derive(Debug, Clone, Copy, PartialEq, Eq, Structural)]
pub struct NeverFits {
    /// How many bytes were asked for.
    pub requested: u64,
    /// How many bytes there are in all.
    pub budget: u64,
}

/// The message on a reservation that exceeds the whole budget.
pub open spec fn never_fits_text(n: NeverFits) -> Text {
    "reservation of "@ + decimal(n.requested as nat) + " bytes can never fit the total budget of "@
        + decimal(n.budget as nat) + " bytes"@
}

impl NeverFits {
    /// The message of the refusal.
    pub fn message(&self) -> (out: String)
        ensures
            out@ == never_fits_text(*self),
    {
        let mut out = "reservation of ".to_string();
        out.push_str(decimal_of(self.requested).as_str());
        out.push_str(" bytes can never fit the total budget of ");
        out.push_str(decimal_of(self.budget).as_str());
        out.push_str(" bytes");
        out
    }
}

/// A request at the memory gate: its number and the bytes it asks for.
#[derive(Debug, Clone, Copy, PartialEq, Eq, Structural)]
pub struct Guard {
    /// The number of the request, which no other request has at the same time.
    pub id: u128,
    /// The bytes it asks for.
    pub bytes: u64,
}

/// The bytes of a list of requests.
pub open spec fn total(list: Seq<Guard>) -> nat
    decreases list.len(),
{
    if list.len() == 0 {
        0
    } else {
        total(list.drop_last()) + list.last().bytes as nat
    }
}

/// The state of the memory gate: the requests that hold memory, and those that wait, in
/// order of arrival.
#[verifier::ext_equal]
pub struct GateV {
    pub budget: nat,
    pub live: Seq<Guard>,
    pub queue: Seq<Guard>,
}

/// The bytes that are free.
pub open spec fn free_of(g: GateV) -> int {
    g.budget - total(g.live)
}

/// Whether the reservations fit the budget, every waiting request would fit it, the
/// next in line does not fit now, and the requests are numbered.
pub open spec fn sound(g: GateV) -> bool {
    &&& total(g.live) <= g.budget
    &&& forall|i: int| 0 <= i < g.queue.len() ==> (#[trigger] g.queue[i]).bytes <= g.budget
    &&& g.queue.len() > 0 ==> g.queue[0].bytes > free_of(g)
    &&& numbered(g)
}

/// Whether no two requests have the same number.
pub open spec fn numbered(g: GateV) -> bool {
    &&& distinct(g.live)
    &&& distinct(g.queue)
    &&& forall|i: int, j: int|
        0 <= i < g.live.len() && 0 <= j < g.queue.len() ==> (#[trigger] g.live[i]).id != (
        #[trigger] g.queue[j]).id
}

/// Whether no two requests of a list have the same number.
pub open spec fn distinct(list: Seq<Guard>) -> bool {
    forall|i: int, j: int|
        0 <= i < j < list.len() ==> (#[trigger] list[i]).id != (#[trigger] list[j]).id
}

/// Whether a request has a number.
pub open spec fn taken(g: GateV, n: nat) -> bool {
    has_number(g.live, n) || has_number(g.queue, n)
}

/// Whether a list has a request with a number.
pub open spec fn has_number(list: Seq<Guard>, n: nat) -> bool {
    exists|i: int| 0 <= i < list.len() && (#[trigger] list[i]).id == n
}

/// The least number, from `n` on, that no request has.
pub open spec fn free_number(g: GateV, n: nat) -> nat
    decreases g.live.len() + g.queue.len() + 1 - n,
{
    if n > g.live.len() + g.queue.len() || !taken(g, n) {
        n
    } else {
        free_number(g, n + 1)
    }
}

/// The memory gate after those first in line that fit have been let in.
pub open spec fn drained(g: GateV) -> GateV
    decreases g.queue.len(),
{
    if g.queue.len() > 0 && g.queue[0].bytes <= free_of(g) {
        drained(
            GateV { live: g.live.push(g.queue[0]), queue: g.queue.drop_first(), ..g },
        )
    } else {
        g
    }
}

/// How many of those first in line fit.
pub open spec fn admitted(g: GateV) -> nat
    decreases g.queue.len(),
{
    if g.queue.len() > 0 && g.queue[0].bytes <= free_of(g) {
        admitted(GateV { live: g.live.push(g.queue[0]), queue: g.queue.drop_first(), ..g }) + 1
    } else {
        0
    }
}

/// The list without the request with this number.
pub open spec fn removed(list: Seq<Guard>, id: u128) -> Seq<Guard>
    decreases list.len(),
{
    if list.len() == 0 {
        list
    } else if list.last().id == id {
        list.drop_last()
    } else {
        removed(list.drop_last(), id).push(list.last())
    }
}

/// Whether a list has a request with this number.
pub open spec fn has_id(list: Seq<Guard>, id: u128) -> bool {
    exists|i: int| 0 <= i < list.len() && (#[trigger] list[i]).id == id
}

/// The request that arrives: it has the least number that no other has.
pub open spec fn newcomer(g: GateV, bytes: u64) -> Guard {
    Guard { id: free_number(g, 0) as u128, bytes }
}

/// The memory gate after a request has arrived.
pub open spec fn arrived(g: GateV, bytes: u64) -> GateV {
    drained(GateV { queue: g.queue.push(newcomer(g, bytes)), ..g })
}

/// The memory gate after a reservation has ended.
pub open spec fn released(g: GateV, id: u128) -> GateV {
    drained(GateV { live: removed(g.live, id), ..g })
}

/// The memory gate after a waiting request has been given up.
pub open spec fn given_up(g: GateV, id: u128) -> GateV {
    drained(GateV { queue: removed(g.queue, id), ..g })
}

/// The memory gate.
#[derive(Debug)]
pub struct MemGate {
    budget: u64,
    free: u64,
    live: Vec<Guard>,
    queue: Vec<Guard>,
}

impl View for MemGate {
    type V = GateV;

    closed spec fn view(&self) -> GateV {
        GateV { budget: self.budget as nat, live: self.live@, queue: self.queue@ }
    }
}

impl MemGate {
    /// Whether the free bytes are counted right.
    pub closed spec fn counted(&self) -> bool {
        self.free == free_of(self@)
    }

    /// Whether the state of the memory gate is sound, and the free bytes are counted right.
    pub open spec fn wf(&self) -> bool {
        sound(self@) && self.counted()
    }

    /// A gate with nothing reserved.
    pub fn new(budget: u64) -> (g: MemGate)
        ensures
            g.wf(),
            g@ == (GateV { budget: budget as nat, live: Seq::empty(), queue: Seq::empty() }),
    {
        MemGate { budget, free: budget, live: Vec::new(), queue: Vec::new() }
    }

    /// The whole budget.
    pub fn budget(&self) -> (n: u64)
        ensures
            n == self@.budget,
    {
        self.budget
    }

    /// The bytes that are free.
    pub fn available(&self) -> (n: u64)
        requires
            self.wf(),
        ensures
            n == free_of(self@),
    {
        self.free
    }

    /// How many requests wait.
    pub fn waiting(&self) -> (n: usize)
        ensures
            n == self@.queue.len(),
    {
        self.queue.len()
    }

    /// Whether the request with this number holds memory.
    pub fn holds(&self, id: u128) -> (r: bool)
        ensures
            r == has_id(self@.live, id),
    {
        let mut i: usize = 0;
        while i < self.live.len()
            invariant
                i <= self.live.len(),
                forall|j: int| 0 <= j < i ==> (#[trigger] self.live@[j]).id != id,
            decreases self.live.len() - i,
        {
            if self.live[i].id == id {
                assert(self.live@[i as int].id == id);
                return true;
            }
            i += 1;
        }
        false
    }

    /// Whether a request that waits has this number.
    fn awaits(&self, id: u128) -> (r: bool)
        ensures
            r == has_id(self@.queue, id),
    {
        let mut i: usize = 0;
        while i < self.queue.len()
            invariant
                i <= self.queue.len(),
                forall|j: int| 0 <= j < i ==> (#[trigger] self.queue@[j]).id != id,
            decreases self.queue.len() - i,
        {
            if self.queue[i].id == id {
                assert(self.queue@[i as int].id == id);
                return true;
            }
            i += 1;
        }
        false
    }

    /// The least number that no request has.
    fn number(&self) -> (n: u128)
        ensures
            n == free_number(self@, 0),
            !taken(self@, n as nat),
    {
        let ghost g = self@;
        let mut n: u128 = 0;
        while self.holds(n) || self.awaits(n)
            invariant
                g == self@,
                forall|j: nat| j < n ==> #[trigger] taken(g, j),
                free_number(g, 0) == free_number(g, n as nat),
            decreases g.live.len() + g.queue.len() + 1 - n,
        {
            proof {
                assert(taken(g, n as nat));
                lemma_taken_are_few(g, (n + 1) as nat);
                assert(g.live.len() == self.live.len() && g.queue.len() == self.queue.len());
            }
            n += 1;
        }
        n
    }

    /// Lets in those first in line that fit.
    fn drain(&mut self)
        requires
            total(old(self)@.live) <= old(self)@.budget,
            old(self).free == free_of(old(self)@),
            forall|i: int|
                0 <= i < old(self)@.queue.len() ==> (#[trigger] old(self)@.queue[i]).bytes <= old(
                    self,
                )@.budget,
            numbered(old(self)@),
        ensures
            final(self).wf(),
            final(self)@ == drained(old(self)@),
    {
        let ghost start = self@;
        while self.queue.len() > 0 && self.queue[0].bytes <= self.free
            invariant
                drained(start) == drained(self@),
                total(self@.live) <= self@.budget,
                self.free == free_of(self@),
                forall|i: int|
                    0 <= i < self@.queue.len() ==> (#[trigger] self@.queue[i]).bytes
                        <= self@.budget,
                numbered(self@),
            decreases self.queue.len(),
        {
            let ghost before = self@;
            let first = self.queue.remove(0);
            self.live.push(first);
            self.free = self.free - first.bytes;
            proof {
                assert(before.queue[0] == first);
                assert(self@.queue =~= before.queue.drop_first());
                assert(self@.live =~= before.live.push(first));
                lemma_total_push(before.live, first);
                assert forall|i: int| 0 <= i < self@.queue.len() implies (
                #[trigger] self@.queue[i]).bytes <= self@.budget by {
                    assert(self@.queue[i] == before.queue[i + 1]);
                }
                assert forall|i: int, j: int| 0 <= i < j < self@.queue.len() implies (
                #[trigger] self@.queue[i]).id != (#[trigger] self@.queue[j]).id by {
                    assert(self@.queue[i] == before.queue[i + 1]);
                    assert(self@.queue[j] == before.queue[j + 1]);
                }
                assert forall|i: int, j: int| 0 <= i < j < self@.live.len() implies (
                #[trigger] self@.live[i]).id != (#[trigger] self@.live[j]).id by {
                    assert(self@.live[i] == before.live[i]);
                    if j < before.live.len() {
                        assert(self@.live[j] == before.live[j]);
                    } else {
                        assert(self@.live[j] == before.queue[0]);
                    }
                }
                assert forall|i: int, j: int|
                    0 <= i < self@.live.len() && 0 <= j < self@.queue.len() implies (
                #[trigger] self@.live[i]).id != (#[trigger] self@.queue[j]).id by {
                    assert(self@.queue[j] == before.queue[j + 1]);
                    if i < before.live.len() {
                        assert(self@.live[i] == before.live[i]);
                    } else {
                        assert(self@.live[i] == before.queue[0]);
                    }
                }
            }
        }
    }

    /// A request arrives. It is refused only if it exceeds the whole budget; else
    /// it holds its bytes at once, if it fits and nobody waits, or it waits behind
    /// those that came before.
    pub fn acquire(&mut self, bytes: u64) -> (r: Result<Guard, NeverFits>)
        requires
            old(self).wf(),
        ensures
            final(self).wf(),
            match r {
                Err(e) => bytes > old(self)@.budget && e.requested == bytes && e.budget == old(
                    self,
                )@.budget && final(self)@ == old(self)@,
                Ok(guard) => bytes <= old(self)@.budget && guard == newcomer(old(self)@, bytes)
                    && !has_id(old(self)@.live, guard.id) && !has_id(old(self)@.queue, guard.id)
                    && final(self)@ == arrived(old(self)@, bytes),
            },
    {
        if bytes > self.budget {
            return Err(NeverFits { requested: bytes, budget: self.budget });
        }
        let ghost before = self@;
        let guard = Guard { id: self.number(), bytes };
        self.queue.push(guard);
        proof {
            let q = before.queue.push(guard);
            assert(self@.queue =~= q);
            assert(!has_id(before.live, guard.id) && !has_id(before.queue, guard.id)) by {
                assert(!has_number(before.live, guard.id as nat));
                assert(!has_number(before.queue, guard.id as nat));
            }
            assert forall|i: int| 0 <= i < q.len() implies (#[trigger] q[i]).bytes
                <= self@.budget by {
                if i < before.queue.len() {
                    assert(q[i] == before.queue[i]);
                }
            }
            assert forall|i: int, j: int| 0 <= i < j < q.len() implies (#[trigger] q[i]).id != (
            #[trigger] q[j]).id by {
                assert(q[i] == before.queue[i]);
                if j < before.queue.len() {
                    assert(q[j] == before.queue[j]);
                }
            }
            assert forall|i: int, j: int|
                0 <= i < before.live.len() && 0 <= j < q.len() implies (
            #[trigger] before.live[i]).id != (#[trigger] q[j]).id by {
                if j < before.queue.len() {
                    assert(q[j] == before.queue[j]);
                }
            }
        }
        self.drain();
        Ok(guard)
    }

    /// A reservation ends, and those first in line that now fit hold theirs.
    pub fn release(&mut self, id: u128)
        requires
            old(self).wf(),
        ensures
            final(self).wf(),
            final(self)@ == released(old(self)@, id),
    {
        let ghost before = self@;
        proof {
            lemma_removed(before.live, id);
            lemma_removed_numbered(before, id);
        }
        let mut i: usize = self.live.len();
        assert(self.live@.take(i as int) =~= self.live@);
        assert(removed(self.live@, id) =~= removed(self.live@.take(i as int), id)
            + self.live@.skip(i as int));
        while i > 0 && self.live[i - 1].id != id
            invariant
                i <= self.live.len(),
                self@ == before,
                self.free == free_of(before),
                removed(before.live, id) == removed(before.live.take(i as int), id)
                    + before.live.skip(i as int),
            decreases i,
        {
            i -= 1;
            proof {
                let t = before.live.take(i + 1);
                assert(t.drop_last() =~= before.live.take(i as int));
                assert(t.last() == before.live[i as int]);
                assert(removed(t, id) == removed(before.live.take(i as int), id).push(
                    before.live[i as int],
                ));
                assert(removed(before.live.take(i as int), id).push(before.live[i as int])
                    + before.live.skip(i + 1) =~= removed(before.live.take(i as int), id)
                    + before.live.skip(i as int));
            }
        }
        if i > 0 {
            proof {
                let t = before.live.take(i as int);
                assert(t.last() == before.live[i - 1]);
                assert(removed(t, id) == t.drop_last());
                lemma_total_remove(before.live, i - 1);
            }
            let gone = self.live.remove(i - 1);
            proof {
                assert(self.live@ =~= before.live.remove(i - 1));
                assert(before.live.remove(i - 1) =~= before.live.take(i as int).drop_last()
                    + before.live.skip(i as int));
            }
            self.free = self.free + gone.bytes;
        } else {
            proof {
                assert(before.live.take(0) =~= Seq::<Guard>::empty());
                assert(removed(before.live, id) =~= before.live);
            }
        }
        self.drain();
    }

    /// A waiting request is given up. It never held anything.
    pub fn cancel(&mut self, id: u128)
        requires
            old(self).wf(),
        ensures
            final(self).wf(),
            final(self)@ == given_up(old(self)@, id),
    {
        let ghost before = self@;
        proof {
            lemma_removed(before.queue, id);
            lemma_removed_numbered(before, id);
        }
        let mut i: usize = self.queue.len();
        assert(self.queue@.take(i as int) =~= self.queue@);
        assert(removed(self.queue@, id) =~= removed(self.queue@.take(i as int), id)
            + self.queue@.skip(i as int));
        while i > 0 && self.queue[i - 1].id != id
            invariant
                i <= self.queue.len(),
                self@ == before,
                self.free == free_of(before),
                removed(before.queue, id) == removed(before.queue.take(i as int), id)
                    + before.queue.skip(i as int),
            decreases i,
        {
            i -= 1;
            proof {
                let t = before.queue.take(i + 1);
                assert(t.drop_last() =~= before.queue.take(i as int));
                assert(t.last() == before.queue[i as int]);
                assert(removed(t, id) == removed(before.queue.take(i as int), id).push(
                    before.queue[i as int],
                ));
                assert(removed(before.queue.take(i as int), id).push(before.queue[i as int])
                    + before.queue.skip(i + 1) =~= removed(before.queue.take(i as int), id)
                    + before.queue.skip(i as int));
            }
        }
        if i > 0 {
            proof {
                let t = before.queue.take(i as int);
                assert(t.last() == before.queue[i - 1]);
                assert(removed(t, id) == t.drop_last());
            }
            self.queue.remove(i - 1);
            proof {
                assert(self.queue@ =~= before.queue.remove(i - 1));
                assert(before.queue.remove(i - 1) =~= before.queue.take(i as int).drop_last()
                    + before.queue.skip(i as int));
            }
        } else {
            proof {
                assert(before.queue.take(0) =~= Seq::<Guard>::empty());
                assert(removed(before.queue, id) =~= before.queue);
            }
        }
        self.drain();
    }
}

proof fn lemma_total_push(list: Seq<Guard>, g: Guard)
    ensures
        total(list.push(g)) == total(list) + g.bytes,
{
    assert(list.push(g).drop_last() =~= list);
}

proof fn lemma_total_remove(list: Seq<Guard>, i: int)
    requires
        0 <= i < list.len(),
    ensures
        total(list.remove(i)) + list[i].bytes == total(list),
    decreases list.len(),
{
    if i == list.len() - 1 {
        assert(list.remove(i) =~= list.drop_last());
    } else {
        lemma_total_remove(list.drop_last(), i);
        assert(list.remove(i).drop_last() =~= list.drop_last().remove(i));
        assert(list.remove(i).last() == list.last());
    }
}

/// What is left of a list after a removal was in it before.
proof fn lemma_removed(list: Seq<Guard>, id: u128)
    ensures
        forall|i: int|
            0 <= i < removed(list, id).len() ==> list.contains(#[trigger] removed(list, id)[i]),
        total(removed(list, id)) <= total(list),
    decreases list.len(),
{
    if list.len() > 0 {
        lemma_removed(list.drop_last(), id);
        let r = removed(list, id);
        assert forall|i: int| 0 <= i < r.len() implies list.contains(#[trigger] r[i]) by {
            if list.last().id == id {
                assert(r[i] == list[i]);
            } else if i < r.len() - 1 {
                let p = removed(list.drop_last(), id);
                assert(r[i] == p[i]);
                assert(list.drop_last().contains(p[i]));
                let k = list.drop_last().index_of(p[i]);
                assert(list[k] == r[i]);
            } else {
                assert(list[list.len() - 1] == r[i]);
            }
        }
        if list.last().id != id {
            lemma_total_push(removed(list.drop_last(), id), list.last());
        }
    }
}

/// A removal takes away the request with the number, if there is one, and leaves the
/// others in their order.
proof fn lemma_removed_at(list: Seq<Guard>, id: u128) -> (k: int)
    ensures
        k == -1 || 0 <= k < list.len(),
        k == -1 ==> removed(list, id) == list && !has_id(list, id),
        k >= 0 ==> list[k].id == id && removed(list, id) == list.remove(k),
    decreases list.len(),
{
    if list.len() == 0 {
        -1
    } else if list.last().id == id {
        let k = list.len() - 1;
        assert(list.remove(k) =~= list.drop_last());
        k
    } else {
        let head = list.drop_last();
        let k = lemma_removed_at(head, id);
        if k == -1 {
            assert(removed(list, id) =~= list);
            assert forall|i: int| 0 <= i < list.len() implies (#[trigger] list[i]).id != id by {
                if i < head.len() {
                    assert(head[i] == list[i]);
                }
            }
        } else {
            assert(removed(list, id) =~= list.remove(k));
            assert(head[k] == list[k]);
        }
        k
    }
}

/// The requests stay numbered when one is removed from those that hold memory or
/// from those that wait.
proof fn lemma_removed_numbered(g: GateV, id: u128)
    requires
        numbered(g),
    ensures
        numbered(GateV { live: removed(g.live, id), ..g }),
        numbered(GateV { queue: removed(g.queue, id), ..g }),
{
    let k = lemma_removed_at(g.live, id);
    if k >= 0 {
        let r = removed(g.live, id);
        assert forall|i: int, j: int| 0 <= i < j < r.len() implies (#[trigger] r[i]).id != (
        #[trigger] r[j]).id by {
            assert(r[i] == g.live[if i < k { i } else { i + 1 }]);
            assert(r[j] == g.live[if j < k { j } else { j + 1 }]);
        }
        assert forall|i: int, j: int| 0 <= i < r.len() && 0 <= j < g.queue.len() implies (
        #[trigger] r[i]).id != (#[trigger] g.queue[j]).id by {
            assert(r[i] == g.live[if i < k { i } else { i + 1 }]);
        }
    }
    let m = lemma_removed_at(g.queue, id);
    if m >= 0 {
        let q = removed(g.queue, id);
        assert forall|i: int, j: int| 0 <= i < j < q.len() implies (#[trigger] q[i]).id != (
        #[trigger] q[j]).id by {
            assert(q[i] == g.queue[if i < m { i } else { i + 1 }]);
            assert(q[j] == g.queue[if j < m { j } else { j + 1 }]);
        }
        assert forall|i: int, j: int| 0 <= i < g.live.len() && 0 <= j < q.len() implies (
        #[trigger] g.live[i]).id != (#[trigger] q[j]).id by {
            assert(q[j] == g.queue[if j < m { j } else { j + 1 }]);
        }
    }
}

/// The reservations that are held never exceed the budget: the free bytes and those
/// that are held make up the budget.
pub proof fn law_reservations_fit_the_budget(g: GateV)
    requires
        sound(g),
    ensures
        total(g.live) <= g.budget,
        free_of(g) >= 0,
        free_of(g) + total(g.live) == g.budget,
{
}

/// Ending a reservation gives back exactly its bytes, whoever else holds memory or
/// waits: they are free before those first in line take theirs, every other
/// reservation stays, and the request holds and awaits nothing any more.
pub proof fn law_release_gives_back_its_bytes(g: GateV, i: int)
    requires
        sound(g),
        0 <= i < g.live.len(),
    ensures
        ({
            let guard = g.live[i];
            let left = GateV { live: g.live.remove(i), ..g };
            let after = released(g, guard.id);
            &&& free_of(left) == free_of(g) + guard.bytes
            &&& after == drained(left)
            &&& after.live == left.live + g.queue.take(admitted(left) as int)
            &&& after.queue == g.queue.skip(admitted(left) as int)
            &&& free_of(after) == free_of(g) + guard.bytes - total(
                g.queue.take(admitted(left) as int),
            )
            &&& g.queue.len() == 0 ==> free_of(after) == free_of(g) + guard.bytes
            &&& !has_id(after.live, guard.id)
            &&& !has_id(after.queue, guard.id)
        }),
{
    let guard = g.live[i];
    let left = GateV { live: g.live.remove(i), ..g };
    let after = released(g, guard.id);
    let k = lemma_removed_at(g.live, guard.id);
    if k == -1 {
        assert(has_id(g.live, guard.id));
    } else if k < i {
        assert(g.live[k].id != g.live[i].id);
    } else if k > i {
        assert(g.live[i].id != g.live[k].id);
    }
    lemma_total_remove(g.live, i);
    lemma_drained(left);
    let n = admitted(left) as int;
    lemma_total_append(left.live, g.queue.take(n));
    if g.queue.len() == 0 {
        assert(g.queue.take(n).len() == 0);
    }
    assert forall|j: int| 0 <= j < after.live.len() implies (#[trigger] after.live[j]).id
        != guard.id by {
        if j < i {
            assert(after.live[j] == g.live[j]);
        } else if j < left.live.len() {
            assert(after.live[j] == g.live[j + 1]);
        } else {
            assert(after.live[j] == g.queue[j - left.live.len()]);
        }
    }
    assert forall|j: int| 0 <= j < after.queue.len() implies (#[trigger] after.queue[j]).id
        != guard.id by {
        assert(after.queue[j] == g.queue[j + n]);
    }
}

/// A request that arrives takes its bytes or waits for all of them: what is free
/// falls by the bytes of those that are let in, and by nothing else.
pub proof fn law_admission_takes_exactly_its_bytes(g: GateV)
    requires
        total(g.live) <= g.budget,
    ensures
        free_of(drained(g)) == free_of(g) - total(g.queue.take(admitted(g) as int)),
        free_of(drained(g)) >= 0,
{
    lemma_drained(g);
    lemma_total_append(g.live, g.queue.take(admitted(g) as int));
}

proof fn lemma_total_append(a: Seq<Guard>, b: Seq<Guard>)
    ensures
        total(a + b) == total(a) + total(b),
    decreases b.len(),
{
    if b.len() == 0 {
        assert(a + b =~= a);
    } else {
        lemma_total_append(a, b.drop_last());
        assert((a + b).drop_last() =~= a + b.drop_last());
    }
}

proof fn lemma_drained(g: GateV)
    requires
        total(g.live) <= g.budget,
    ensures
        total(drained(g).live) <= g.budget,
        admitted(g) <= g.queue.len(),
        drained(g).live =~= g.live + g.queue.take(admitted(g) as int),
        drained(g).queue =~= g.queue.skip(admitted(g) as int),
        drained(g).budget == g.budget,
    decreases g.queue.len(),
{
    if g.queue.len() > 0 && g.queue[0].bytes <= free_of(g) {
        let h = GateV { live: g.live.push(g.queue[0]), queue: g.queue.drop_first(), ..g };
        lemma_total_push(g.live, g.queue[0]);
        lemma_drained(h);
        let k = admitted(h) as int;
        assert(g.live + g.queue.take(k + 1) =~= h.live + h.queue.take(k));
        assert(g.queue.skip(k + 1) =~= h.queue.skip(k));
    }
}

/// Requests are let in in order of arrival: those that are let in are the first of
/// the queue, and those that wait keep their order behind them.
pub proof fn law_admission_is_in_order(g: GateV)
    requires
        total(g.live) <= g.budget,
    ensures
        admitted(g) <= g.queue.len(),
        drained(g).live == g.live + g.queue.take(admitted(g) as int),
        drained(g).queue == g.queue.skip(admitted(g) as int),
{
    lemma_drained(g);
}

/// While anyone waits, an arriving request waits behind them, even if it would fit.
pub proof fn law_arrivals_do_not_overtake(g: GateV, bytes: u64)
    requires
        sound(g),
        g.queue.len() > 0,
    ensures
        arrived(g, bytes).live == g.live,
        arrived(g, bytes).queue == g.queue.push(newcomer(g, bytes)),
{
    let q = g.queue.push(newcomer(g, bytes));
    assert(q[0] == g.queue[0]);
}

/// A request that fits while nobody waits holds its bytes at once.
pub proof fn law_fitting_request_is_admitted(g: GateV, bytes: u64)
    requires
        sound(g),
        g.queue.len() == 0,
        bytes <= free_of(g),
    ensures
        arrived(g, bytes).live == g.live.push(newcomer(g, bytes)),
        arrived(g, bytes).queue.len() == 0,
        free_of(arrived(g, bytes)) == free_of(g) - bytes,
{
    let guard = newcomer(g, bytes);
    let a = GateV { queue: g.queue.push(guard), ..g };
    assert(a.queue[0] == guard);
    let b = GateV { live: a.live.push(guard), queue: a.queue.drop_first(), ..a };
    assert(b.queue.len() == 0);
    assert(drained(a) == drained(b));
    assert(drained(b) == b);
    lemma_total_push(g.live, guard);
}

/// A request that arrives takes all its bytes at once, where they are free and nobody
/// waits, or else takes none and waits behind the others.
pub proof fn law_arrival_takes_all_or_nothing(g: GateV, bytes: u64)
    requires
        sound(g),
        bytes <= g.budget,
    ensures
        g.queue.len() == 0 && bytes <= free_of(g) ==> free_of(arrived(g, bytes)) == free_of(g)
            - bytes && arrived(g, bytes).live == g.live.push(newcomer(g, bytes))
            && arrived(g, bytes).queue == g.queue,
        g.queue.len() > 0 || bytes > free_of(g) ==> arrived(g, bytes).live == g.live && arrived(
            g,
            bytes,
        ).queue == g.queue.push(newcomer(g, bytes)) && free_of(arrived(g, bytes)) == free_of(g),
{
    if g.queue.len() > 0 {
        law_arrivals_do_not_overtake(g, bytes);
    } else if bytes <= free_of(g) {
        law_fitting_request_is_admitted(g, bytes);
        assert(arrived(g, bytes).queue =~= g.queue);
    } else {
        let q = g.queue.push(newcomer(g, bytes));
        assert(q[0] == newcomer(g, bytes));
    }
}

/// Releasing what was reserved while nobody waited leaves the memory gate as it was.
pub proof fn law_release_undoes_acquire(g: GateV, bytes: u64)
    requires
        sound(g),
        g.queue.len() == 0,
        bytes <= free_of(g),
    ensures
        released(arrived(g, bytes), newcomer(g, bytes).id) == g,
{
    law_fitting_request_is_admitted(g, bytes);
    let guard = newcomer(g, bytes);
    let a = arrived(g, bytes);
    lemma_drained(GateV { queue: g.queue.push(guard), ..g });
    assert(a.live.last() == guard);
    assert(removed(a.live, guard.id) =~= g.live);
    assert(a.queue =~= g.queue);
    assert(drained(GateV { live: g.live, ..a }) == GateV { live: g.live, ..a });
}

/// Giving up a waiting request changes what is held only by letting in others: what
/// was held before is held after, and the request that was given up is not let in.
pub proof fn law_cancelled_request_holds_nothing(g: GateV, id: u128)
    requires
        sound(g),
        !has_id(g.live, id),
    ensures
        g.live.is_prefix_of(given_up(g, id).live),
        !has_id(given_up(g, id).live, id),
{
    let h = GateV { queue: removed(g.queue, id), ..g };
    lemma_drained(h);
    lemma_removed_lacks(g.queue, id);
    let after = given_up(g, id).live;
    let k = admitted(h) as int;
    assert(after =~= g.live + h.queue.take(k));
    assert(after.subrange(0, g.live.len() as int) =~= g.live);
    if has_id(after, id) {
        let i = choose|i: int| 0 <= i < after.len() && (#[trigger] after[i]).id == id;
        if i < g.live.len() {
            assert(g.live[i].id == id);
        } else {
            assert(h.queue[i - g.live.len()] == after[i]);
            assert(has_id(h.queue, id));
        }
    }
}

proof fn lemma_removed_lacks(list: Seq<Guard>, id: u128)
    requires
        distinct(list),
    ensures
        !has_id(removed(list, id), id),
{
    let k = lemma_removed_at(list, id);
    if k >= 0 {
        let r = removed(list, id);
        assert forall|i: int| 0 <= i < r.len() implies (#[trigger] r[i]).id != id by {
            if i < k {
                assert(r[i] == list[i]);
            } else {
                assert(r[i] == list[i + 1]);
            }
        }
    }
}

/// Where every number below `n` is taken, there are at least `n` requests.
proof fn lemma_taken_are_few(g: GateV, n: nat)
    requires
        forall|j: nat| j < n ==> #[trigger] taken(g, j),
    ensures
        n <= g.live.len() + g.queue.len(),
{
    broadcast use vstd::seq_lib::seq_to_set_is_finite;

    let all = (g.live + g.queue).map_values(|r: Guard| r.id as int);
    let low = vstd::set_lib::set_int_range(0, n as int);
    vstd::set_lib::lemma_int_range(0, n as int);
    assert(low.subset_of(all.to_set())) by {
        assert forall|j: int| low.contains(j) implies all.to_set().contains(j) by {
            assert(taken(g, j as nat));
            if has_number(g.live, j as nat) {
                let i = choose|i: int|
                    0 <= i < g.live.len() && (#[trigger] g.live[i]).id == j as nat;
                assert(all[i] == j);
            } else {
                let i = choose|i: int|
                    0 <= i < g.queue.len() && (#[trigger] g.queue[i]).id == j as nat;
                assert(all[g.live.len() + i] == j);
            }
        }
    }
    all.lemma_cardinality_of_set();
    vstd::set_lib::lemma_len_subset(low, all.to_set());
}

/// Giving up a waiting request takes it out of the line and leaves the others as they stand;
/// those that fit are then let in, in order.
pub proof fn law_giving_up_leaves_the_others(g: GateV, i: int)
    requires
        sound(g),
        0 <= i < g.queue.len(),
    ensures
        ({
            let left = GateV { queue: g.queue.remove(i), ..g };
            let after = given_up(g, g.queue[i].id);
            &&& after == drained(left)
            &&& after.live == g.live + left.queue.take(admitted(left) as int)
            &&& after.queue == left.queue.skip(admitted(left) as int)
            &&& i > 0 ==> after == left
        }),
{
    let id = g.queue[i].id;
    let k = lemma_removed_at(g.queue, id);
    assert(has_id(g.queue, id));
    assert(k == i) by {
        if k != i {
            assert(g.queue[k].id == g.queue[i].id);
        }
    }
    let left = GateV { queue: g.queue.remove(i), ..g };
    assert(GateV { queue: removed(g.queue, id), ..g } == left);
    law_admission_is_in_order(left);
    if i > 0 {
        assert(left.queue[0] == g.queue[0]);
    }
}

} // verus!
