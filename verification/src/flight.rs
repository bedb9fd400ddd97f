//! The chains that are in flight, between being offered to the device and being
//! taken back, and the laws of a queue whose device keeps to the rules.

use crate::cell;
use crate::error::HandleIntrError;
use crate::inner::VirtQueueInner;
use crate::ring::{Buffer, DescState};
use crate::state;
use crate::state::{Entry, QueueState};
use core::task::Waker;
use vstd::prelude::*;

verus! {

/// `c` is laid out in the table as a chain: every descriptor but the last has the
/// one behind it as its successor, and the last has none.
pub open spec fn linked_as(desc: Seq<DescState>, c: Seq<u16>) -> bool {
    &&& c.len() > 0
    &&& forall|i: int| 0 <= i < c.len() ==> (#[trigger] c[i]) < desc.len()
    &&& forall|i: int| #![trigger c[i]]
        0 <= i < c.len() - 1 ==> {
            &&& state::has_next(desc[c[i] as int].flags)
            &&& desc[c[i] as int].next == c[i + 1]
        }
    &&& !state::has_next(desc[c.last() as int].flags)
}

/// The chains of `live` are in flight and everything else is free: each of them is
/// laid out in the table, no descriptor stands in two of them or in one of them
/// and the free list, and together they are the descriptors in use.
pub open spec fn in_flight(q: QueueState, live: Seq<Seq<u16>>) -> bool {
    &&& q.wf()
    &&& forall|i: int| 0 <= i < live.len() ==> linked_as(q.desc, #[trigger] live[i])
    &&& (q.free_list() + live.flatten()).no_duplicates()
    &&& live.flatten().len() == q.num_used
}

/// All entries but the last have a successor.
pub open spec fn chained(list: Seq<Entry>) -> bool {
    &&& list.len() > 0
    &&& forall|k: int|
        0 <= k < list.len() ==> state::has_next((#[trigger] list[k]).flags) == (k < list.len() - 1)
}

/// What is laid out as a chain is what the walk along the chain finds.
pub proof fn lemma_linked_is_chain(desc: Seq<DescState>, c: Seq<u16>, limit: nat)
    requires
        linked_as(desc, c),
        c.len() <= limit,
    ensures
        state::chain(desc, c[0], limit) == Some(c),
    decreases c.len(),
{
    assert(c[0] < desc.len());
    if c.len() == 1 {
        assert(c =~= seq![c[0]]);
    } else {
        let rest = c.skip(1);
        assert(rest.last() == c.last());
        assert forall|i: int| 0 <= i < rest.len() implies (#[trigger] rest[i]) < desc.len() by {
            assert(rest[i] == c[i + 1]);
        }
        assert forall|i: int| #![trigger rest[i]] 0 <= i < rest.len() - 1 implies state::has_next(
            desc[rest[i] as int].flags,
        ) && desc[rest[i] as int].next == rest[i + 1] by {
            assert(rest[i] == c[i + 1]);
        }
        lemma_linked_is_chain(desc, rest, (limit - 1) as nat);
        assert(c =~= seq![c[0]] + rest);
    }
}

/// Two sequences that are the same up to order are both free of duplicates or
/// both not.
proof fn lemma_reordered(a: Seq<u16>, b: Seq<u16>)
    requires
        a.no_duplicates(),
        a.to_multiset() == b.to_multiset(),
    ensures
        b.no_duplicates(),
{
    a.lemma_multiset_has_no_duplicates();
    b.lemma_multiset_has_no_duplicates_conv();
}

/// Distinct parts of a sequence without duplicates.
proof fn lemma_concat_parts(a: Seq<u16>, b: Seq<u16>)
    requires
        (a + b).no_duplicates(),
    ensures
        a.no_duplicates(),
        b.no_duplicates(),
        forall|i: int, j: int|
            0 <= i < a.len() && 0 <= j < b.len() ==> #[trigger] a[i] != #[trigger] b[j],
{
    let ab = a + b;
    assert forall|i: int, j: int| 0 <= i < a.len() && 0 <= j < a.len() && i != j implies a[i]
        != a[j] by {
        assert(ab[i] == a[i] && ab[j] == a[j]);
    }
    assert forall|i: int, j: int| 0 <= i < b.len() && 0 <= j < b.len() && i != j implies b[i]
        != b[j] by {
        assert(ab[a.len() + i] == b[i] && ab[a.len() + j] == b[j]);
    }
    assert forall|i: int, j: int| 0 <= i < a.len() && 0 <= j < b.len() implies #[trigger] a[i]
        != #[trigger] b[j] by {
        assert(ab[i] == a[i] && ab[a.len() + j] == b[j]);
    }
}

/// The flat sequence of the chains, with one of them pulled out.
proof fn lemma_flatten_split(live: Seq<Seq<u16>>, i: int)
    requires
        0 <= i < live.len(),
    ensures
        live.flatten() == live.take(i).flatten() + live[i] + live.skip(i + 1).flatten(),
        live.remove(i).flatten() == live.take(i).flatten() + live.skip(i + 1).flatten(),
{
    let a = live.take(i);
    let b = live.skip(i + 1);
    assert(live =~= a.push(live[i]) + b);
    assert(live.remove(i) =~= a + b);
    vstd::seq_lib::lemma_flatten_concat(a.push(live[i]), b);
    vstd::seq_lib::lemma_flatten_concat(a, b);
    a.lemma_flatten_push(live[i]);
}

/// A descriptor of a chain in flight is not in the free list.
proof fn lemma_live_not_free(q: QueueState, live: Seq<Seq<u16>>, i: int, k: int, f: int)
    requires
        in_flight(q, live),
        0 <= i < live.len(),
        0 <= k < live[i].len(),
        0 <= f < q.free_list().len(),
    ensures
        live[i][k] != q.free_list()[f],
{
    lemma_flatten_split(live, i);
    lemma_concat_parts(q.free_list(), live.flatten());
    let before = live.take(i).flatten();
    assert(live.flatten()[before.len() + k] == live[i][k]);
}

/// Descriptors of two chains in flight differ.
proof fn lemma_live_disjoint(q: QueueState, live: Seq<Seq<u16>>, i: int, j: int, k: int, m: int)
    requires
        in_flight(q, live),
        0 <= i < live.len(),
        0 <= j < live.len(),
        i != j,
        0 <= k < live[i].len(),
        0 <= m < live[j].len(),
    ensures
        live[i][k] != live[j][m],
{
    let (i, j, k, m) = if i < j {
        (i, j, k, m)
    } else {
        (j, i, m, k)
    };
    lemma_flatten_split(live, j);
    lemma_concat_parts(q.free_list(), live.flatten());
    let a = live.take(j);
    lemma_flatten_split(a, i);
    assert(live.flatten() =~= a.flatten() + (live[j] + live.skip(j + 1).flatten()));
    lemma_concat_parts(a.flatten(), live[j] + live.skip(j + 1).flatten());
    assert(a.flatten()[a.take(i).flatten().len() + k] == live[i][k]);
    assert((live[j] + live.skip(j + 1).flatten())[m] == live[j][m]);
}

/// The entries of a request are chained.
pub proof fn law_entries_are_chained(inputs: Seq<Buffer>, outputs: Seq<Buffer>)
    requires
        inputs.len() + outputs.len() > 0,
    ensures
        chained(state::entries(inputs, outputs)),
{
    assert(0u16 & 1u16 == 0 && 1u16 & 1u16 == 1 && 2u16 & 1u16 == 0 && 3u16 & 1u16 == 1)
        by (bit_vector);
}

/// In a new queue nothing is in flight, and every descriptor is free, in the order
/// of the table.
pub proof fn law_fresh_queue_is_idle(desc: Seq<DescState>, avail_ring: Seq<u16>, published: u16)
    requires
        crate::page::power_of_two(desc.len()),
        0 < desc.len() <= 0x8000,
        avail_ring.len() == desc.len(),
    ensures
        in_flight(state::fresh(desc, avail_ring, published), seq![]),
        state::fresh(desc, avail_ring, published).free_list() == Seq::new(
            desc.len(),
            |i: int| i as u16,
        ),
{
    let q = state::fresh(desc, avail_ring, published);
    assert forall|k: nat| k < desc.len() implies #[trigger] state::walk(q.desc, 0, k) == k by {
        state::lemma_walk_linked(desc, k);
    }
    assert(q.free_list() =~= Seq::new(desc.len(), |i: int| i as u16));
    assert(Seq::<Seq<u16>>::empty().flatten() =~= Seq::<u16>::empty());
    assert(q.free_list() + Seq::<u16>::empty() =~= q.free_list());
}

/// The descriptors in flight and the free ones are all descriptors, each once; so
/// when nothing is in flight, all of them are free.
pub proof fn law_no_descriptor_is_lost(q: QueueState, live: Seq<Seq<u16>>)
    requires
        in_flight(q, live),
    ensures
        q.free_list().len() + live.flatten().len() == q.size(),
        live.len() == 0 ==> q.available() == q.size(),
{
    if live.len() == 0 {
        assert(live.flatten() =~= Seq::<u16>::empty());
    }
}

/// The tokens of two chains in flight differ.
pub proof fn law_tokens_are_unique(q: QueueState, live: Seq<Seq<u16>>, i: int, j: int)
    requires
        in_flight(q, live),
        0 <= i < live.len(),
        0 <= j < live.len(),
        i != j,
    ensures
        live[i][0] != live[j][0],
{
    lemma_live_disjoint(q, live, i, j, 0, 0);
}

/// The next token to be handed out is not in flight.
pub proof fn law_token_is_not_reused(q: QueueState, live: Seq<Seq<u16>>, i: int)
    requires
        in_flight(q, live),
        0 <= i < live.len(),
        q.available() > 0,
    ensures
        live[i][0] != q.free_head,
{
    lemma_live_not_free(q, live, i, 0, 0);
    assert(q.free_list()[0] == q.free_head);
}

/// Offering a chain puts the first free descriptors in flight: the token is the
/// head of a new chain, which holds the entries in their order, and the chains that
/// were in flight stay as they are.
pub proof fn law_add_puts_a_chain_in_flight(q: QueueState, live: Seq<Seq<u16>>, list: Seq<Entry>)
    requires
        in_flight(q, live),
        chained(list),
        list.len() <= q.available(),
    ensures
        in_flight(q.added(list), live.push(q.free_list().take(list.len() as int))),
        q.free_list()[0] == q.free_head,
        q.added(list).free_list() == q.free_list().skip(list.len() as int),
        forall|k: int| #![trigger q.free_list()[k]]
            0 <= k < list.len() ==> {
                let d = q.added(list).desc[q.free_list()[k] as int];
                &&& d.addr == list[k].addr
                &&& d.len == list[k].len
                &&& d.flags == list[k].flags
            },
        forall|i: int, k: int| #![trigger live[i][k]]
            0 <= i < live.len() && 0 <= k < live[i].len() ==> q.added(
                list,
            ).desc[live[i][k] as int] == q.desc[live[i][k] as int],
{
    let after = q.added(list);
    let n = list.len() as int;
    let slots = q.free_list();
    let c = slots.take(n);
    state::lemma_added_wf(q, list);
    state::lemma_free_list_in_table(q);
    lemma_concat_parts(slots, live.flatten());
    state::lemma_placed_keeps_next(q.desc, slots, list, list.len());
    state::lemma_placed_distinct(q.desc, slots, list, list.len());

    assert(linked_as(after.desc, c)) by {
        assert forall|i: int| 0 <= i < c.len() implies (#[trigger] c[i]) < after.desc.len() by {
            assert(c[i] == slots[i]);
        }
        assert forall|i: int| #![trigger c[i]] 0 <= i < c.len() - 1 implies state::has_next(
            after.desc[c[i] as int].flags,
        ) && after.desc[c[i] as int].next == c[i + 1] by {
            assert(c[i] == slots[i]);
            assert(c[i + 1] == slots[i + 1]);
            assert(state::has_next(list[i].flags));
            assert(state::walk(q.desc, q.free_head, (i + 1) as nat) == q.desc[slots[i] as int].next);
        }
        assert(c.last() == slots[n - 1]);
        assert(!state::has_next(list[n - 1].flags));
    }
    assert forall|i: int, k: int| #![trigger live[i][k]]
        0 <= i < live.len() && 0 <= k < live[i].len() implies after.desc[live[i][k] as int]
        == q.desc[live[i][k] as int] by {
        assert(linked_as(q.desc, live[i]));
        assert(live[i][k] < q.desc.len());
        assert forall|f: int| 0 <= f < list.len() implies #[trigger] slots[f] != live[i][k] by {
            lemma_live_not_free(q, live, i, k, f);
        }
    }
    let now = live.push(c);
    assert forall|i: int| 0 <= i < now.len() implies linked_as(after.desc, #[trigger] now[i]) by {
        if i < live.len() {
            let l = live[i];
            assert(linked_as(q.desc, l));
            assert forall|k: int| #![trigger l[k]] 0 <= k < l.len() - 1 implies state::has_next(
                after.desc[l[k] as int].flags,
            ) && after.desc[l[k] as int].next == l[k + 1] by {
                assert(after.desc[live[i][k] as int] == q.desc[live[i][k] as int]);
            }
            assert(after.desc[live[i][l.len() - 1] as int] == q.desc[live[i][l.len() - 1] as int]);
        }
    }
    live.lemma_flatten_push(c);
    let before = slots + live.flatten();
    let then = slots.skip(n) + (live.flatten() + c);
    assert(slots =~= c + slots.skip(n));
    assert(before.to_multiset() == then.to_multiset()) by {
        vstd::seq_lib::lemma_multiset_commutative(slots, live.flatten());
        vstd::seq_lib::lemma_multiset_commutative(c, slots.skip(n));
        vstd::seq_lib::lemma_multiset_commutative(slots.skip(n), live.flatten() + c);
        vstd::seq_lib::lemma_multiset_commutative(live.flatten(), c);
        assert(before.to_multiset() =~= then.to_multiset());
    }
    lemma_reordered(before, then);
}

/// A walk is the same in two tables that agree on what it visits.
proof fn lemma_walk_agrees(a: Seq<DescState>, b: Seq<DescState>, at: u16, k: nat)
    requires
        forall|m: nat| #![trigger state::walk(a, at, m)]
            m < k ==> a[state::walk(a, at, m) as int].next == b[state::walk(
                a,
                at,
                m,
            ) as int].next,
    ensures
        state::walk(a, at, k) == state::walk(b, at, k),
    decreases k,
{
    if k > 0 {
        lemma_walk_agrees(a, b, at, (k - 1) as nat);
    }
}

/// Taking back any chain in flight, in whatever order the device returns them,
/// ends its flight and only its: its descriptors go, in their order, to the front
/// of the free list, and every other chain stays in flight as it is.
pub proof fn law_pop_ends_the_flight(q: QueueState, live: Seq<Seq<u16>>, i: int)
    requires
        in_flight(q, live),
        0 <= i < live.len(),
    ensures
        q.chain_at(live[i][0]) == Some(live[i]),
        in_flight(q.popped(live[i][0]), live.remove(i)),
        q.popped(live[i][0]).free_list() == live[i] + q.free_list(),
        q.popped(live[i][0]).available() == q.available() + live[i].len(),
        forall|j: int, k: int| #![trigger live[j][k]]
            0 <= j < live.len() && j != i && 0 <= k < live[j].len() ==> q.popped(
                live[i][0],
            ).desc[live[j][k] as int] == q.desc[live[j][k] as int],
{
    let c = live[i];
    let token = c[0];
    let after = q.popped(token);
    let a = live.take(i).flatten();
    let b = live.skip(i + 1).flatten();
    lemma_flatten_split(live, i);
    assert(linked_as(q.desc, c));
    lemma_linked_is_chain(q.desc, c, q.num_used as nat);
    state::lemma_popped_wf(q, token);
    lemma_concat_parts(q.free_list(), live.flatten());
    let last = c.last() as int;
    assert(c[c.len() - 1] < q.desc.len());

    let joined = c + q.free_list();
    assert(after.free_list() =~= joined) by {
        assert forall|k: int| 0 <= k < joined.len() implies #[trigger] after.free_list()[k]
            == joined[k] by {
            if k < c.len() {
                state::lemma_walk_recycled(q, token, k as nat);
            } else {
                let m = (k - c.len()) as nat;
                state::lemma_walk_recycled(q, token, c.len());
                state::lemma_walk_add(after.desc, token, c.len(), m);
                assert(c.len() + m == k);
                assert forall|x: nat| #![trigger state::walk(q.desc, q.free_head, x)]
                    x < m implies q.desc[state::walk(q.desc, q.free_head, x) as int].next
                    == after.desc[state::walk(q.desc, q.free_head, x) as int].next by {
                    lemma_live_not_free(q, live, i, c.len() - 1, x as int);
                }
                lemma_walk_agrees(q.desc, after.desc, q.free_head, m);
            }
        }
    }
    assert forall|j: int, k: int| #![trigger live[j][k]]
        0 <= j < live.len() && j != i && 0 <= k < live[j].len() implies after.desc[live[j][k] as int]
        == q.desc[live[j][k] as int] by {
        lemma_live_disjoint(q, live, i, j, c.len() - 1, k);
    }
    let now = live.remove(i);
    assert forall|j: int| 0 <= j < now.len() implies linked_as(after.desc, #[trigger] now[j]) by {
        let o = if j < i {
            j
        } else {
            j + 1
        };
        let l = live[o];
        assert(now[j] == l);
        assert(linked_as(q.desc, l));
        assert forall|k: int| #![trigger l[k]] 0 <= k < l.len() - 1 implies state::has_next(
            after.desc[l[k] as int].flags,
        ) && after.desc[l[k] as int].next == l[k + 1] by {
            assert(after.desc[live[o][k] as int] == q.desc[live[o][k] as int]);
        }
        assert(after.desc[live[o][l.len() - 1] as int] == q.desc[live[o][l.len() - 1] as int]);
    }
    let before = q.free_list() + live.flatten();
    let then = joined + now.flatten();
    assert(before.to_multiset() == then.to_multiset()) by {
        vstd::seq_lib::lemma_multiset_commutative(q.free_list(), live.flatten());
        vstd::seq_lib::lemma_multiset_commutative(a + c, b);
        vstd::seq_lib::lemma_multiset_commutative(a, c);
        vstd::seq_lib::lemma_multiset_commutative(a, b);
        vstd::seq_lib::lemma_multiset_commutative(c, q.free_list());
        vstd::seq_lib::lemma_multiset_commutative(joined, now.flatten());
        assert(before.to_multiset() =~= then.to_multiset());
    }
    lemma_reordered(before, then);
}

/// Taking back what was just offered undoes the offer: the same descriptors are
/// free, in the same order, every descriptor has the successor that it had, and what
/// else was in flight still is. So the next offer gets the same token.
pub proof fn law_pop_undoes_add(q: QueueState, live: Seq<Seq<u16>>, list: Seq<Entry>)
    requires
        in_flight(q, live),
        chained(list),
        list.len() <= q.available(),
    ensures
        q.added(list).chain_at(q.free_head) == Some(q.free_list().take(list.len() as int)),
        in_flight(q.added(list).popped(q.free_head), live),
        q.added(list).popped(q.free_head).free_list() == q.free_list(),
        q.added(list).popped(q.free_head).num_used == q.num_used,
        q.added(list).popped(q.free_head).free_head == q.free_head,
        q.added(list).popped(q.free_head).size() == q.size(),
        forall|j: int|
            0 <= j < q.size() ==> (#[trigger] q.added(list).popped(q.free_head).desc[j]).next
                == q.desc[j].next,
{
    let n = list.len() as int;
    let c = q.free_list().take(n);
    law_add_puts_a_chain_in_flight(q, live, list);
    let now = live.push(c);
    assert(now[live.len() as int] == c);
    assert(c[0] == q.free_head);
    law_pop_ends_the_flight(q.added(list), now, live.len() as int);
    assert(now.remove(live.len() as int) =~= live);
    assert(c + q.free_list().skip(n) =~= q.free_list());
    state::lemma_free_list_in_table(q);
    state::lemma_placed_keeps_next(q.desc, q.free_list(), list, list.len());
    assert(c.last() == q.free_list()[n - 1]);
    assert(state::walk(q.desc, q.free_head, list.len()) == q.desc[c.last() as int].next);
}

/// The counter that the device sees only ever counts up by one, modulo 2 to the 16,
/// and the slot that it stood at holds the token.
pub proof fn law_add_publishes_the_token(q: QueueState, list: Seq<Entry>)
    requires
        q.wf(),
    ensures
        q.added(list).avail_published == (q.avail_idx + 1) % 0x10000,
        q.added(list).avail_idx == q.added(list).avail_published,
        q.added(list).avail_ring[q.avail_idx as int % q.desc.len() as int] == q.free_head,
        forall|s: int|
            0 <= s < q.desc.len() && s != q.avail_idx as int % q.desc.len() as int
                ==> #[trigger] q.added(list).avail_ring[s] == q.avail_ring[s],
{
    vstd::arithmetic::div_mod::lemma_mod_bound(q.avail_idx as int, q.size() as int);
}

/// A waker that was left for a chain stays there until another is left for it:
/// offering and taking back chains keeps it.
pub proof fn law_waker_stays(q: QueueState, token: u16, waker: Waker, list: Seq<Entry>, other: u16)
    requires
        q.wf(),
        token < q.size(),
    ensures
        q.with_waker(token, waker).wakers[token as int] == Some(waker),
        q.with_waker(token, waker).added(list).wakers[token as int] == Some(waker),
        q.with_waker(token, waker).popped(other).wakers[token as int] == Some(waker),
{
}

/// Putting the chain that was just offered back on the free list, with nothing else
/// done, undoes the offer: head, count, the free list and every successor are as before,
/// so the next offer gets the same token.
pub proof fn law_recycle_undoes_add(q: QueueState, live: Seq<Seq<u16>>, list: Seq<Entry>)
    requires
        in_flight(q, live),
        chained(list),
        list.len() <= q.available(),
    ensures
        q.added(list).chain_at(q.free_head) is Some,
        q.added(list).recycled(q.free_head).free_head == q.free_head,
        q.added(list).recycled(q.free_head).num_used == q.num_used,
        q.added(list).recycled(q.free_head).free_list() == q.free_list(),
        q.added(list).recycled(q.free_head).size() == q.size(),
        forall|j: int|
            0 <= j < q.size() ==> (#[trigger] q.added(list).recycled(q.free_head).desc[j]).next
                == q.desc[j].next,
{
    law_pop_undoes_add(q, live, list);
    let r = q.added(list).recycled(q.free_head);
    let p = q.added(list).popped(q.free_head);
    assert(r.desc == p.desc);
    assert(r.free_list() =~= p.free_list());
}

/// What a driver does with a queue, one call at a time.
pub enum Step {
    /// Offers a chain with these entries.
    Add(Seq<Entry>),
    /// Takes back the chain in flight at this position, in the order of the offers.
    Pop(int),
}

/// The state and the chains in flight after `steps`.
pub open spec fn after_steps(q: QueueState, live: Seq<Seq<u16>>, steps: Seq<Step>) -> (
    QueueState,
    Seq<Seq<u16>>,
)
    decreases steps.len(),
{
    if steps.len() == 0 {
        (q, live)
    } else {
        let (p, l) = after_steps(q, live, steps.drop_last());
        match steps.last() {
            Step::Add(list) => (p.added(list), l.push(p.free_list().take(list.len() as int))),
            Step::Pop(i) => (p.popped(l[i][0]), l.remove(i)),
        }
    }
}

/// Every offer of `steps` is one that the queue takes, and the device hands back only
/// chains in flight.
pub open spec fn lawful(q: QueueState, live: Seq<Seq<u16>>, steps: Seq<Step>) -> bool
    decreases steps.len(),
{
    steps.len() > 0 ==> {
        let (p, l) = after_steps(q, live, steps.drop_last());
        &&& lawful(q, live, steps.drop_last())
        &&& match steps.last() {
            Step::Add(list) => chained(list) && p.add_error(list.len()) is None,
            Step::Pop(i) => 0 <= i < l.len(),
        }
    }
}

/// The number of buffers of each offer that was not taken back, in the order of the
/// offers, where `before` are those of the offers before `steps`.
pub open spec fn outstanding(before: Seq<nat>, steps: Seq<Step>) -> Seq<nat>
    decreases steps.len(),
{
    if steps.len() == 0 {
        before
    } else {
        let o = outstanding(before, steps.drop_last());
        match steps.last() {
            Step::Add(list) => o.push(list.len()),
            Step::Pop(i) => o.remove(i),
        }
    }
}

/// The sum of the counts.
pub open spec fn total(counts: Seq<nat>) -> nat
    decreases counts.len(),
{
    if counts.len() == 0 {
        0
    } else {
        total(counts.drop_last()) + counts.last()
    }
}

/// The lengths of the chains.
pub open spec fn lengths(live: Seq<Seq<u16>>) -> Seq<nat> {
    Seq::new(live.len(), |i: int| live[i].len())
}

/// The flat sequence of the chains is as long as they are together.
proof fn lemma_flatten_len(live: Seq<Seq<u16>>)
    ensures
        live.flatten().len() == total(lengths(live)),
    decreases live.len(),
{
    if live.len() > 0 {
        let fewer = live.drop_last();
        lemma_flatten_len(fewer);
        fewer.lemma_flatten_push(live.last());
        assert(fewer.push(live.last()) =~= live);
        assert(lengths(live).drop_last() =~= lengths(fewer));
    } else {
        assert(live.flatten() =~= Seq::<u16>::empty());
    }
}

/// Whatever is offered and, in any order, taken back: the chains in flight stay in
/// flight, nobody's waker is touched, and the free descriptors are all but the buffers of
/// the offers that were not taken back. An offer of so many buffers, and no larger one, is
/// then taken.
pub proof fn law_available_after_any_history(
    q: QueueState,
    live: Seq<Seq<u16>>,
    steps: Seq<Step>,
)
    requires
        in_flight(q, live),
        lawful(q, live, steps),
    ensures
        in_flight(after_steps(q, live, steps).0, after_steps(q, live, steps).1),
        lengths(after_steps(q, live, steps).1) == outstanding(lengths(live), steps),
        after_steps(q, live, steps).0.size() == q.size(),
        after_steps(q, live, steps).0.wakers == q.wakers,
        after_steps(q, live, steps).0.available() == q.size() - total(
            outstanding(lengths(live), steps),
        ),
        0 <= after_steps(q, live, steps).0.available() <= q.size(),
        forall|n: nat|
            n >= 1 ==> (#[trigger] after_steps(q, live, steps).0.add_error(n) is None <==> n
                <= after_steps(q, live, steps).0.available()),
    decreases steps.len(),
{
    let (now, flying) = after_steps(q, live, steps);
    if steps.len() > 0 {
        let fewer = steps.drop_last();
        let (p, l) = after_steps(q, live, fewer);
        law_available_after_any_history(q, live, fewer);
        match steps.last() {
            Step::Add(list) => {
                law_add_puts_a_chain_in_flight(p, l, list);
                state::lemma_free_list_in_table(p);
                state::lemma_placed_keeps_next(p.desc, p.free_list(), list, list.len());
                assert(lengths(flying) =~= lengths(l).push(list.len()));
            },
            Step::Pop(i) => {
                law_pop_ends_the_flight(p, l, i);
                assert(linked_as(p.desc, l[i]));
                assert(l[i][l[i].len() - 1] < p.desc.len());
                assert(lengths(flying) =~= lengths(l).remove(i));
            },
        }
    }
    lemma_flatten_len(flying);
}

/// The waker that a pending poll leaves is the one that is woken when its chain is
/// back, whatever was offered and taken back in between: an interrupt for the chain
/// succeeds, and asks for this waker's wake-up.
pub proof fn law_pending_waiter_is_woken<'a, const QUEUE_SIZE: usize>(
    before: VirtQueueInner<'a, QUEUE_SIZE>,
    after: VirtQueueInner<'a, QUEUE_SIZE>,
    token: u16,
    waker: Waker,
    live: Seq<Seq<u16>>,
    steps: Seq<Step>,
    r: Result<(), HandleIntrError>,
)
    requires
        before.wf(),
        token < QUEUE_SIZE,
        before.polls_to(token, waker, Ok(None), after),
        in_flight(after@, live),
        lawful(after@, live, steps),
        after_steps(after@, live, steps).0.wakes_as(token, r),
    ensures
        r == Ok::<(), HandleIntrError>(()),
        cell::woken(waker, ()),
{
    law_available_after_any_history(after@, live, steps);
}

} // verus!
