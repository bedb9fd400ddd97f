//! What the calls of a queue do, read off the memory that the device sees: which cells
//! they read, which entries they write, and what they leave alone.

use crate::cell;
use crate::error::{DeviceFault, Error, HandleIntrError};
use crate::flight;
use crate::inner::VirtQueueInner;
use crate::page;
use crate::queue::Completion;
use crate::ring::{Buffer, DescState};
use crate::state;
use crate::state::QueueState;
use core::task::Waker;
use vstd::arithmetic::power2::pow2;
use vstd::prelude::*;

verus! {

/// A ring whose size is a power of two goes on in step where the 16-bit counter starts
/// over.
proof fn lemma_ring_in_step(size: int, counter: int, k: int)
    requires
        0 < size <= 0x8000,
        page::power_of_two(size as nat),
    ensures
        (counter + k) % 0x10000 % size == (counter + k) % size,
{
    let e = choose|e: nat| size as nat == pow2(e);
    vstd::arithmetic::power2::lemma2_to64();
    if e > 16 {
        vstd::arithmetic::power2::lemma_pow2_strictly_increases(16, e);
    }
    vstd::arithmetic::power2::lemma_pow2_adds(e, (16 - e) as nat);
    let d = pow2((16 - e) as nat) as int;
    vstd::arithmetic::power2::lemma_pow2_pos((16 - e) as nat);
    assert(size * d == 0x10000);
    vstd::arithmetic::div_mod::lemma_mod_mod(counter + k, size, d);
}

/// Counting on from the remainder is counting on.
proof fn lemma_count_on(counter: int, k: int)
    ensures
        ((counter + k) % 0x10000 + 1) % 0x10000 == (counter + (k + 1)) % 0x10000,
{
}

/// Two places of a ring that are less than a round apart differ.
proof fn lemma_places_differ(start: int, i: int, j: int, size: int)
    requires
        size > 0,
        0 <= i < j < size,
    ensures
        (start + i) % size != (start + j) % size,
{
    let d = j - i;
    if (start + i) % size == (start + j) % size {
        vstd::arithmetic::div_mod::lemma_mod_equivalence(start + j, start + i, size);
        vstd::arithmetic::div_mod::lemma_small_mod(d as nat, size as nat);
    }
}

/// The descriptors that an offer takes, found by following `next` from the free head,
/// are the first of the free list.
proof fn lemma_followed(q: QueueState, c: Seq<u16>, k: int)
    requires
        0 <= k < c.len(),
        c[0] == q.free_head,
        forall|i: int| #![trigger c[i]]
            0 <= i < c.len() - 1 ==> c[i + 1] == q.desc[c[i] as int].next,
    ensures
        state::walk(q.desc, q.free_head, k as nat) == c[k],
    decreases k,
{
    if k > 0 {
        lemma_followed(q, c, k - 1);
        assert(c[k - 1 + 1] == q.desc[c[k - 1] as int].next);
    }
}

/// What is placed depends on the slots that are used only.
proof fn lemma_placed_same_slots(
    desc: Seq<DescState>,
    a: Seq<u16>,
    b: Seq<u16>,
    list: Seq<state::Entry>,
    k: nat,
)
    requires
        forall|i: int| 0 <= i < k ==> #[trigger] a[i] == b[i],
    ensures
        state::placed(desc, a, list, k) == state::placed(desc, b, list, k),
    decreases k,
{
    if k > 0 {
        lemma_placed_same_slots(desc, a, b, list, (k - 1) as nat);
        assert(a[k - 1] == b[k - 1]);
    }
}

/// An offer keeps the queue well formed.
proof fn lemma_adds_keep_wf<'a, const QUEUE_SIZE: usize>(
    q: VirtQueueInner<'a, QUEUE_SIZE>,
    inputs: Seq<Buffer>,
    outputs: Seq<Buffer>,
    token: u16,
    after: VirtQueueInner<'a, QUEUE_SIZE>,
)
    requires
        q.wf(),
        q.adds_to(inputs, outputs, Ok(token), after),
    ensures
        after.wf(),
{
    let list = state::entries(inputs, outputs);
    state::lemma_added_wf(q@, list);
    state::lemma_free_list_in_table(q@);
    state::lemma_placed_keeps_next(q@.desc, q@.free_list(), list, list.len());
}

/// A take-back keeps the queue well formed.
proof fn lemma_pops_keep_wf<'a, const QUEUE_SIZE: usize>(
    q: VirtQueueInner<'a, QUEUE_SIZE>,
    token: u16,
    len: u32,
    after: VirtQueueInner<'a, QUEUE_SIZE>,
)
    requires
        q.wf(),
        q.pops_to(Ok(Some((token, len))), after),
    ensures
        after.wf(),
{
    state::lemma_popped_wf(q@, token);
    state::lemma_chain_shape(q@.desc, token, q@.num_used as nat);
}

/// An offer of no buffers is an invalid parameter; one of more buffers than there are
/// free descriptors does not fit; every other one is taken, and gets the first free
/// descriptor as its token. A refused offer changes nothing.
pub proof fn law_add_answers<'a, const QUEUE_SIZE: usize>(
    q: VirtQueueInner<'a, QUEUE_SIZE>,
    inputs: Seq<Buffer>,
    outputs: Seq<Buffer>,
    r: Result<u16, Error>,
    after: VirtQueueInner<'a, QUEUE_SIZE>,
)
    requires
        q.wf(),
        q.adds_to(inputs, outputs, r, after),
    ensures
        (r == Err::<u16, Error>(Error::InvalidParam)) <==> inputs.len() + outputs.len() == 0,
        (r == Err::<u16, Error>(Error::BufferTooSmall)) <==> inputs.len() + outputs.len() > 0
            && inputs.len() + outputs.len() + q@.num_used > QUEUE_SIZE,
        (r == Ok::<u16, Error>(q@.free_head)) <==> 0 < inputs.len() + outputs.len() <= QUEUE_SIZE
            - q@.num_used,
        r is Err ==> after@ == q@,
        after.used_ring() == q.used_ring(),
{
}

/// A taken offer writes its token to entry `avail_idx` modulo the number of descriptors
/// of the available ring, and to no other; the counter, the driver's and the one that the
/// device sees, goes up by one modulo 2 to the 16. The count of descriptors in use goes up
/// by the number of buffers. What was taken back, and who waits, stays.
pub proof fn law_add_publishes_in_its_entry<'a, const QUEUE_SIZE: usize>(
    q: VirtQueueInner<'a, QUEUE_SIZE>,
    inputs: Seq<Buffer>,
    outputs: Seq<Buffer>,
    token: u16,
    after: VirtQueueInner<'a, QUEUE_SIZE>,
)
    requires
        q.wf(),
        q.adds_to(inputs, outputs, Ok(token), after),
    ensures
        after@.avail_ring.len() == QUEUE_SIZE,
        after@.avail_ring[q@.avail_idx as int % QUEUE_SIZE as int] == token,
        forall|s: int|
            0 <= s < QUEUE_SIZE && s != q@.avail_idx as int % QUEUE_SIZE as int
                ==> #[trigger] after@.avail_ring[s] == q@.avail_ring[s],
        after@.avail_idx == (q@.avail_idx + 1) % 0x10000,
        after@.avail_published == (q@.avail_idx + 1) % 0x10000,
        after@.num_used == q@.num_used + inputs.len() + outputs.len(),
        after@.last_used_idx == q@.last_used_idx,
        after@.wakers == q@.wakers,
        after@.desc.len() == QUEUE_SIZE,
{
    lemma_adds_keep_wf(q, inputs, outputs, token, after);
    vstd::arithmetic::div_mod::lemma_mod_bound(q@.avail_idx as int, QUEUE_SIZE as int);
}

/// A taken offer fills the descriptors that lie along `next` from the free head, one for
/// each buffer: first those that the device reads, then those that it writes, with bit 0
/// of the flags where another follows and bit 1 where the device writes. No successor
/// changes and no other descriptor does; the free list goes on behind the last one.
pub proof fn law_add_fills_descriptors<'a, const QUEUE_SIZE: usize>(
    q: VirtQueueInner<'a, QUEUE_SIZE>,
    inputs: Seq<Buffer>,
    outputs: Seq<Buffer>,
    token: u16,
    after: VirtQueueInner<'a, QUEUE_SIZE>,
    c: Seq<u16>,
)
    requires
        q.wf(),
        q.adds_to(inputs, outputs, Ok(token), after),
        c.len() == inputs.len() + outputs.len(),
        c.no_duplicates(),
        c[0] == q@.free_head,
        forall|i: int| #![trigger c[i]]
            0 <= i < c.len() - 1 ==> c[i + 1] == q@.desc[c[i] as int].next,
    ensures
        c[0] == token,
        forall|k: int| #![trigger c[k]]
            0 <= k < c.len() ==> {
                let buf = if k < inputs.len() {
                    inputs[k]
                } else {
                    outputs[k - inputs.len()]
                };
                let d = after@.desc[c[k] as int];
                &&& 0 <= c[k] < QUEUE_SIZE
                &&& d.addr == buf.addr
                &&& d.len == buf.len as u32
                &&& d.flags == (if k + 1 < c.len() {
                    1int
                } else {
                    0int
                }) + (if k < inputs.len() {
                    0int
                } else {
                    2int
                })
                &&& d.next == q@.desc[c[k] as int].next
            },
        forall|j: int|
            0 <= j < QUEUE_SIZE && !c.contains(j as u16) ==> #[trigger] after@.desc[j]
                == q@.desc[j],
        after@.free_head == q@.desc[c.last() as int].next,
{
    let list = state::entries(inputs, outputs);
    let slots = q@.free_list();
    let n = c.len();
    state::lemma_free_list_in_table(q@);
    assert forall|i: int| 0 <= i < n implies #[trigger] slots[i] == c[i] by {
        lemma_followed(q@, c, i);
    }
    assert forall|i: int| 0 <= i < c.len() implies (#[trigger] c[i]) < q@.desc.len() by {
        assert(slots[i] == c[i]);
    }
    lemma_placed_same_slots(q@.desc, slots, c, list, n);
    state::lemma_placed_distinct(q@.desc, c, list, n);
    state::lemma_placed_keeps_next(q@.desc, c, list, n);
    assert forall|j: int| 0 <= j < QUEUE_SIZE && !c.contains(j as u16) implies #[trigger]
        after@.desc[j] == q@.desc[j] by {
        assert forall|i: int| 0 <= i < n implies #[trigger] c[i] != j by {
            assert(c.contains(c[i]));
        }
    }
    lemma_followed(q@, c, n - 1);
    assert(state::walk(q@.desc, q@.free_head, n) == q@.desc[c[n - 1] as int].next);
}

/// Offers in a row, as many as there are descriptors or fewer, stand in consecutive
/// entries of the available ring, each in its own: the device finds all of them, in
/// order.
pub proof fn law_offers_stand_in_a_row<'a, const QUEUE_SIZE: usize>(
    qs: Seq<VirtQueueInner<'a, QUEUE_SIZE>>,
    inputs: Seq<Seq<Buffer>>,
    outputs: Seq<Seq<Buffer>>,
    tokens: Seq<u16>,
)
    requires
        qs.len() == tokens.len() + 1,
        tokens.len() <= QUEUE_SIZE,
        qs[0].wf(),
        forall|k: int| #![trigger tokens[k]]
            0 <= k < tokens.len() ==> qs[k].adds_to(inputs[k], outputs[k], Ok(tokens[k]), qs[k + 1]),
    ensures
        qs.last().wf(),
        qs.last()@.avail_idx == (qs[0]@.avail_idx + tokens.len()) % 0x10000,
        forall|k: int| #![trigger tokens[k]]
            0 <= k < tokens.len() ==> qs.last()@.avail_ring[(qs[0]@.avail_idx + k)
                % QUEUE_SIZE as int] == tokens[k],
        forall|i: int, j: int|
            #![trigger (qs[0]@.avail_idx + i) % QUEUE_SIZE as int, (qs[0]@.avail_idx + j)
                % QUEUE_SIZE as int]
            0 <= i < j < tokens.len() ==> (qs[0]@.avail_idx + i) % QUEUE_SIZE as int != (
            qs[0]@.avail_idx + j) % QUEUE_SIZE as int,
    decreases tokens.len(),
{
    if tokens.len() > 0 {
        let n = tokens.len() - 1;
        let size = QUEUE_SIZE as int;
        let start = qs[0]@.avail_idx as int;
        let fewer = qs.drop_last();
        let earlier = tokens.drop_last();
        assert forall|k: int| #![trigger earlier[k]] 0 <= k < earlier.len() implies fewer[k].adds_to(
            inputs[k],
            outputs[k],
            Ok(earlier[k]),
            fewer[k + 1],
        ) by {
            assert(tokens[k] == earlier[k]);
        }
        law_offers_stand_in_a_row(fewer, inputs, outputs, earlier);
        let q = qs[n];
        assert(fewer.last() == q);
        assert(q.adds_to(inputs[n], outputs[n], Ok(tokens[n]), qs[n + 1]));
        law_add_publishes_in_its_entry(q, inputs[n], outputs[n], tokens[n], qs[n + 1]);
        lemma_adds_keep_wf(q, inputs[n], outputs[n], tokens[n], qs[n + 1]);
        lemma_count_on(start, n);
        lemma_ring_in_step(size, start, n);
        assert forall|k: int| #![trigger tokens[k]] 0 <= k < tokens.len() implies qs.last()@.avail_ring[(
        start + k) % size] == tokens[k] by {
            vstd::arithmetic::div_mod::lemma_mod_bound(start + k, size);
            if k < n {
                assert(earlier[k] == tokens[k]);
                lemma_places_differ(start, k, n, size);
            }
        }
        assert forall|i: int, j: int|
            #![trigger (qs[0]@.avail_idx + i) % QUEUE_SIZE as int, (qs[0]@.avail_idx + j)
                % QUEUE_SIZE as int]
            0 <= i < j < tokens.len() implies (qs[0]@.avail_idx + i) % QUEUE_SIZE as int != (
        qs[0]@.avail_idx + j) % QUEUE_SIZE as int by {
            lemma_places_differ(start, i, j, size);
        }
    }
}

/// The used ring is read at entry `last_used_idx` modulo the number of descriptors.
pub proof fn law_used_entry(q: QueueState)
    requires
        q.wf(),
    ensures
        q.used_slot() == q.last_used_idx as int % q.desc.len() as int,
{
}

/// A chain is what lies along `next` from its head: every descriptor but the last has bit
/// 0 of its flags set and names the one behind it, the last has not, and there are no
/// more of them than descriptors in use.
pub proof fn law_chain_lies_along_next(q: QueueState, head: u16, c: Seq<u16>)
    ensures
        q.chain_at(head) == Some(c) <==> {
            &&& 0 < c.len() <= q.num_used
            &&& c[0] == head
            &&& forall|i: int| 0 <= i < c.len() ==> (#[trigger] c[i]) < q.desc.len()
            &&& forall|i: int| #![trigger c[i]]
                0 <= i < c.len() - 1 ==> q.desc[c[i] as int].flags & 1 == 1
                    && q.desc[c[i] as int].next == c[i + 1]
            &&& q.desc[c.last() as int].flags & 1 != 1
        },
{
    if q.chain_at(head) == Some(c) {
        state::lemma_chain_shape(q.desc, head, q.num_used as nat);
    }
    if 0 < c.len() <= q.num_used && c[0] == head && flight::linked_as(q.desc, c) {
        flight::lemma_linked_is_chain(q.desc, c, q.num_used as nat);
    }
}

/// A chain is taken back where reads of the used ring gave a counter that differs from
/// what was taken back, and, in entry `last_used_idx` modulo the number of descriptors, an
/// id whose low 16 bits are the token, and the length. The chain goes to the front of the
/// free list: its last descriptor gets the old free head as successor, and no other
/// descriptor changes. The count of what was taken back goes up by one modulo 2 to the 16,
/// that of descriptors in use down by the length of the chain. What was offered, and who
/// waits, stays. Returns the counter, the id and the chain.
pub proof fn law_pop_takes_the_next_entry<'a, const QUEUE_SIZE: usize>(
    q: VirtQueueInner<'a, QUEUE_SIZE>,
    token: u16,
    len: u32,
    after: VirtQueueInner<'a, QUEUE_SIZE>,
) -> (seen: (u16, u32, Seq<u16>))
    requires
        q.wf(),
        q.pops_to(Ok(Some((token, len))), after),
    ensures
        cell::may_read_u16(*q.used_ring().idx, seen.0),
        seen.0 != q@.last_used_idx,
        cell::may_read_u32(
            *q.used_ring().ring@[q@.last_used_idx as int % QUEUE_SIZE as int].id,
            seen.1,
        ),
        cell::may_read_u32(
            *q.used_ring().ring@[q@.last_used_idx as int % QUEUE_SIZE as int].len,
            len,
        ),
        token == seen.1 % 0x10000,
        seen.2.len() > 0,
        seen.2[0] == token,
        forall|i: int| 0 <= i < seen.2.len() ==> (#[trigger] seen.2[i]) < QUEUE_SIZE,
        forall|i: int| #![trigger seen.2[i]]
            0 <= i < seen.2.len() - 1 ==> q@.desc[seen.2[i] as int].flags & 1 == 1
                && q@.desc[seen.2[i] as int].next == seen.2[i + 1],
        q@.desc[seen.2.last() as int].flags & 1 != 1,
        after@.desc.len() == QUEUE_SIZE,
        forall|j: int|
            0 <= j < QUEUE_SIZE && j != seen.2.last() ==> #[trigger] after@.desc[j] == q@.desc[j],
        after@.desc[seen.2.last() as int].next == q@.free_head,
        after@.desc[seen.2.last() as int].addr == q@.desc[seen.2.last() as int].addr,
        after@.desc[seen.2.last() as int].len == q@.desc[seen.2.last() as int].len,
        after@.desc[seen.2.last() as int].flags == q@.desc[seen.2.last() as int].flags,
        after@.free_head == token,
        after@.num_used == q@.num_used - seen.2.len(),
        after@.last_used_idx == (q@.last_used_idx + 1) % 0x10000,
        after@.avail_ring == q@.avail_ring,
        after@.avail_published == q@.avail_published,
        after@.avail_idx == q@.avail_idx,
        after@.wakers == q@.wakers,
        after.used_ring() == q.used_ring(),
{
    let c = q@.chain_at(token)->0;
    law_chain_lies_along_next(q@, token, c);
    assert(c[c.len() - 1] < q@.desc.len());
    let (idx, id) = choose|idx: u16, id: u32| #![trigger q.returns_by(idx, id, len)]
        q.returns_by(idx, id, len) && token == id as u16;
    assert(id as u16 == id % 0x10000) by (bit_vector);
    (idx, id, c)
}

/// Nothing is taken back where a read of the used ring's counter gave what was taken back
/// already, and then nothing changes.
pub proof fn law_pop_finds_nothing<'a, const QUEUE_SIZE: usize>(
    q: VirtQueueInner<'a, QUEUE_SIZE>,
    after: VirtQueueInner<'a, QUEUE_SIZE>,
)
    requires
        q.pops_to(Ok(None), after),
    ensures
        cell::may_read_u16(*q.used_ring().idx, q@.last_used_idx),
        after@ == q@,
        after.used_ring() == q.used_ring(),
{
}

/// A token is refused where reads of the used ring gave it, in the entry that is next, and
/// nothing that starts there is a chain; and then nothing changes. Returns the counter,
/// the id and the length that were read.
pub proof fn law_refused_token_has_no_chain<'a, const QUEUE_SIZE: usize>(
    q: VirtQueueInner<'a, QUEUE_SIZE>,
    fault: DeviceFault,
    after: VirtQueueInner<'a, QUEUE_SIZE>,
    c: Seq<u16>,
) -> (seen: (u16, u32, u32))
    requires
        q.wf(),
        q.pops_to(Err(fault), after),
    ensures
        fault == DeviceFault::BadToken((seen.1 % 0x10000) as u16),
        cell::may_read_u16(*q.used_ring().idx, seen.0),
        seen.0 != q@.last_used_idx,
        cell::may_read_u32(
            *q.used_ring().ring@[q@.last_used_idx as int % QUEUE_SIZE as int].id,
            seen.1,
        ),
        cell::may_read_u32(
            *q.used_ring().ring@[q@.last_used_idx as int % QUEUE_SIZE as int].len,
            seen.2,
        ),
        !{
            &&& 0 < c.len() <= q@.num_used
            &&& c[0] == seen.1 % 0x10000
            &&& forall|i: int| 0 <= i < c.len() ==> (#[trigger] c[i]) < QUEUE_SIZE
            &&& forall|i: int| #![trigger c[i]]
                0 <= i < c.len() - 1 ==> q@.desc[c[i] as int].flags & 1 == 1
                    && q@.desc[c[i] as int].next == c[i + 1]
            &&& q@.desc[c.last() as int].flags & 1 != 1
        },
        after@ == q@,
        after.used_ring() == q.used_ring(),
{
    let token = fault->BadToken_0;
    law_chain_lies_along_next(q@, token, c);
    let len = choose|len: u32| q.may_return(token, len);
    let (idx, id) = choose|idx: u16, id: u32| #![trigger q.returns_by(idx, id, len)]
        q.returns_by(idx, id, len) && token == id as u16;
    assert(id as u16 == id % 0x10000) by (bit_vector);
    (idx, id, len)
}

/// Take-backs in a row read consecutive entries of the used ring, round and round: the
/// `k`-th one reads the entry `k` places on from where the first one read. So each entry
/// is read once in a round.
pub proof fn law_pops_read_entries_in_turn<'a, const QUEUE_SIZE: usize>(
    qs: Seq<VirtQueueInner<'a, QUEUE_SIZE>>,
    tokens: Seq<u16>,
    lens: Seq<u32>,
    k: int,
) -> (id: u32)
    requires
        qs.len() == tokens.len() + 1,
        qs[0].wf(),
        forall|i: int| #![trigger tokens[i]]
            0 <= i < tokens.len() ==> qs[i].pops_to(Ok(Some((tokens[i], lens[i]))), qs[i + 1]),
        0 <= k < tokens.len(),
    ensures
        qs[k].wf(),
        qs[k]@.last_used_idx == (qs[0]@.last_used_idx + k) % 0x10000,
        qs[k].used_ring() == qs[0].used_ring(),
        cell::may_read_u32(
            *qs[0].used_ring().ring@[(qs[0]@.last_used_idx + k) % QUEUE_SIZE as int].id,
            id,
        ),
        tokens[k] == id % 0x10000,
        cell::may_read_u32(
            *qs[0].used_ring().ring@[(qs[0]@.last_used_idx + k) % QUEUE_SIZE as int].len,
            lens[k],
        ),
        qs[k + 1]@.last_used_idx == (qs[0]@.last_used_idx + k + 1) % 0x10000,
        forall|j: int|
            #![trigger (qs[0]@.last_used_idx + j) % QUEUE_SIZE as int]
            k - QUEUE_SIZE < j < k ==> (qs[0]@.last_used_idx + j) % QUEUE_SIZE as int != (
            qs[0]@.last_used_idx + k) % QUEUE_SIZE as int,
    decreases k,
{
    let start = qs[0]@.last_used_idx as int;
    let size = QUEUE_SIZE as int;
    if k > 0 {
        law_pops_read_entries_in_turn(qs, tokens, lens, k - 1);
        assert(qs[k - 1].pops_to(Ok(Some((tokens[k - 1], lens[k - 1]))), qs[k - 1 + 1]));
        lemma_pops_keep_wf(qs[k - 1], tokens[k - 1], lens[k - 1], qs[k]);
        law_pop_takes_the_next_entry(qs[k - 1], tokens[k - 1], lens[k - 1], qs[k]);
    }
    assert(qs[k].pops_to(Ok(Some((tokens[k], lens[k]))), qs[k + 1]));
    let seen = law_pop_takes_the_next_entry(qs[k], tokens[k], lens[k], qs[k + 1]);
    lemma_ring_in_step(size, start, k);
    lemma_count_on(start, k);
    assert forall|j: int|
        #![trigger (start + j) % size]
        k - size < j < k implies (start + j) % size != (start + k) % size by {
        lemma_places_differ(start + j, 0, k - j, size);
    }
    seen.1
}

/// Whether a chain can be taken back is whether a read of the used ring's counter gave
/// something else than what was taken back. Returns what was read.
pub proof fn law_can_pop_compares_counters<'a, const QUEUE_SIZE: usize>(
    q: VirtQueueInner<'a, QUEUE_SIZE>,
    r: bool,
) -> (idx: u16)
    requires
        q.readies_as(r),
    ensures
        cell::may_read_u16(*q.used_ring().idx, idx),
        r == (idx != q@.last_used_idx),
{
    choose|idx: u16| #[trigger] q.used_ring().may_count(idx) && r == q@.can_pop(idx)
}

/// A look at the device keeps waiting only where the counter showed nothing new, and then
/// nothing changes; it fails only with not-ready, where the counter first showed something
/// and then nothing, and changes nothing; else it takes back, or refuses, what a take-back
/// does.
pub proof fn law_complete_waits_for_the_device<'a, const QUEUE_SIZE: usize>(
    q: VirtQueueInner<'a, QUEUE_SIZE>,
    r: Completion,
    after: VirtQueueInner<'a, QUEUE_SIZE>,
)
    requires
        q.completes_to(r, after),
    ensures
        r is Waiting ==> cell::may_read_u16(*q.used_ring().idx, q@.last_used_idx) && after == q,
        r is Failed ==> {
            &&& r == Completion::Failed(Error::NotReady)
            &&& exists|idx: u16| #[trigger]
                cell::may_read_u16(*q.used_ring().idx, idx) && idx != q@.last_used_idx
            &&& cell::may_read_u16(*q.used_ring().idx, q@.last_used_idx)
            &&& after@ == q@
            &&& after.used_ring() == q.used_ring()
        },
        r matches Completion::Done(token, len) ==> q.pops_to(Ok(Some((token, len))), after),
        r matches Completion::Faulty(fault) ==> q.pops_to(Err(fault), after),
{
    if r is Failed {
        let idx = law_can_pop_compares_counters(q, true);
    }
}

/// An interrupt finds nothing where the counter showed nothing new. Else reads gave, in the
/// entry that is next, an id whose low 16 bits name the chain: the waker of that chain is
/// woken, or the answer names the chain for which there is none. Returns the counter, the
/// id and the length that were read.
pub proof fn law_interrupt_wakes_the_waiter<'a, const QUEUE_SIZE: usize>(
    q: VirtQueueInner<'a, QUEUE_SIZE>,
    r: Result<(), HandleIntrError>,
) -> (seen: (u16, u32, u32))
    requires
        q.wf(),
        q.handles_as(r),
    ensures
        r == Err::<(), HandleIntrError>(HandleIntrError::QueueNotReady) ==> cell::may_read_u16(
            *q.used_ring().idx,
            q@.last_used_idx,
        ),
        r != Err::<(), HandleIntrError>(HandleIntrError::QueueNotReady) ==> {
            let entry = q.used_ring().ring@[q@.last_used_idx as int % QUEUE_SIZE as int];
            let token = seen.1 % 0x10000;
            &&& cell::may_read_u16(*q.used_ring().idx, seen.0)
            &&& seen.0 != q@.last_used_idx
            &&& cell::may_read_u32(*entry.id, seen.1)
            &&& cell::may_read_u32(*entry.len, seen.2)
            &&& r is Ok <==> token < QUEUE_SIZE && q@.wakers[token as int] is Some
            &&& r is Ok ==> cell::woken(q@.wakers[token as int]->0, ())
            &&& r is Err ==> r == Err::<(), HandleIntrError>(
                HandleIntrError::WakerNotExist(token as u16),
            )
        },
{
    if r == Err::<(), HandleIntrError>(HandleIntrError::QueueNotReady) {
        (0, 0, 0)
    } else {
        let (token, len) = choose|token: u16, len: u32| #[trigger]
            q.may_return(token, len) && q@.wakes_as(token, r);
        let (idx, id) = choose|idx: u16, id: u32| #![trigger q.returns_by(idx, id, len)]
            q.returns_by(idx, id, len) && token == id as u16;
        assert(id as u16 == id % 0x10000) by (bit_vector);
        (idx, id, len)
    }
}

/// Leaving a waker for one chain keeps the wakers of all others, and everything else.
pub proof fn law_waker_is_left_for_one_chain(q: QueueState, token: u16, waker: Waker)
    requires
        token < q.wakers.len(),
    ensures
        q.with_waker(token, waker).wakers.len() == q.wakers.len(),
        q.with_waker(token, waker).wakers[token as int] == Some(waker),
        forall|t: int|
            0 <= t < q.wakers.len() && t != token ==> #[trigger] q.with_waker(
                token,
                waker,
            ).wakers[t] == q.wakers[t],
        q.with_waker(token, waker).desc == q.desc,
        q.with_waker(token, waker).avail_ring == q.avail_ring,
        q.with_waker(token, waker).avail_published == q.avail_published,
        q.with_waker(token, waker).num_used == q.num_used,
        q.with_waker(token, waker).free_head == q.free_head,
        q.with_waker(token, waker).avail_idx == q.avail_idx,
        q.with_waker(token, waker).last_used_idx == q.last_used_idx,
{
}

/// A pending poll, which is one where the counter showed nothing new, leaves its waker for
/// its chain, and keeps the wakers of all others and everything else. A poll that is not
/// pending is a take-back, and leaves no waker.
pub proof fn law_pending_poll_keeps_other_waiters<'a, const QUEUE_SIZE: usize>(
    q: VirtQueueInner<'a, QUEUE_SIZE>,
    token: u16,
    waker: Waker,
    r: Result<Option<(u16, u32)>, DeviceFault>,
    after: VirtQueueInner<'a, QUEUE_SIZE>,
)
    requires
        q.wf(),
        token < QUEUE_SIZE,
        q.polls_to(token, waker, r, after),
    ensures
        r == Ok::<Option<(u16, u32)>, DeviceFault>(None) ==> {
            &&& cell::may_read_u16(*q.used_ring().idx, q@.last_used_idx)
            &&& after@.wakers.len() == QUEUE_SIZE
            &&& after@.wakers[token as int] == Some(waker)
            &&& forall|t: int|
                0 <= t < QUEUE_SIZE && t != token ==> #[trigger] after@.wakers[t]
                    == q@.wakers[t]
            &&& after@.desc == q@.desc
            &&& after@.avail_ring == q@.avail_ring
            &&& after@.avail_published == q@.avail_published
            &&& after@.num_used == q@.num_used
            &&& after@.free_head == q@.free_head
            &&& after@.avail_idx == q@.avail_idx
            &&& after@.last_used_idx == q@.last_used_idx
            &&& after.used_ring() == q.used_ring()
        },
        r != Ok::<Option<(u16, u32)>, DeviceFault>(None) ==> q.pops_to(r, after),
{
}

/// A new queue links each descriptor to the one behind it and touches nothing else of its
/// memory; the first descriptor is the first to be handed out, all are free, nothing was
/// offered or taken back, and nobody waits.
pub proof fn law_new_queue(desc: Seq<DescState>, avail_ring: Seq<u16>, published: u16)
    requires
        0 < desc.len() <= 0x8000,
    ensures
        ({
            let q = state::fresh(desc, avail_ring, published);
            &&& q.desc.len() == desc.len()
            &&& forall|i: int| #![trigger q.desc[i]]
                0 <= i < desc.len() ==> {
                    &&& i + 1 < desc.len() ==> q.desc[i].next == i + 1
                    &&& i + 1 == desc.len() ==> q.desc[i].next == desc[i].next
                    &&& q.desc[i].addr == desc[i].addr
                    &&& q.desc[i].len == desc[i].len
                    &&& q.desc[i].flags == desc[i].flags
                }
            &&& q.avail_ring == avail_ring
            &&& q.avail_published == published
            &&& q.num_used == 0
            &&& q.free_head == 0
            &&& q.avail_idx == 0
            &&& q.last_used_idx == 0
            &&& q.wakers.len() == desc.len()
            &&& forall|i: int| 0 <= i < desc.len() ==> #[trigger] q.wakers[i] is None
        }),
{
}

/// The free descriptors are all but those in use.
pub proof fn law_available_is_the_rest(q: QueueState)
    ensures
        q.available() == q.desc.len() - q.num_used,
{
}

/// A call on a queue.
pub enum Call {
    /// An offer of these buffers, with its answer.
    Add(Seq<Buffer>, Seq<Buffer>, Result<u16, Error>),
    /// A take-back, with its answer.
    Pop(Result<Option<(u16, u32)>, DeviceFault>),
    /// A poll for the chain at this token, with its waker and its answer.
    Poll(u16, Waker, Result<Option<(u16, u32)>, DeviceFault>),
}

/// The call leads from `q` to `after`.
pub open spec fn calls_to<'a, const QUEUE_SIZE: usize>(
    q: VirtQueueInner<'a, QUEUE_SIZE>,
    call: Call,
    after: VirtQueueInner<'a, QUEUE_SIZE>,
) -> bool {
    match call {
        Call::Add(inputs, outputs, r) => q.adds_to(inputs, outputs, r, after),
        Call::Pop(r) => q.pops_to(r, after),
        Call::Poll(token, waker, r) => token < QUEUE_SIZE && q.polls_to(token, waker, r, after),
    }
}

/// A call keeps the queue well formed, its used ring, and the wakers of all chains but
/// the one that it polls for.
pub proof fn law_call_keeps_other_waiters<'a, const QUEUE_SIZE: usize>(
    q: VirtQueueInner<'a, QUEUE_SIZE>,
    call: Call,
    after: VirtQueueInner<'a, QUEUE_SIZE>,
    token: u16,
)
    requires
        q.wf(),
        calls_to(q, call, after),
        token < QUEUE_SIZE,
        call matches Call::Poll(polled, _, _) ==> polled != token,
    ensures
        after.wf(),
        after.used_ring() == q.used_ring(),
        after@.wakers[token as int] == q@.wakers[token as int],
{
    match call {
        Call::Add(inputs, outputs, r) => {
            law_add_answers(q, inputs, outputs, r, after);
            if let Ok(t) = r {
                lemma_adds_keep_wf(q, inputs, outputs, t, after);
                law_add_publishes_in_its_entry(q, inputs, outputs, t, after);
            }
        },
        Call::Pop(r) => {
            if let Ok(Some((t, len))) = r {
                lemma_pops_keep_wf(q, t, len, after);
                law_pop_takes_the_next_entry(q, t, len, after);
            }
        },
        Call::Poll(polled, waker, r) => {
            law_pending_poll_keeps_other_waiters(q, polled, waker, r, after);
            if let Ok(Some((t, len))) = r {
                lemma_pops_keep_wf(q, t, len, after);
                law_pop_takes_the_next_entry(q, t, len, after);
            }
        },
    }
}

/// The waker that a pending poll leaves is the one that is woken when its chain is back,
/// after any offers, take-backs and polls for other chains, in any order and with any
/// answers: an interrupt that reads the chain's token from the used ring succeeds, and
/// asks for this waker's wake-up. Returns the counter, the id and the length that the
/// interrupt read.
pub proof fn law_waiter_is_woken_after_any_calls<'a, const QUEUE_SIZE: usize>(
    before: VirtQueueInner<'a, QUEUE_SIZE>,
    token: u16,
    waker: Waker,
    qs: Seq<VirtQueueInner<'a, QUEUE_SIZE>>,
    calls: Seq<Call>,
    r: Result<(), HandleIntrError>,
) -> (seen: (u16, u32, u32))
    requires
        before.wf(),
        token < QUEUE_SIZE,
        qs.len() == calls.len() + 1,
        before.polls_to(token, waker, Ok(None), qs[0]),
        forall|k: int| #![trigger calls[k]]
            0 <= k < calls.len() ==> calls_to(qs[k], calls[k], qs[k + 1]) && (
            calls[k] matches Call::Poll(polled, _, _) ==> polled != token),
        qs.last().handles_as(r),
    ensures
        qs.last().wf(),
        qs.last()@.wakers[token as int] == Some(waker),
        r != Err::<(), HandleIntrError>(HandleIntrError::QueueNotReady) ==> cell::may_read_u32(
            *qs.last().used_ring().ring@[qs.last()@.last_used_idx as int % QUEUE_SIZE as int].id,
            seen.1,
        ),
        r != Err::<(), HandleIntrError>(HandleIntrError::QueueNotReady) && seen.1 % 0x10000
            == token ==> r == Ok::<(), HandleIntrError>(()) && cell::woken(waker, ()),
{
    lemma_waker_stays_put(before, token, waker, qs, calls, calls.len() as int);
    law_interrupt_wakes_the_waiter(qs.last(), r)
}

/// The waker is there after the first `k` calls.
proof fn lemma_waker_stays_put<'a, const QUEUE_SIZE: usize>(
    before: VirtQueueInner<'a, QUEUE_SIZE>,
    token: u16,
    waker: Waker,
    qs: Seq<VirtQueueInner<'a, QUEUE_SIZE>>,
    calls: Seq<Call>,
    k: int,
)
    requires
        before.wf(),
        token < QUEUE_SIZE,
        qs.len() == calls.len() + 1,
        before.polls_to(token, waker, Ok(None), qs[0]),
        forall|k: int| #![trigger calls[k]]
            0 <= k < calls.len() ==> calls_to(qs[k], calls[k], qs[k + 1]) && (
            calls[k] matches Call::Poll(polled, _, _) ==> polled != token),
        0 <= k <= calls.len(),
    ensures
        qs[k].wf(),
        qs[k]@.wakers[token as int] == Some(waker),
    decreases k,
{
    if k == 0 {
        law_pending_poll_keeps_other_waiters(before, token, waker, Ok(None), qs[0]);
    } else {
        lemma_waker_stays_put(before, token, waker, qs, calls, k - 1);
        assert(calls_to(qs[k - 1], calls[k - 1], qs[k - 1 + 1]));
        law_call_keeps_other_waiters(qs[k - 1], calls[k - 1], qs[k], token);
    }
}

} // verus!
