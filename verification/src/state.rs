//! The abstract state of a queue, and what each operation makes of it.

use crate::cell;
use crate::error::{Error, HandleIntrError};
use crate::page;
use crate::ring::{Buffer, DescState, DESC_NEXT};
use core::task::Waker;
use vstd::prelude::*;

verus! {

/// What a queue holds: the memory that it shares with the device, and the
/// driver's own bookkeeping.
#[verifier::ext_equal]
pub struct QueueState {
    /// The descriptor table.
    pub desc: Seq<DescState>,
    /// The entries of the available ring.
    pub avail_ring: Seq<u16>,
    /// The counter of the available ring, as the device sees it.
    pub avail_published: u16,
    /// The number of descriptors that are not free.
    pub num_used: u16,
    /// The first descriptor of the free list.
    pub free_head: u16,
    /// The number of chains that were offered, modulo 2 to the 16.
    pub avail_idx: u16,
    /// The number of returned chains that were taken back, modulo 2 to the 16.
    pub last_used_idx: u16,
    /// The wakers, by the head of the chain that they wait for.
    pub wakers: Seq<Option<Waker>>,
}

/// Whether a descriptor with these flags has a successor in its chain.
pub open spec fn has_next(flags: u16) -> bool {
    flags & DESC_NEXT == DESC_NEXT
}

/// The descriptor reached from `at` by following `next` `k` times.
pub open spec fn walk(desc: Seq<DescState>, at: u16, k: nat) -> u16
    decreases k,
{
    if k == 0 {
        at
    } else {
        desc[walk(desc, at, (k - 1) as nat) as int].next
    }
}

/// The chain that starts at `head`: the descriptors up to the first one without
/// a successor. `None` if that takes more than `limit` descriptors or leaves the
/// table.
pub open spec fn chain(desc: Seq<DescState>, head: u16, limit: nat) -> Option<Seq<u16>>
    decreases limit,
{
    if limit == 0 || head >= desc.len() {
        None
    } else if !has_next(desc[head as int].flags) {
        Some(seq![head])
    } else {
        match chain(desc, desc[head as int].next, (limit - 1) as nat) {
            Some(rest) => Some(seq![head] + rest),
            None => None,
        }
    }
}

/// The value of a 16-bit counter after one more count.
pub open spec fn counted(idx: u16) -> u16 {
    if idx == 0xffff {
        0
    } else {
        (idx + 1) as u16
    }
}

/// What the descriptor of one buffer holds, but for its `next`.
#[verifier::ext_equal]
pub struct Entry {
    pub addr: u64,
    pub len: u32,
    pub flags: u16,
}

/// The flags of a descriptor whose buffer the device writes or reads, with or
/// without a successor.
pub open spec fn flags_for(write: bool, next: bool) -> u16 {
    if write {
        if next {
            3
        } else {
            2
        }
    } else {
        if next {
            1
        } else {
            0
        }
    }
}

/// The entries of a chain: first the buffers that the device reads, then those
/// that it writes; all but the last have a successor.
pub open spec fn entries(inputs: Seq<Buffer>, outputs: Seq<Buffer>) -> Seq<Entry> {
    Seq::new(
        inputs.len() + outputs.len(),
        |k: int|
            entry(inputs, outputs, k, k + 1 < inputs.len() + outputs.len()),
    )
}

/// The entry of the `k`-th buffer.
pub open spec fn entry(inputs: Seq<Buffer>, outputs: Seq<Buffer>, k: int, next: bool) -> Entry {
    let buf = if k < inputs.len() {
        inputs[k]
    } else {
        outputs[k - inputs.len()]
    };
    Entry { addr: buf.addr, len: buf.len as u32, flags: flags_for(k >= inputs.len(), next) }
}

/// The table after the first `k` entries were written, in order, to the
/// descriptors named by `slots`. No `next` changes.
pub open spec fn placed(
    desc: Seq<DescState>,
    slots: Seq<u16>,
    list: Seq<Entry>,
    k: nat,
) -> Seq<DescState>
    decreases k,
{
    if k == 0 {
        desc
    } else {
        let before = placed(desc, slots, list, (k - 1) as nat);
        let at = slots[k - 1] as int;
        let e = list[k - 1];
        before.update(
            at,
            DescState { addr: e.addr, len: e.len, flags: e.flags, next: before[at].next },
        )
    }
}

impl QueueState {
    /// The number of descriptors.
    pub open spec fn size(self) -> nat {
        self.desc.len()
    }

    /// The number of free descriptors.
    pub open spec fn available(self) -> int {
        self.size() - self.num_used
    }

    /// The free descriptors, in the order in which they are handed out.
    pub open spec fn free_list(self) -> Seq<u16> {
        Seq::new(self.available() as nat, |k: int| walk(self.desc, self.free_head, k as nat))
    }

    /// The slot of a ring for the counter value `idx`.
    pub open spec fn slot(self, idx: u16) -> int {
        idx as int % self.size() as int
    }

    /// The size is a power of two that fits the 16-bit counters, every table has
    /// that size, and the free list stays inside the table.
    pub open spec fn wf(self) -> bool {
        &&& page::power_of_two(self.size())
        &&& 0 < self.size() <= 0x8000
        &&& self.avail_ring.len() == self.size()
        &&& self.wakers.len() == self.size()
        &&& self.num_used <= self.size()
        &&& forall|k: nat|
            k < self.available() ==> #[trigger] walk(self.desc, self.free_head, k) < self.size()
    }

    /// Whether a used ring whose counter is `used_idx` holds a chain that was not
    /// taken back yet.
    pub open spec fn can_pop(self, used_idx: u16) -> bool {
        self.last_used_idx != used_idx
    }

    /// The slot of the used ring that is to be read next.
    pub open spec fn used_slot(self) -> int {
        self.slot(self.last_used_idx)
    }

    /// The chain that starts at `head`, if it has no more descriptors than are in use.
    pub open spec fn chain_at(self, head: u16) -> Option<Seq<u16>> {
        chain(self.desc, head, self.num_used as nat)
    }

    /// The state after the descriptors of the chain at `head` were put at the
    /// front of the free list.
    pub open spec fn recycled(self, head: u16) -> QueueState {
        let c = self.chain_at(head)->0;
        QueueState {
            desc: self.desc.update(
                c.last() as int,
                DescState { next: self.free_head, ..self.desc[c.last() as int] },
            ),
            num_used: (self.num_used - c.len()) as u16,
            free_head: head,
            ..self
        }
    }

    /// The state after the chain at `token` was taken back.
    pub open spec fn popped(self, token: u16) -> QueueState {
        QueueState { last_used_idx: counted(self.last_used_idx), ..self.recycled(token) }
    }

    /// Why a chain of `count` buffers is refused, if it is.
    pub open spec fn add_error(self, count: nat) -> Option<Error> {
        if count == 0 {
            Some(Error::InvalidParam)
        } else if count > self.available() {
            Some(Error::BufferTooSmall)
        } else {
            None
        }
    }

    /// The state after a chain with these entries was offered to the device.
    pub open spec fn added(self, list: Seq<Entry>) -> QueueState {
        QueueState {
            desc: placed(self.desc, self.free_list(), list, list.len()),
            avail_ring: self.avail_ring.update(self.slot(self.avail_idx), self.free_head),
            avail_published: counted(self.avail_idx),
            num_used: (self.num_used + list.len()) as u16,
            free_head: walk(self.desc, self.free_head, list.len()),
            avail_idx: counted(self.avail_idx),
            ..self
        }
    }

    /// `r` is the answer to an interrupt for the chain at `token`: its waker is woken, or
    /// there is none.
    pub open spec fn wakes_as(self, token: u16, r: Result<(), HandleIntrError>) -> bool {
        if token < self.size() && self.wakers[token as int] is Some {
            &&& r == Ok::<(), HandleIntrError>(())
            &&& cell::woken(self.wakers[token as int]->0, ())
        } else {
            r == Err::<(), HandleIntrError>(HandleIntrError::WakerNotExist(token))
        }
    }

    /// The state after `waker` was left for the chain at `head`.
    pub open spec fn with_waker(self, head: u16, waker: Waker) -> QueueState {
        QueueState { wakers: self.wakers.update(head as int, Some(waker)), ..self }
    }
}

/// The table with each descriptor linked to the one behind it.
pub open spec fn linked(desc: Seq<DescState>) -> Seq<DescState> {
    Seq::new(
        desc.len(),
        |i: int|
            if i + 1 < desc.len() {
                DescState { next: (i + 1) as u16, ..desc[i] }
            } else {
                desc[i]
            },
    )
}

/// The state of a new queue over memory with these contents: every descriptor is
/// free, nothing was offered or taken back, and nobody waits.
pub open spec fn fresh(
    desc: Seq<DescState>,
    avail_ring: Seq<u16>,
    avail_published: u16,
) -> QueueState {
    QueueState {
        desc: linked(desc),
        avail_ring,
        avail_published,
        num_used: 0,
        free_head: 0,
        avail_idx: 0,
        last_used_idx: 0,
        wakers: Seq::new(desc.len(), |i: int| None),
    }
}

/// In a linked table the walk from the first descriptor goes through the table in
/// order.
pub proof fn lemma_walk_linked(desc: Seq<DescState>, k: nat)
    requires
        k < desc.len() <= 0x8000,
    ensures
        walk(linked(desc), 0, k) == k,
    decreases k,
{
    if k > 0 {
        lemma_walk_linked(desc, (k - 1) as nat);
    }
}

/// Following `next` `n` times and then `k` times is following it `n + k` times.
pub proof fn lemma_walk_add(desc: Seq<DescState>, at: u16, n: nat, k: nat)
    ensures
        walk(desc, at, n + k) == walk(desc, walk(desc, at, n), k),
    decreases k,
{
    if k > 0 {
        lemma_walk_add(desc, at, n, (k - 1) as nat);
        assert((n + k - 1) as nat == n + (k - 1) as nat);
    }
}

/// `walk` reads nothing of the table but `next`.
pub proof fn lemma_walk_same_next(a: Seq<DescState>, b: Seq<DescState>, at: u16, k: nat)
    requires
        a.len() == b.len(),
        forall|i: int| 0 <= i < a.len() ==> (#[trigger] a[i]).next == b[i].next,
        forall|m: nat| m < k ==> #[trigger] walk(a, at, m) < a.len(),
    ensures
        walk(a, at, k) == walk(b, at, k),
    decreases k,
{
    if k > 0 {
        lemma_walk_same_next(a, b, at, (k - 1) as nat);
        assert(walk(a, at, (k - 1) as nat) < a.len());
        assert(a[walk(a, at, (k - 1) as nat) as int].next == b[walk(a, at, (k - 1) as nat) as int].next);
    }
}

/// Placing entries keeps the length of the table and every `next`.
pub proof fn lemma_placed_keeps_next(
    desc: Seq<DescState>,
    slots: Seq<u16>,
    list: Seq<Entry>,
    k: nat,
)
    requires
        k <= slots.len(),
        forall|i: int| 0 <= i < slots.len() ==> (#[trigger] slots[i]) < desc.len(),
    ensures
        placed(desc, slots, list, k).len() == desc.len(),
        forall|i: int|
            0 <= i < desc.len() ==> (#[trigger] placed(desc, slots, list, k)[i]).next
                == desc[i].next,
    decreases k,
{
    if k > 0 {
        lemma_placed_keeps_next(desc, slots, list, (k - 1) as nat);
        assert(slots[k - 1] < desc.len());
    }
}

/// The table after `k` placements depends on the first `k` entries only.
pub proof fn lemma_placed_same_prefix(
    desc: Seq<DescState>,
    slots: Seq<u16>,
    a: Seq<Entry>,
    b: Seq<Entry>,
    k: nat,
)
    requires
        forall|i: int| 0 <= i < k ==> #[trigger] a[i] == b[i],
    ensures
        placed(desc, slots, a, k) == placed(desc, slots, b, k),
    decreases k,
{
    if k > 0 {
        lemma_placed_same_prefix(desc, slots, a, b, (k - 1) as nat);
        assert(a[k - 1] == b[k - 1]);
    }
}

/// On distinct slots, each slot holds the entry that was placed there, and every
/// other descriptor is unchanged.
pub proof fn lemma_placed_distinct(
    desc: Seq<DescState>,
    slots: Seq<u16>,
    list: Seq<Entry>,
    k: nat,
)
    requires
        k <= slots.len(),
        slots.no_duplicates(),
        forall|i: int| 0 <= i < slots.len() ==> (#[trigger] slots[i]) < desc.len(),
    ensures
        forall|i: int| #![trigger slots[i]]
            0 <= i < k ==> placed(desc, slots, list, k)[slots[i] as int] == (DescState {
                addr: list[i].addr,
                len: list[i].len,
                flags: list[i].flags,
                next: desc[slots[i] as int].next,
            }),
        forall|j: int|
            0 <= j < desc.len() && (forall|i: int| 0 <= i < k ==> #[trigger] slots[i] != j)
                ==> #[trigger] placed(desc, slots, list, k)[j] == desc[j],
    decreases k,
{
    lemma_placed_keeps_next(desc, slots, list, k);
    if k > 0 {
        lemma_placed_keeps_next(desc, slots, list, (k - 1) as nat);
        lemma_placed_distinct(desc, slots, list, (k - 1) as nat);
        assert(slots[k - 1] < desc.len());
    }
}

/// A chain is not empty, starts at its head, stays in the table, keeps to its
/// limit and ends at a descriptor without a successor.
pub proof fn lemma_chain_shape(desc: Seq<DescState>, head: u16, limit: nat)
    requires
        chain(desc, head, limit) is Some,
    ensures
        0 < chain(desc, head, limit)->0.len() <= limit,
        chain(desc, head, limit)->0[0] == head,
        forall|i: int|
            0 <= i < chain(desc, head, limit)->0.len() ==> (#[trigger] chain(
                desc,
                head,
                limit,
            )->0[i]) < desc.len(),
        !has_next(desc[chain(desc, head, limit)->0.last() as int].flags),
        forall|i: int| #![trigger chain(desc, head, limit)->0[i]]
            0 <= i < chain(desc, head, limit)->0.len() - 1 ==> {
                &&& has_next(desc[chain(desc, head, limit)->0[i] as int].flags)
                &&& desc[chain(desc, head, limit)->0[i] as int].next == chain(
                    desc,
                    head,
                    limit,
                )->0[i + 1]
            },
    decreases limit,
{
    let c = chain(desc, head, limit)->0;
    if has_next(desc[head as int].flags) {
        let next = desc[head as int].next;
        lemma_chain_shape(desc, next, (limit - 1) as nat);
        let rest = chain(desc, next, (limit - 1) as nat)->0;
        assert(c == seq![head] + rest);
        assert(c.last() == rest.last());
        assert forall|i: int| 0 <= i < c.len() implies (#[trigger] c[i]) < desc.len() by {
            if i > 0 {
                assert(c[i] == rest[i - 1]);
            }
        }
        assert forall|i: int| #![trigger c[i]] 0 <= i < c.len() - 1 implies has_next(
            desc[c[i] as int].flags,
        ) && desc[c[i] as int].next == c[i + 1] by {
            assert(c[i + 1] == rest[i]);
            if i > 0 {
                assert(c[i] == rest[i - 1]);
            }
        }
    }
}

/// A walk over a table in which one `next` was redirected to the start of the
/// walk visits nothing that the old walk did not visit.
pub proof fn lemma_walk_redirected(desc: Seq<DescState>, at: u16, l: int, k: nat)
    requires
        0 <= l < desc.len(),
        forall|m: nat| m <= k ==> #[trigger] walk(desc, at, m) < desc.len(),
    ensures
        exists|j: nat|
            j <= k && #[trigger] walk(desc, at, j) == walk(
                desc.update(l, DescState { next: at, ..desc[l] }),
                at,
                k,
            ),
    decreases k,
{
    let redirected = desc.update(l, DescState { next: at, ..desc[l] });
    if k == 0 {
        assert(walk(desc, at, 0) == walk(redirected, at, 0));
    } else {
        lemma_walk_redirected(desc, at, l, (k - 1) as nat);
        let j = choose|j: nat|
            j <= k - 1 && #[trigger] walk(desc, at, j) == walk(redirected, at, (k - 1) as nat);
        assert(walk(desc, at, j) < desc.len());
        if walk(desc, at, j) == l {
            assert(walk(desc, at, 0) == walk(redirected, at, k));
        } else {
            assert(walk(desc, at, j + 1) == walk(redirected, at, k));
        }
    }
}

/// Walking from the head of a recycled chain visits the chain first.
pub proof fn lemma_walk_recycled(q: QueueState, head: u16, k: nat)
    requires
        q.chain_at(head) is Some,
        k <= q.chain_at(head)->0.len(),
    ensures
        walk(q.recycled(head).desc, head, k) == if k < q.chain_at(head)->0.len() {
            q.chain_at(head)->0[k as int]
        } else {
            q.free_head
        },
    decreases k,
{
    let c = q.chain_at(head)->0;
    lemma_chain_shape(q.desc, head, q.num_used as nat);
    if k > 0 {
        lemma_walk_recycled(q, head, (k - 1) as nat);
        assert(c[k - 1] < q.desc.len());
        assert(c[c.len() - 1] < q.desc.len());
    }
}

/// Recycling a chain keeps the state well formed.
pub proof fn lemma_recycled_wf(q: QueueState, head: u16)
    requires
        q.wf(),
        q.chain_at(head) is Some,
    ensures
        q.recycled(head).wf(),
{
    let c = q.chain_at(head)->0;
    let n = c.len();
    let after = q.recycled(head);
    lemma_chain_shape(q.desc, head, q.num_used as nat);
    assert(c[n - 1] < q.desc.len());
    assert forall|k: nat| k < after.available() implies #[trigger] walk(
        after.desc,
        after.free_head,
        k,
    ) < after.size() by {
        if k < n {
            lemma_walk_recycled(q, head, k);
            assert(c[k as int] < q.desc.len());
        } else {
            let m = (k - n) as nat;
            lemma_walk_recycled(q, head, n);
            lemma_walk_add(after.desc, head, n, m);
            assert(n + m == k);
            lemma_walk_redirected(q.desc, q.free_head, c.last() as int, m);
        }
    }
}

/// Taking back a returned chain keeps the state well formed.
pub proof fn lemma_popped_wf(q: QueueState, token: u16)
    requires
        q.wf(),
        q.chain_at(token) is Some,
    ensures
        q.popped(token).wf(),
{
    lemma_recycled_wf(q, token);
    let r = q.recycled(token);
    assert(q.popped(token).desc == r.desc);
    assert(q.popped(token).available() == r.available());
}

/// The free list of a well-formed state stays inside the table.
pub proof fn lemma_free_list_in_table(q: QueueState)
    requires
        q.wf(),
    ensures
        q.free_list().len() == q.available(),
        forall|i: int|
            0 <= i < q.free_list().len() ==> (#[trigger] q.free_list()[i]) < q.size(),
{
}

/// Offering a chain keeps the state well formed, and leaves of the free list
/// what the chain did not take.
pub proof fn lemma_added_wf(q: QueueState, list: Seq<Entry>)
    requires
        q.wf(),
        list.len() <= q.available(),
    ensures
        q.added(list).wf(),
        q.added(list).free_list() == q.free_list().skip(list.len() as int),
{
    let after = q.added(list);
    let n = list.len();
    lemma_free_list_in_table(q);
    lemma_placed_keeps_next(q.desc, q.free_list(), list, n);
    assert forall|k: nat| k < after.available() implies #[trigger] walk(
        after.desc,
        after.free_head,
        k,
    ) == walk(q.desc, q.free_head, n + k) && walk(q.desc, q.free_head, n + k) < q.size() by {
        lemma_walk_add(q.desc, q.free_head, n, k);
        assert forall|m: nat| m < k implies #[trigger] walk(q.desc, after.free_head, m)
            < q.desc.len() by {
            lemma_walk_add(q.desc, q.free_head, n, m);
            assert(walk(q.desc, q.free_head, n + m) < q.size());
        }
        lemma_walk_same_next(q.desc, after.desc, after.free_head, k);
        assert(walk(q.desc, q.free_head, n + k) < q.size());
    }
    assert(after.free_list() =~= q.free_list().skip(n as int));
}

} // verus!
