//! Where the parts of a queue lie in its memory.

use crate::page::align_up;
use vstd::prelude::*;

verus! {

/// Bytes that a descriptor takes in shared memory.
pub const DESC_BYTES: usize = 16;

/// Bytes that a counter, a flag word or an entry of the available ring takes.
pub const WORD_BYTES: usize = 2;

/// Bytes that an entry of the used ring takes.
pub const USED_ELEM_BYTES: usize = 8;

/// The inner layout of a queue: the descriptor table lies at its start, the
/// available ring right behind it, and the used ring on the next page boundary.
#[derive(Clone, Copy, Debug, PartialEq, Eq)]
pub struct VirtQueueLayout {
    /// Offset of the available ring.
    pub avail_offset: usize,
    /// Offset of the used ring.
    pub used_offset: usize,
    /// Bytes in all.
    pub size: usize,
}

/// Bytes of the descriptor table.
pub open spec fn desc_bytes(queue_size: int) -> int {
    DESC_BYTES * queue_size
}

/// Bytes of the available ring: its entries, two words before and one behind.
pub open spec fn avail_bytes(queue_size: int) -> int {
    WORD_BYTES * (3 + queue_size)
}

/// Bytes of the used ring: its entries, two words before and one behind.
pub open spec fn used_bytes(queue_size: int) -> int {
    WORD_BYTES * 3 + USED_ELEM_BYTES * queue_size
}

/// The first multiple of `align` that is not below `offset`.
pub open spec fn round_up(offset: int, align: int) -> int {
    (offset + align - 1) / align * align
}

/// The layout of a queue of this size can be computed in a machine word.
pub open spec fn layout_fits(queue_size: int, page_size: int) -> bool {
    let front = desc_bytes(queue_size) + avail_bytes(queue_size);
    let back = used_bytes(queue_size);
    &&& front + page_size - 1 <= usize::MAX
    &&& back + page_size - 1 <= usize::MAX
    &&& round_up(front, page_size) + round_up(back, page_size) <= usize::MAX
}

/// The first multiple that is not below the offset is the only one less than `align`
/// away.
proof fn lemma_round_up(offset: int, align: int, at: int)
    requires
        align > 0,
        at % align == 0,
        offset <= at < offset + align,
    ensures
        at == round_up(offset, align),
{
    let y = offset + align - 1;
    vstd::arithmetic::div_mod::lemma_fundamental_div_mod(at, align);
    vstd::arithmetic::mul::lemma_mul_is_commutative(align, at / align);
    vstd::arithmetic::div_mod::lemma_fundamental_div_mod_converse(y, align, at / align, y - at);
}

impl VirtQueueLayout {
    /// This is the layout of a queue of `queue_size` descriptors: the available ring lies
    /// right behind the descriptors, the used ring on the first page boundary behind
    /// that, and the whole ends at the first page boundary behind the used ring.
    pub open spec fn places(self, queue_size: int, page_size: int) -> bool {
        let front = desc_bytes(queue_size) + avail_bytes(queue_size);
        let end = self.used_offset + used_bytes(queue_size);
        &&& self.avail_offset == desc_bytes(queue_size)
        &&& self.used_offset as int % page_size == 0
        &&& front <= self.used_offset < front + page_size
        &&& self.size as int % page_size == 0
        &&& end <= self.size < end + page_size
    }

    /// The layout of a queue of `queue_size` descriptors, in pages of `page_size` bytes.
    pub fn new(queue_size: usize, page_size: usize) -> (layout: Self)
        requires
            page_size > 0,
            layout_fits(queue_size as int, page_size as int),
        ensures
            layout.places(queue_size as int, page_size as int),
    {
        let desc: usize = DESC_BYTES * queue_size;
        let avail: usize = WORD_BYTES * (3 + queue_size);
        let used: usize = WORD_BYTES * 3 + USED_ELEM_BYTES * queue_size;
        let used_offset: usize = align_up(desc + avail, page_size);
        let used_pages: usize = align_up(used, page_size);
        proof {
            let p = page_size as int;
            lemma_round_up(desc + avail, p, used_offset as int);
            lemma_round_up(used as int, p, used_pages as int);
            assert((used_offset + used_pages) % p == 0) by {
                vstd::arithmetic::div_mod::lemma_mod_adds(used_offset as int, used_pages as int, p);
            }
        }
        VirtQueueLayout { avail_offset: desc, used_offset, size: used_offset + used_pages }
    }
}

/// There is one layout of a queue.
pub proof fn law_layout_is_unique(
    a: VirtQueueLayout,
    b: VirtQueueLayout,
    queue_size: int,
    page_size: int,
)
    requires
        page_size > 0,
        a.places(queue_size, page_size),
        b.places(queue_size, page_size),
    ensures
        a == b,
{
    let front = desc_bytes(queue_size) + avail_bytes(queue_size);
    lemma_round_up(front, page_size, a.used_offset as int);
    lemma_round_up(front, page_size, b.used_offset as int);
    let end = a.used_offset + used_bytes(queue_size);
    lemma_round_up(end, page_size, a.size as int);
    lemma_round_up(end, page_size, b.size as int);
}

/// A queue that fits its pages takes at least two of them: the device finds the used
/// ring on a page of its own, behind the descriptors and the available ring.
pub proof fn law_used_ring_has_its_own_page(layout: VirtQueueLayout, queue_size: int, page_size: int)
    requires
        queue_size >= 0,
        page_size > 0,
        layout.places(queue_size, page_size),
    ensures
        layout.used_offset >= page_size,
        layout.size >= layout.used_offset + page_size,
        layout.size >= 2 * page_size,
{
    let u = layout.used_offset as int;
    let z = layout.size as int;
    vstd::arithmetic::div_mod::lemma_fundamental_div_mod(u, page_size);
    vstd::arithmetic::div_mod::lemma_fundamental_div_mod(z, page_size);
    let a = u / page_size;
    let b = z / page_size;
    assert(a >= 1 && b >= a + 1) by (nonlinear_arith)
        requires
            page_size > 0,
            0 < page_size * a < page_size * b,
    ;
    assert(page_size * a >= page_size && page_size * b >= page_size * a + page_size)
        by (nonlinear_arith)
        requires
            page_size > 0,
            a >= 1,
            b >= a + 1,
    ;
}

/// A queue of `n` descriptors has its available ring at byte 16 `n`, its used ring at the
/// first page boundary that leaves room for the 2 `n` + 6 bytes of the available ring, and
/// ends at the first page boundary that leaves room for the 8 `n` + 6 bytes of the used
/// ring.
pub proof fn law_layout_in_bytes(layout: VirtQueueLayout, n: int, page_size: int, boundary: int)
    requires
        page_size > 0,
        layout.places(n, page_size),
        boundary % page_size == 0,
    ensures
        layout.avail_offset == 16 * n,
        layout.used_offset as int % page_size == 0,
        layout.used_offset >= 16 * n + 2 * n + 6,
        boundary >= 16 * n + 2 * n + 6 ==> layout.used_offset <= boundary,
        layout.size as int % page_size == 0,
        layout.size >= layout.used_offset + 8 * n + 6,
        boundary >= layout.used_offset + 8 * n + 6 ==> layout.size <= boundary,
{
    lemma_boundaries_are_a_page_apart(layout.used_offset as int, boundary, page_size);
    lemma_boundaries_are_a_page_apart(layout.size as int, boundary, page_size);
}

/// Of two page boundaries the later one is at least a page behind the other.
proof fn lemma_boundaries_are_a_page_apart(later: int, earlier: int, page_size: int)
    requires
        page_size > 0,
        later % page_size == 0,
        earlier % page_size == 0,
    ensures
        earlier < later ==> earlier + page_size <= later,
{
    vstd::arithmetic::div_mod::lemma_fundamental_div_mod(later, page_size);
    vstd::arithmetic::div_mod::lemma_fundamental_div_mod(earlier, page_size);
    let (a, b) = (earlier / page_size, later / page_size);
    if earlier < later {
        assert(a + 1 <= b && page_size * a + page_size <= page_size * b) by (nonlinear_arith)
            requires
                page_size > 0,
                page_size * a < page_size * b,
        ;
    }
}

/// The layout can be computed for every queue whose parts, each rounded up to pages, fit
/// a machine word together.
pub proof fn law_small_layouts_fit(n: int, page_size: int)
    requires
        n >= 0,
        page_size > 0,
        26 * n + 12 + 2 * page_size <= usize::MAX,
    ensures
        layout_fits(n, page_size),
{
    let front = 18 * n + 6;
    let back = 8 * n + 6;
    let (y, z) = (front + page_size - 1, back + page_size - 1);
    vstd::arithmetic::div_mod::lemma_fundamental_div_mod(y, page_size);
    vstd::arithmetic::div_mod::lemma_fundamental_div_mod(z, page_size);
    vstd::arithmetic::mul::lemma_mul_is_commutative(page_size, y / page_size);
    vstd::arithmetic::mul::lemma_mul_is_commutative(page_size, z / page_size);
}

} // verus!
