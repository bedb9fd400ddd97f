//! Page sizes and rounding of byte counts to pages.

use vstd::arithmetic::power2::pow2;
use vstd::prelude::*;

verus! {

/// `n` is a power of two.
pub open spec fn power_of_two(n: nat) -> bool {
    exists|k: nat| n == pow2(k)
}

/// `usize::is_power_of_two` of the standard library: true exactly when the
/// number is 2 to the power of some natural number.
pub assume_specification[ usize::is_power_of_two ](n: usize) -> (r: bool)
    ensures
        r == power_of_two(n as nat),
;

/// Masking with `n - 1` is the remainder by `n`, for `n` a power of two.
pub proof fn lemma_mask_is_mod(x: usize, n: usize)
    requires
        power_of_two(n as nat),
    ensures
        n > 0,
        x & ((n - 1) as usize) == x % n,
{
    let k = choose|k: nat| n == pow2(k);
    vstd::arithmetic::power2::lemma_pow2_pos(k);
    if k >= usize::BITS {
        vstd::arithmetic::power2::lemma2_to64();
        vstd::arithmetic::power2::lemma2_to64_rest();
        if k > usize::BITS {
            vstd::arithmetic::power2::lemma_pow2_strictly_increases(usize::BITS as nat, k);
        }
        assert(false);
    }
    vstd::bits::lemma_usize_low_bits_mask_is_mod(x, k);
}

/// Aligns `size` up to a page: the first multiple of `page_size` that is not below
/// `size`.
pub fn align_up(size: usize, page_size: usize) -> (aligned: usize)
    requires
        page_size > 0,
        size + page_size - 1 <= usize::MAX,
    ensures
        aligned % page_size == 0,
        size <= aligned < size + page_size,
{
    let last: usize = size + (page_size - 1);
    proof {
        let n = page_size as int;
        vstd::arithmetic::div_mod::lemma_fundamental_div_mod(last as int, n);
        vstd::arithmetic::mul::lemma_mul_is_commutative(n, last as int / n);
        vstd::arithmetic::div_mod::lemma_mod_multiples_basic(last as int / n, n);
    }
    last / page_size * page_size
}

/// The number of pages that `size` bytes take.
pub fn pages(size: usize, page_size: usize) -> (count: usize)
    requires
        page_size > 0,
        size + page_size <= usize::MAX,
    ensures
        count == (size + page_size - 1) / (page_size as int),
        count * page_size >= size,
        (count - 1) * page_size < size,
{
    proof {
        let y = size + page_size - 1;
        let p = page_size as int;
        vstd::arithmetic::div_mod::lemma_fundamental_div_mod(y, p);
        assert((y / p) * p == p * (y / p)) by (nonlinear_arith);
        assert((y / p - 1) * p == p * (y / p) - p) by (nonlinear_arith);
    }
    (size + page_size - 1) / page_size
}

/// A page size, a power of two given by its exponent.
pub trait PageSize {
    /// The page size is `1 << PAGE_SIZE_SHIFT`.
    const PAGE_SIZE_SHIFT: u8;

    /// The page size in bytes.
    fn page_size() -> (size: usize)
        requires
            Self::PAGE_SIZE_SHIFT < usize::BITS,
        ensures
            size == pow2(Self::PAGE_SIZE_SHIFT as nat),
    {
        proof {
            vstd::bits::lemma_usize_pow2_no_overflow(Self::PAGE_SIZE_SHIFT as nat);
            vstd::bits::lemma_usize_shl_is_mul(1usize, Self::PAGE_SIZE_SHIFT as usize);
        }
        1usize << Self::PAGE_SIZE_SHIFT
    }
}

/// A standard 4 KiB page.
pub struct Size4KiB;

impl PageSize for Size4KiB {
    const PAGE_SIZE_SHIFT: u8 = 12;
}

/// The page size of every page kind is positive and a power of two.
pub proof fn law_page_size_is_power_of_two<PS: PageSize>()
    ensures
        pow2(PS::PAGE_SIZE_SHIFT as nat) > 0,
        power_of_two(pow2(PS::PAGE_SIZE_SHIFT as nat)),
{
    vstd::arithmetic::power2::lemma_pow2_pos(PS::PAGE_SIZE_SHIFT as nat);
}

/// A standard page has 4096 bytes.
pub proof fn law_standard_page()
    ensures
        Size4KiB::PAGE_SIZE_SHIFT == 12,
        pow2(Size4KiB::PAGE_SIZE_SHIFT as nat) == 4096,
{
    vstd::arithmetic::power2::lemma2_to64();
}

/// One is a power of two, the double of a number is one exactly where the number is, and
/// neither zero nor an odd number above one is.
pub proof fn law_powers_of_two(n: nat)
    ensures
        power_of_two(1),
        !power_of_two(0),
        power_of_two(2 * n) <==> power_of_two(n),
        n > 0 ==> !power_of_two(2 * n + 1),
{
    vstd::arithmetic::power2::lemma2_to64();
    assert(power_of_two(1)) by {
        assert(1 == pow2(0));
    }
    assert forall|k: nat| 0 != #[trigger] pow2(k) by {
        vstd::arithmetic::power2::lemma_pow2_pos(k);
    }
    if power_of_two(n) {
        let k = choose|k: nat| n == pow2(k);
        vstd::arithmetic::power2::lemma_pow2_unfold(k + 1);
        assert(2 * n == pow2(k + 1));
    }
    if power_of_two(2 * n) {
        let k = choose|k: nat| 2 * n == pow2(k);
        if k > 0 {
            vstd::arithmetic::power2::lemma_pow2_unfold(k);
            assert(n == pow2((k - 1) as nat));
        }
    }
    if n > 0 && power_of_two(2 * n + 1) {
        let k = choose|k: nat| 2 * n + 1 == pow2(k);
        if k > 0 {
            vstd::arithmetic::power2::lemma_pow2_unfold(k);
        }
    }
}

} // verus!
