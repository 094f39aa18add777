//! Page arithmetic: sizes, alignment, and page counts.

use vstd::prelude::*;
use vstd::arithmetic::div_mod::lemma_fundamental_div_mod;
use vstd::arithmetic::div_mod::lemma_mod_multiples_vanish;
use vstd::arithmetic::div_mod::lemma_small_mod;

verus! {

/// A physical address.
pub type PhysAddr = usize;

/// A virtual address.
pub type VirtAddr = usize;

/// A device address.
pub type DevVAddr = usize;

/// The size of one page.
pub const PAGE_SIZE: usize = 0x1000;

/// The base-two logarithm of the page size.
pub const PAGE_SIZE_LOG2: usize = 12;

/// Whether `x` is a multiple of `align`.
pub fn check_aligned(x: usize, align: usize) -> (r: bool)
    requires
        align > 0,
    ensures
        r == (x % align == 0),
{
    x % align == 0
}

/// Whether `x` is a multiple of the page size.
pub fn page_aligned(x: usize) -> (r: bool)
    ensures
        r == (x % PAGE_SIZE == 0),
{
    check_aligned(x, PAGE_SIZE)
}

/// How many blocks of `align` the size `x` needs, rounding up. The
/// addition wraps around at the machine-word boundary, so a size within
/// `align - 1` of the top of the address space rounds to a small count.
pub open spec fn spec_ceil(x: usize, align: usize) -> usize {
    (((x + align - 1) % (usize::MAX + 1)) / align as int) as usize
}

/// How many blocks of `align` the size `x` needs, rounding up. A size so
/// large that adding `align - 1` overflows wraps around, as documented by
/// `spec_ceil`.
pub fn ceil(x: usize, align: usize) -> (r: usize)
    requires
        align > 0,
    ensures
        r == spec_ceil(x, align),
{
    if x <= usize::MAX - (align - 1) {
        proof {
            lemma_small_mod((x + align - 1) as nat, (usize::MAX + 1) as nat);
        }
        (x + (align - 1)) / align
    } else {
        let wrapped = x - (usize::MAX - (align - 1)) - 1;
        proof {
            let m = usize::MAX as int + 1;
            assert(wrapped == (x + align - 1) - m);
            lemma_mod_multiples_vanish(1, wrapped as int, m);
            assert(m * 1 + wrapped == x + align - 1);
            lemma_small_mod(wrapped as nat, m as nat);
        }
        wrapped / align
    }
}

/// How many pages the size `x` needs, rounding up.
pub fn pages(x: usize) -> (r: usize)
    ensures
        r == spec_ceil(x, PAGE_SIZE),
{
    ceil(x, PAGE_SIZE)
}

/// `x` rounded up to a multiple of the page size.
pub fn roundup_pages(x: usize) -> (r: usize)
    ensures
        r == spec_ceil(x, PAGE_SIZE) * PAGE_SIZE,
{
    let p = pages(x);
    proof {
        let m = usize::MAX as int + 1;
        let s = (x + PAGE_SIZE - 1) % m;
        assert(0 <= s < m) by {
            lemma_fundamental_div_mod(x as int + PAGE_SIZE - 1, m);
        }
        assert(s / PAGE_SIZE as int * PAGE_SIZE as int <= s) by {
            lemma_fundamental_div_mod(s, PAGE_SIZE as int);
            assert(s % PAGE_SIZE as int >= 0);
        }
    }
    p * PAGE_SIZE
}

/// `x` rounded down to a multiple of the page size.
pub fn round_down_pages(x: usize) -> (r: usize)
    ensures
        r == x / PAGE_SIZE * PAGE_SIZE,
{
    proof {
        lemma_fundamental_div_mod(x as int, PAGE_SIZE as int);
        assert(x % PAGE_SIZE >= 0);
    }
    x / PAGE_SIZE * PAGE_SIZE
}

} // verus!
