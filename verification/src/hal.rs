//! A verified model of the physical-memory layer: a byte arena with a bump
//! frame allocator. The rest of the library consumes physical memory only
//! through this interface.

use vstd::prelude::*;
use crate::vm::PhysAddr;
use crate::vm::PAGE_SIZE;

verus! {

/// The physical memory of one machine: a flat byte arena and a bump
/// allocator handing out page frames. Frames are never returned; page
/// zero is reserved and starts, like everything else, zeroed.
pub struct PhysMem {
    /// The bytes of physical memory.
    pub(crate) mem: Vec<u8>,
    /// The address the next allocated frame will get.
    pub(crate) next_free: usize,
}

impl PhysMem {
    /// The bytes of physical memory.
    pub open(crate) spec fn bytes(self) -> Seq<u8> {
        self.mem@
    }

    /// How many bytes of physical memory exist.
    pub open spec fn size(self) -> int {
        self.bytes().len() as int
    }

    /// The byte at physical address `a`.
    pub open spec fn byte(self, a: int) -> u8 {
        self.bytes()[a]
    }

    /// The watermark of the bump allocator: every handed-out frame lies
    /// entirely below it, and it never moves down.
    pub open(crate) spec fn spec_next_free(self) -> int {
        self.next_free as int
    }

    /// The allocator's bookkeeping is sound: the watermark is page-aligned
    /// and within memory.
    pub open spec fn wf(self) -> bool {
        &&& self.spec_next_free() % (PAGE_SIZE as int) == 0
        &&& PAGE_SIZE <= self.spec_next_free() <= self.size()
        &&& self.size() % (PAGE_SIZE as int) == 0
    }

    /// A fresh physical memory of `pages` zeroed pages. Page zero is
    /// reserved as the zero frame; allocation starts at page one.
    pub fn new(pages: usize) -> (r: PhysMem)
        requires
            1 <= pages,
            pages <= usize::MAX / PAGE_SIZE,
        ensures
            r.wf(),
            r.size() == pages * PAGE_SIZE,
            r.spec_next_free() == PAGE_SIZE,
            forall|a: int| 0 <= a < r.size() ==> r.byte(a) == 0,
    {
        let total = pages * PAGE_SIZE;
        let mut mem: Vec<u8> = Vec::new();
        let mut i: usize = 0;
        while i < total
            invariant
                0 <= i <= total,
                mem@.len() == i,
                forall|a: int| 0 <= a < i ==> mem@[a] == 0,
            decreases total - i,
        {
            mem.push(0);
            i = i + 1;
        }
        proof {
            assert(total as int % (PAGE_SIZE as int) == 0) by (nonlinear_arith)
                requires
                    total == pages * PAGE_SIZE,
                    PAGE_SIZE > 0,
            ;
        }
        PhysMem { mem, next_free: PAGE_SIZE }
    }

    /// Physical memory is addressable: its size fits the machine word.
    pub proof fn lemma_size_bound(self)
        ensures
            self.size() <= usize::MAX,
    {
        vstd::std_specs::vec::axiom_spec_len(&self.mem);
    }

    /// How many bytes of physical memory exist.
    pub fn len(&self) -> (r: usize)
        ensures
            r == self.size(),
    {
        self.mem.len()
    }
}

/// One page frame of physical memory, identified by its base address.
/// Frames come from the bump allocator and are never handed back.
#[derive(Debug, Clone, Copy, PartialEq, Eq, Structural)]
pub struct PhysFrame {
    /// The frame's base address.
    pub paddr: PhysAddr,
}

impl PhysFrame {
    /// The frame's base address.
    pub open spec fn spec_addr(self) -> int {
        self.paddr as int
    }

    /// Allocate one frame, or nothing when memory is exhausted.
    pub fn allocate(pm: &mut PhysMem) -> (r: Option<PhysFrame>)
        requires
            old(pm).wf(),
        ensures
            final(pm).wf(),
            final(pm).bytes() == old(pm).bytes(),
            match r {
                Some(f) => {
                    &&& f.spec_addr() == old(pm).spec_next_free()
                    &&& f.spec_addr() % (PAGE_SIZE as int) == 0
                    &&& f.spec_addr() + PAGE_SIZE <= final(pm).spec_next_free()
                    &&& final(pm).spec_next_free() == old(pm).spec_next_free() + PAGE_SIZE
                },
                None => *final(pm) == *old(pm) && old(pm).spec_next_free() + PAGE_SIZE > old(
                    pm,
                ).size(),
            },
    {
        if pm.next_free <= pm.mem.len() - PAGE_SIZE && pm.next_free + PAGE_SIZE <= pm.mem.len() {
            let paddr = pm.next_free;
            pm.next_free = pm.next_free + PAGE_SIZE;
            Some(PhysFrame { paddr })
        } else {
            None
        }
    }

    /// Allocate one frame and zero its bytes.
    pub fn alloc_zeroed(pm: &mut PhysMem) -> (r: Option<PhysFrame>)
        requires
            old(pm).wf(),
        ensures
            final(pm).wf(),
            match r {
                Some(f) => {
                    &&& f.spec_addr() == old(pm).spec_next_free()
                    &&& f.spec_addr() % (PAGE_SIZE as int) == 0
                    &&& f.spec_addr() + PAGE_SIZE <= final(pm).spec_next_free()
                    &&& final(pm).spec_next_free() == old(pm).spec_next_free() + PAGE_SIZE
                    &&& final(pm).size() == old(pm).size()
                    &&& forall|a: int|
                        f.spec_addr() <= a < f.spec_addr() + PAGE_SIZE ==> final(pm).byte(a) == 0
                    &&& forall|a: int|
                        0 <= a < old(pm).size() && !(f.spec_addr() <= a < f.spec_addr()
                            + PAGE_SIZE) ==> final(pm).byte(a) == old(pm).byte(a)
                },
                None => *final(pm) == *old(pm) && old(pm).spec_next_free() + PAGE_SIZE > old(
                    pm,
                ).size(),
            },
    {
        let got = PhysFrame::allocate(pm);
        match got {
            Some(f) => {
                let ghost mid = *pm;
                pmem_zero(pm, f.paddr, PAGE_SIZE);
                proof {
                    assert forall|a: int|
                        f.spec_addr() <= a < f.spec_addr() + PAGE_SIZE implies pm.byte(a)
                        == 0 by {
                        let j = a - f.spec_addr();
                        assert(pm.byte(f.paddr + j) == 0);
                    }
                    assert forall|a: int|
                        0 <= a < old(pm).size() && !(f.spec_addr() <= a < f.spec_addr()
                            + PAGE_SIZE) implies pm.byte(a) == old(pm).byte(a) by {
                        assert(pm.byte(a) == mid.byte(a));
                        assert(mid.bytes() == old(pm).bytes());
                    }
                }
                Some(f)
            },
            None => None,
        }
    }

    /// Allocate `size` contiguous frames whose base address is aligned to
    /// `1 << align_log2` pages, returning the base address; nothing when
    /// memory is exhausted.
    pub fn alloc_contiguous_base(pm: &mut PhysMem, size: usize, align_log2: usize) -> (r: Option<
        PhysAddr,
    >)
        requires
            old(pm).wf(),
            align_log2 <= 16,
            size <= usize::MAX / PAGE_SIZE,
        ensures
            final(pm).wf(),
            final(pm).bytes() == old(pm).bytes(),
            match r {
                Some(base) => {
                    &&& base as int % ((PAGE_SIZE as int) * ((1usize << align_log2) as int)) == 0
                    &&& old(pm).spec_next_free() <= base as int
                    &&& base as int + size * PAGE_SIZE == final(pm).spec_next_free()
                    &&& final(pm).spec_next_free() <= final(pm).size()
                },
                None => *final(pm) == *old(pm),
            },
    {
        let c = 1usize << align_log2;
        proof {
            assert(1usize <= (1usize << align_log2) && (1usize << align_log2)
                <= 0x10000usize) by (bit_vector)
                requires
                    align_log2 <= 16usize,
            ;
        }
        let align = PAGE_SIZE * c;
        if pm.next_free > usize::MAX - (align - 1) {
            return None;
        }
        proof {
            assert(align >= PAGE_SIZE) by (nonlinear_arith)
                requires
                    align == PAGE_SIZE * c,
                    c >= 1,
            ;
        }
        let q = (pm.next_free + (align - 1)) / align;
        proof {
            let a = align as int;
            let n = pm.spec_next_free();
            vstd::arithmetic::div_mod::lemma_fundamental_div_mod(n + a - 1, a);
            vstd::arithmetic::div_mod::lemma_mod_bound(n + a - 1, a);
            assert(q * a == a * (q as int)) by (nonlinear_arith);
            assert(q * a <= n + a - 1);
        }
        let base = q * align;
        proof {
            let a = align as int;
            let p = PAGE_SIZE as int;
            let n = pm.spec_next_free();
            let q = (n + a - 1) / a;
            vstd::arithmetic::div_mod::lemma_fundamental_div_mod(n + a - 1, a);
            vstd::arithmetic::div_mod::lemma_mod_bound(n + a - 1, a);
            assert(base as int == q * a);
            assert(q * a == a * q) by (nonlinear_arith);
            assert(n <= base as int);
            vstd::arithmetic::div_mod::lemma_mod_multiples_basic(q, a);
            assert(base as int % a == 0);
            assert(q * a == (q * (c as int)) * p) by (nonlinear_arith)
                requires
                    a == p * (c as int),
            ;
            vstd::arithmetic::div_mod::lemma_mod_multiples_basic(q * (c as int), p);
            assert(base as int % p == 0);
        }
        if base > pm.mem.len() {
            return None;
        }
        let need = size * PAGE_SIZE;
        if need > pm.mem.len() - base {
            return None;
        }
        pm.next_free = base + need;
        proof {
            let p = PAGE_SIZE as int;
            let b1 = base as int / p;
            vstd::arithmetic::div_mod::lemma_fundamental_div_mod(base as int, p);
            assert(base as int == p * b1);
            assert(p * b1 + size * p == (b1 + size) * p) by (nonlinear_arith);
            vstd::arithmetic::div_mod::lemma_mod_multiples_basic(b1 + size as int, p);
            assert((base + need) as int % p == 0);
        }
        Some(base)
    }

    /// Allocate `size` contiguous frames aligned to `1 << align_log2`
    /// pages; an empty list when memory is exhausted.
    pub fn alloc_contiguous(pm: &mut PhysMem, size: usize, align_log2: usize) -> (r: Vec<
        PhysFrame,
    >)
        requires
            old(pm).wf(),
            align_log2 <= 16,
            size <= usize::MAX / PAGE_SIZE,
        ensures
            final(pm).wf(),
            final(pm).bytes() == old(pm).bytes(),
            r@.len() == 0 || r@.len() == size,
            r@.len() == size ==> forall|i: int|
                0 <= i < size ==> {
                    let f = #[trigger] r@[i];
                    &&& old(pm).spec_next_free() <= f.spec_addr()
                    &&& f.spec_addr() + PAGE_SIZE <= final(pm).spec_next_free()
                    &&& f.spec_addr() == r@[0].spec_addr() + i * PAGE_SIZE
                },
    {
        let got = PhysFrame::alloc_contiguous_base(pm, size, align_log2);
        match got {
            Some(base) => PhysFrame::frames_from(base, size),
            None => Vec::new(),
        }
    }

    /// Allocate `size` contiguous zeroed frames aligned to
    /// `1 << align_log2` pages; an empty list when memory is exhausted.
    pub fn alloc_contiguous_zeroed(pm: &mut PhysMem, size: usize, align_log2: usize) -> (r: Vec<
        PhysFrame,
    >)
        requires
            old(pm).wf(),
            align_log2 <= 16,
            size <= usize::MAX / PAGE_SIZE,
        ensures
            final(pm).wf(),
            final(pm).size() == old(pm).size(),
            r@.len() == 0 || r@.len() == size,
            r@.len() == 0 && size > 0 ==> *final(pm) == *old(pm),
            r@.len() == size && size > 0 ==> forall|i: int|
                0 <= i < size ==> {
                    let f = #[trigger] r@[i];
                    &&& old(pm).spec_next_free() <= f.spec_addr()
                    &&& f.spec_addr() + PAGE_SIZE <= final(pm).spec_next_free()
                    &&& f.spec_addr() == r@[0].spec_addr() + i * PAGE_SIZE
                    &&& forall|a: int|
                        f.spec_addr() <= a < f.spec_addr() + PAGE_SIZE ==> final(pm).byte(a) == 0
                },
            r@.len() == size && size > 0 ==> forall|a: int|
                0 <= a < old(pm).size() && !(r@[0].spec_addr() <= a < r@[0].spec_addr() + size
                    * PAGE_SIZE) ==> final(pm).byte(a) == old(pm).byte(a),
    {
        let got = PhysFrame::alloc_contiguous_base(pm, size, align_log2);
        match got {
            Some(base) => {
                let need = size * PAGE_SIZE;
                pmem_zero(pm, base, need);
                let frames = PhysFrame::frames_from(base, size);
                proof {
                    if size > 0 {
                        assert(frames@[0].spec_addr() == base as int);
                        assert forall|i: int, a: int|
                            #![trigger frames@[i], pm.byte(a)]
                            0 <= i < size && frames@[i].spec_addr() <= a < frames@[i].spec_addr()
                                + PAGE_SIZE implies pm.byte(a) == 0 by {
                            assert(frames@[i].spec_addr() == base + i * PAGE_SIZE);
                            assert(i * PAGE_SIZE >= 0) by (nonlinear_arith)
                                requires
                                    i >= 0,
                            ;
                            assert((i + 1) * PAGE_SIZE <= size * PAGE_SIZE) by (nonlinear_arith)
                                requires
                                    i + 1 <= size,
                            ;
                            assert(base <= a < base + size * PAGE_SIZE);
                            assert(pm.byte(base + (a - base)) == 0);
                        }
                    }
                }
                frames
            },
            None => Vec::new(),
        }
    }

    /// The frames covering `size` pages from `base` upward.
    fn frames_from(base: PhysAddr, size: usize) -> (r: Vec<PhysFrame>)
        requires
            base + size * PAGE_SIZE <= usize::MAX,
        ensures
            r@.len() == size,
            forall|i: int|
                0 <= i < size ==> (#[trigger] r@[i]).spec_addr() == base + i * PAGE_SIZE,
    {
        let mut out: Vec<PhysFrame> = Vec::new();
        let mut i: usize = 0;
        while i < size
            invariant
                0 <= i <= size,
                base + size * PAGE_SIZE <= usize::MAX,
                out@.len() == i,
                forall|x: int|
                    0 <= x < i ==> (#[trigger] out@[x]).spec_addr() == base + x * PAGE_SIZE,
            decreases size - i,
        {
            proof {
                assert(0 <= i * PAGE_SIZE && (i as int + 1) * PAGE_SIZE <= size
                    * PAGE_SIZE) by (nonlinear_arith)
                    requires
                        0 <= i < size,
                        PAGE_SIZE > 0,
                ;
            }
            out.push(PhysFrame { paddr: base + i * PAGE_SIZE });
            i = i + 1;
        }
        out
    }

    /// The frame's base address.
    pub fn addr(&self) -> (r: PhysAddr)
        ensures
            r == self.spec_addr(),
    {
        self.paddr
    }

    /// The address of the reserved, permanently zeroed frame.
    pub fn zero_frame_addr() -> (r: PhysAddr)
        ensures
            r == 0,
    {
        0
    }
}

/// Read `len` bytes of physical memory starting at `paddr`.
pub fn pmem_read(pm: &PhysMem, paddr: PhysAddr, len: usize) -> (r: Vec<u8>)
    requires
        paddr + len <= pm.size(),
    ensures
        r@.len() == len,
        forall|j: int| 0 <= j < len ==> r@[j] == #[trigger] pm.byte(paddr + j),
{
    let mut out: Vec<u8> = Vec::new();
    let mut j: usize = 0;
    proof {
        pm.lemma_size_bound();
    }
    while j < len
        invariant
            0 <= j <= len,
            paddr + len <= pm.size(),
            pm.size() <= usize::MAX,
            out@.len() == j,
            forall|x: int| 0 <= x < j ==> out@[x] == #[trigger] pm.byte(paddr + x),
        decreases len - j,
    {
        out.push(pm.mem[paddr + j]);
        j = j + 1;
    }
    out
}

/// Write the bytes of `buf` to physical memory starting at `paddr`.
pub fn pmem_write(pm: &mut PhysMem, paddr: PhysAddr, buf: &[u8])
    requires
        paddr + buf@.len() <= old(pm).size(),
    ensures
        final(pm).size() == old(pm).size(),
        final(pm).spec_next_free() == old(pm).spec_next_free(),
        forall|j: int|
            0 <= j < buf@.len() ==> #[trigger] final(pm).byte(paddr + j) == buf@[j],
        forall|a: int|
            0 <= a < old(pm).size() && !(paddr <= a < paddr + buf@.len()) ==> final(pm).byte(a)
                == old(pm).byte(a),
{
    let len = buf.len();
    let mut j: usize = 0;
    proof {
        pm.lemma_size_bound();
    }
    while j < len
        invariant
            0 <= j <= len,
            len == buf@.len(),
            paddr + len <= pm.size(),
            pm.size() <= usize::MAX,
            pm.size() == old(pm).size(),
            pm.spec_next_free() == old(pm).spec_next_free(),
            forall|x: int| 0 <= x < j ==> #[trigger] pm.byte(paddr + x) == buf@[x],
            forall|a: int|
                0 <= a < old(pm).size() && !(paddr <= a < paddr + j) ==> pm.byte(a) == old(
                    pm,
                ).byte(a),
        decreases len - j,
    {
        let ghost prev = *pm;
        pm.mem.set(paddr + j, buf[j]);
        proof {
            assert forall|x: int|
                0 <= x < j + 1 implies #[trigger] pm.byte(paddr + x) == buf@[x] by {
                if x < j {
                    assert(prev.byte(paddr + x) == buf@[x]);
                }
            }
            assert forall|a: int|
                0 <= a < old(pm).size() && !(paddr <= a < paddr + j + 1) implies pm.byte(a) == old(
                pm,
            ).byte(a) by {
                assert(prev.byte(a) == old(pm).byte(a));
            }
        }
        j = j + 1;
    }
}

/// Zero `len` bytes of physical memory starting at `paddr`.
pub fn pmem_zero(pm: &mut PhysMem, paddr: PhysAddr, len: usize)
    requires
        paddr + len <= old(pm).size(),
    ensures
        final(pm).size() == old(pm).size(),
        final(pm).spec_next_free() == old(pm).spec_next_free(),
        forall|j: int| 0 <= j < len ==> #[trigger] final(pm).byte(paddr + j) == 0,
        forall|a: int|
            0 <= a < old(pm).size() && !(paddr <= a < paddr + len) ==> final(pm).byte(a) == old(
                pm,
            ).byte(a),
{
    let mut j: usize = 0;
    proof {
        pm.lemma_size_bound();
    }
    while j < len
        invariant
            0 <= j <= len,
            paddr + len <= pm.size(),
            pm.size() <= usize::MAX,
            pm.size() == old(pm).size(),
            pm.spec_next_free() == old(pm).spec_next_free(),
            forall|x: int| 0 <= x < j ==> #[trigger] pm.byte(paddr + x) == 0,
            forall|a: int|
                0 <= a < old(pm).size() && !(paddr <= a < paddr + j) ==> pm.byte(a) == old(
                    pm,
                ).byte(a),
        decreases len - j,
    {
        let ghost prev = *pm;
        pm.mem.set(paddr + j, 0);
        proof {
            assert forall|x: int| 0 <= x < j + 1 implies #[trigger] pm.byte(paddr + x) == 0 by {
                if x < j {
                    assert(prev.byte(paddr + x) == 0);
                }
            }
            assert forall|a: int|
                0 <= a < old(pm).size() && !(paddr <= a < paddr + j + 1) implies pm.byte(a) == old(
                pm,
            ).byte(a) by {
                assert(prev.byte(a) == old(pm).byte(a));
            }
        }
        j = j + 1;
    }
}

/// Copy one page of physical memory from `src` to `target`; the two
/// frames must not overlap.
pub fn frame_copy(pm: &mut PhysMem, src: PhysAddr, target: PhysAddr)
    requires
        src + PAGE_SIZE <= old(pm).size(),
        target + PAGE_SIZE <= old(pm).size(),
        src + PAGE_SIZE <= target || target + PAGE_SIZE <= src,
    ensures
        final(pm).size() == old(pm).size(),
        final(pm).spec_next_free() == old(pm).spec_next_free(),
        forall|j: int|
            0 <= j < PAGE_SIZE ==> #[trigger] final(pm).byte(target + j) == old(pm).byte(src + j),
        forall|a: int|
            0 <= a < old(pm).size() && !(target <= a < target + PAGE_SIZE) ==> final(pm).byte(a)
                == old(pm).byte(a),
{
    let mut j: usize = 0;
    proof {
        pm.lemma_size_bound();
    }
    while j < PAGE_SIZE
        invariant
            0 <= j <= PAGE_SIZE,
            pm.size() <= usize::MAX,
            src + PAGE_SIZE <= pm.size(),
            target + PAGE_SIZE <= pm.size(),
            src + PAGE_SIZE <= target || target + PAGE_SIZE <= src,
            pm.size() == old(pm).size(),
            pm.spec_next_free() == old(pm).spec_next_free(),
            forall|x: int| 0 <= x < j ==> #[trigger] pm.byte(target + x) == old(pm).byte(src + x),
            forall|a: int|
                0 <= a < old(pm).size() && !(target <= a < target + j) ==> pm.byte(a) == old(
                    pm,
                ).byte(a),
        decreases PAGE_SIZE - j,
    {
        let b = pm.mem[src + j];
        let ghost prev = *pm;
        pm.mem.set(target + j, b);
        proof {
            assert forall|x: int|
                0 <= x < j + 1 implies #[trigger] pm.byte(target + x) == old(pm).byte(
                src + x,
            ) by {
                if x < j {
                    assert(prev.byte(target + x) == old(pm).byte(src + x));
                } else {
                    assert(prev.byte(src + j) == old(pm).byte(src + j));
                }
            }
            assert forall|a: int|
                0 <= a < old(pm).size() && !(target <= a < target + j + 1) implies pm.byte(a)
                == old(pm).byte(a) by {
                assert(prev.byte(a) == old(pm).byte(a));
            }
        }
        j = j + 1;
    }
}

/// Cache maintenance for the frame at `target`; caches are not modelled,
/// so this does nothing.
pub fn frame_flush(_target: PhysAddr) {
}

} // verus!
