//! Memory objects: a list of page frames holding bytes, readable and
//! writable at byte granularity across page boundaries.

use vstd::prelude::*;
use vstd::arithmetic::div_mod::lemma_fundamental_div_mod;
use vstd::arithmetic::div_mod::lemma_fundamental_div_mod_converse;
use crate::error::ZxResult;
use crate::hal::PhysFrame;
use crate::hal::PhysMem;
use crate::hal::pmem_zero;
use crate::hal::frame_copy;
use crate::vm::PAGE_SIZE;

verus! {

/// A paged memory object: an ordered list of page frames whose bytes form
/// one flat range.
pub struct VmObject {
    /// The frames backing the object, one per page.
    pub frames: Vec<PhysFrame>,
}

impl VmObject {
    /// How many pages the object holds.
    pub open spec fn spec_pages(self) -> int {
        self.frames@.len() as int
    }

    /// How many bytes the object holds.
    pub open spec fn spec_size(self) -> int {
        self.spec_pages() * PAGE_SIZE
    }

    /// The object's frames are all allocated (below the allocator
    /// watermark) and pairwise disjoint.
    pub open spec fn wf(self, pm: PhysMem) -> bool {
        &&& forall|i: int|
            0 <= i < self.frames@.len() ==> (#[trigger] self.frames@[i]).spec_addr() + PAGE_SIZE
                <= pm.spec_next_free()
        &&& forall|i: int, j: int|
            #![trigger self.frames@[i], self.frames@[j]]
            0 <= i < j < self.frames@.len() ==> self.frames@[i].spec_addr() + PAGE_SIZE
                <= self.frames@[j].spec_addr() || self.frames@[j].spec_addr() + PAGE_SIZE
                <= self.frames@[i].spec_addr()
    }

    /// Whether physical address `a` lies in one of the object's frames.
    pub open spec fn owns(self, a: int) -> bool {
        exists|i: int|
            0 <= i < self.frames@.len() && (#[trigger] self.frames@[i]).spec_addr() <= a
                < self.frames@[i].spec_addr() + PAGE_SIZE
    }

    /// The physical address holding byte `off` of the object.
    pub open spec fn addr_of(self, off: int) -> int {
        self.frames@[off / PAGE_SIZE as int].spec_addr() + off % PAGE_SIZE as int
    }

    /// Byte `off` of the object.
    pub open spec fn byte_at(self, pm: PhysMem, off: int) -> u8 {
        pm.byte(self.addr_of(off))
    }

    /// Distinct byte offsets of a well-formed object live at distinct
    /// physical addresses.
    pub proof fn lemma_addr_injective(self, pm: PhysMem, x: int, y: int)
        requires
            self.wf(pm),
            0 <= x < self.spec_size(),
            0 <= y < self.spec_size(),
            x != y,
        ensures
            self.addr_of(x) != self.addr_of(y),
    {
        let p = PAGE_SIZE as int;
        let fx = x / p;
        let fy = y / p;
        lemma_fundamental_div_mod(x, p);
        lemma_fundamental_div_mod(y, p);
        vstd::arithmetic::div_mod::lemma_mod_bound(x, p);
        vstd::arithmetic::div_mod::lemma_mod_bound(y, p);
        assert(0 <= fx < self.frames@.len() && 0 <= fy < self.frames@.len()) by (nonlinear_arith)
            requires
                0 <= x < self.frames@.len() * p,
                0 <= y < self.frames@.len() * p,
                fx == x / p,
                fy == y / p,
                p > 0,
        ;
        if fx == fy {
            assert(x % p != y % p);
        } else {
            assert(self.frames@[fx].spec_addr() + p <= self.frames@[fy].spec_addr()
                || self.frames@[fy].spec_addr() + p <= self.frames@[fx].spec_addr());
        }
    }

    /// The object's frames all lie inside physical memory.
    pub proof fn lemma_addr_in_range(self, pm: PhysMem, off: int)
        requires
            self.wf(pm),
            pm.wf(),
            0 <= off < self.spec_size(),
        ensures
            0 <= self.addr_of(off) < pm.size(),
    {
        let p = PAGE_SIZE as int;
        let f = off / p;
        lemma_fundamental_div_mod(off, p);
        vstd::arithmetic::div_mod::lemma_mod_bound(off, p);
        assert(0 <= f < self.frames@.len()) by (nonlinear_arith)
            requires
                0 <= off < self.frames@.len() * p,
                f == off / p,
                p > 0,
        ;
        assert(self.frames@[f].spec_addr() + p <= pm.spec_next_free());
    }

    /// Create a memory object of `pages` zeroed pages, backed by freshly
    /// allocated frames.
    pub fn new_paged(pm: &mut PhysMem, pages: usize) -> (r: VmObject)
        requires
            old(pm).wf(),
            old(pm).spec_next_free() + pages * PAGE_SIZE <= old(pm).size(),
        ensures
            final(pm).wf(),
            final(pm).size() == old(pm).size(),
            old(pm).spec_next_free() <= final(pm).spec_next_free(),
            r.wf(*final(pm)),
            r.spec_pages() == pages,
            forall|off: int| 0 <= off < r.spec_size() ==> r.byte_at(*final(pm), off) == 0,
            forall|a: int|
                0 <= a < old(pm).spec_next_free() ==> final(pm).byte(a) == old(pm).byte(a),
            forall|a: int| 0 <= a < final(pm).spec_next_free() ==> !r.owns(a) || old(
                pm,
            ).spec_next_free() <= a,
    {
        let mut frames: Vec<PhysFrame> = Vec::new();
        let mut i: usize = 0;
        while i < pages
            invariant
                0 <= i <= pages,
                pm.wf(),
                pm.size() == old(pm).size(),
                pm.spec_next_free() == old(pm).spec_next_free() + i * PAGE_SIZE,
                old(pm).spec_next_free() + pages * PAGE_SIZE <= old(pm).size(),
                frames@.len() == i,
                forall|x: int|
                    0 <= x < i ==> (#[trigger] frames@[x]).spec_addr() == old(
                        pm,
                    ).spec_next_free() + x * PAGE_SIZE,
                forall|x: int, a: int|
                    #![trigger frames@[x], pm.byte(a)]
                    0 <= x < i && frames@[x].spec_addr() <= a < frames@[x].spec_addr() + PAGE_SIZE
                        ==> pm.byte(a) == 0,
                forall|a: int|
                    0 <= a < old(pm).spec_next_free() ==> pm.byte(a) == old(pm).byte(a),
            decreases pages - i,
        {
            proof {
                assert((i as int + 1) * PAGE_SIZE <= pages * PAGE_SIZE && 0 <= i
                    * PAGE_SIZE) by (nonlinear_arith)
                    requires
                        0 <= i < pages,
                        PAGE_SIZE > 0,
                ;
            }
            let ghost prev = *pm;
            let got = PhysFrame::alloc_zeroed(pm);
            let f = match got {
                Some(f) => f,
                None => unreached(),
            };
            let ghost frames_prev = frames@;
            frames.push(f);
            proof {
                assert((i as int + 1) * PAGE_SIZE == i * PAGE_SIZE + PAGE_SIZE) by (nonlinear_arith)
                ;
                assert forall|x: int, a: int|
                    #![trigger frames@[x], pm.byte(a)]
                    0 <= x < i + 1 && frames@[x].spec_addr() <= a < frames@[x].spec_addr()
                        + PAGE_SIZE implies pm.byte(a) == 0 by {
                    if x < i {
                        assert(frames@[x] == frames_prev[x]);
                        assert((x + 1) * PAGE_SIZE <= i * PAGE_SIZE) by (nonlinear_arith)
                            requires
                                x + 1 <= i,
                                PAGE_SIZE > 0,
                        ;
                        assert(frames@[x].spec_addr() + PAGE_SIZE <= prev.spec_next_free());
                        assert(prev.byte(a) == 0);
                        assert(a < prev.spec_next_free());
                        assert(pm.byte(a) == prev.byte(a));
                    } else {
                        assert(frames@[x] == f);
                    }
                }
                assert forall|a: int|
                    0 <= a < old(pm).spec_next_free() implies pm.byte(a) == old(pm).byte(a) by {
                    assert(prev.byte(a) == old(pm).byte(a));
                    assert(!(f.spec_addr() <= a < f.spec_addr() + PAGE_SIZE));
                }
            }
            i = i + 1;
        }
        let r = VmObject { frames };
        proof {
            assert forall|off: int| 0 <= off < r.spec_size() implies r.byte_at(*pm, off) == 0 by {
                let p = PAGE_SIZE as int;
                let f = off / p;
                lemma_fundamental_div_mod(off, p);
                vstd::arithmetic::div_mod::lemma_mod_bound(off, p);
                assert(0 <= f < r.frames@.len()) by (nonlinear_arith)
                    requires
                        0 <= off < r.frames@.len() * p,
                        f == off / p,
                        p > 0,
                ;
                assert(r.frames@[f].spec_addr() <= r.addr_of(off) < r.frames@[f].spec_addr() + p);
            }
            assert forall|a: int|
                0 <= a < pm.spec_next_free() implies !r.owns(a) || old(pm).spec_next_free()
                <= a by {
                if r.owns(a) {
                    let w = choose|w: int|
                        0 <= w < r.frames@.len() && (#[trigger] r.frames@[w]).spec_addr() <= a
                            < r.frames@[w].spec_addr() + PAGE_SIZE;
                    assert(0 <= w * PAGE_SIZE) by (nonlinear_arith)
                        requires
                            w >= 0,
                    ;
                }
            }
            assert forall|i2: int, j2: int|
                #![trigger r.frames@[i2], r.frames@[j2]]
                0 <= i2 < j2 < r.frames@.len() implies r.frames@[i2].spec_addr() + PAGE_SIZE
                <= r.frames@[j2].spec_addr() || r.frames@[j2].spec_addr() + PAGE_SIZE
                <= r.frames@[i2].spec_addr() by {
                assert((i2 + 1) * PAGE_SIZE <= j2 * PAGE_SIZE) by (nonlinear_arith)
                    requires
                        i2 < j2,
                        PAGE_SIZE > 0,
                ;
            }
        }
        r
    }


    /// Create a snapshot child covering `[offset, offset + len)` of this
    /// object: the child gets fresh frames holding a copy of the parent's
    /// bytes; afterwards neither sees the other's writes.
    #[verifier::rlimit(50)]
    pub fn create_child(
        &self,
        pm: &mut PhysMem,
        _resizable: bool,
        offset: usize,
        len: usize,
    ) -> (r: ZxResult<VmObject>)
        requires
            old(pm).wf(),
            self.wf(*old(pm)),
            offset % PAGE_SIZE == 0,
            len % PAGE_SIZE == 0,
            offset + len <= self.spec_size(),
            old(pm).spec_next_free() + len <= old(pm).size(),
        ensures
            final(pm).wf(),
            final(pm).size() == old(pm).size(),
            self.wf(*final(pm)),
            ({
                &&& r matches Ok(child)
                &&& (r matches Ok(child) ==> {
                    &&& child.wf(*final(pm))
                    &&& child.spec_size() == len
                    &&& forall|j: int|
                        0 <= j < len ==> child.byte_at(*final(pm), j) == self.byte_at(
                            *old(pm),
                            offset + j,
                        )
                    &&& forall|a: int|
                        0 <= a < old(pm).spec_next_free() ==> final(pm).byte(a) == old(pm).byte(a)
                })
            }),
    {
        let npages = len / PAGE_SIZE;
        let src_page0 = offset / PAGE_SIZE;
        proof {
            lemma_fundamental_div_mod(len as int, PAGE_SIZE as int);
            lemma_fundamental_div_mod(offset as int, PAGE_SIZE as int);
            assert(npages * PAGE_SIZE == len);
            assert(src_page0 * PAGE_SIZE == offset);
            assert((src_page0 + npages) * PAGE_SIZE == offset + len) by (nonlinear_arith)
                requires
                    src_page0 * PAGE_SIZE == offset,
                    npages * PAGE_SIZE == len,
            ;
            assert(src_page0 + npages <= self.frames@.len()) by (nonlinear_arith)
                requires
                    (src_page0 + npages) * PAGE_SIZE == offset + len,
                    offset + len <= self.frames@.len() * PAGE_SIZE,
                    PAGE_SIZE > 0,
                    src_page0 + npages >= 0,
            ;
        }
        let mut frames: Vec<PhysFrame> = Vec::new();
        let mut i: usize = 0;
        while i < npages
            invariant
                0 <= i <= npages,
                pm.wf(),
                self.wf(*pm),
                self.wf(*old(pm)),
                pm.size() == old(pm).size(),
                pm.spec_next_free() == old(pm).spec_next_free() + i * PAGE_SIZE,
                npages * PAGE_SIZE == len,
                src_page0 * PAGE_SIZE == offset,
                src_page0 + npages <= self.frames@.len(),
                old(pm).spec_next_free() + len <= old(pm).size(),
                frames@.len() == i,
                forall|x: int|
                    0 <= x < i ==> (#[trigger] frames@[x]).spec_addr() == old(
                        pm,
                    ).spec_next_free() + x * PAGE_SIZE,
                forall|x: int, d: int|
                    #![trigger frames@[x], pm.byte(frames@[x].spec_addr() + d)]
                    0 <= x < i && 0 <= d < PAGE_SIZE ==> pm.byte(frames@[x].spec_addr() + d)
                        == old(pm).byte(self.frames@[src_page0 + x].spec_addr() + d),
                forall|a: int|
                    0 <= a < old(pm).spec_next_free() ==> pm.byte(a) == old(pm).byte(a),
            decreases npages - i,
        {
            proof {
                assert((i as int + 1) * PAGE_SIZE <= npages * PAGE_SIZE && 0 <= i
                    * PAGE_SIZE) by (nonlinear_arith)
                    requires
                        0 <= i < npages,
                        PAGE_SIZE > 0,
                ;
            }
            let ghost iter0 = *pm;
            let got = PhysFrame::allocate(pm);
            let f = match got {
                Some(f) => f,
                None => unreached(),
            };
            let ghost mid = *pm;
            proof {
                assert(mid.bytes() == iter0.bytes());
            }
            let src_addr = self.frames[src_page0 + i].addr();
            proof {
                assert(self.frames@[src_page0 + i].spec_addr() + PAGE_SIZE <= old(
                    pm,
                ).spec_next_free());
            }
            frame_copy(pm, src_addr, f.paddr);
            let ghost frames_prev = frames@;
            frames.push(f);
            proof {
                assert((i as int + 1) * PAGE_SIZE == i * PAGE_SIZE + PAGE_SIZE) by (nonlinear_arith)
                ;
                assert forall|x: int, d: int|
                    #![trigger frames@[x], pm.byte(frames@[x].spec_addr() + d)]
                    0 <= x < i + 1 && 0 <= d < PAGE_SIZE implies pm.byte(
                    frames@[x].spec_addr() + d,
                ) == old(pm).byte(self.frames@[src_page0 + x].spec_addr() + d) by {
                    if x < i {
                        assert(frames@[x] == frames_prev[x]);
                        assert((x + 1) * PAGE_SIZE <= i * PAGE_SIZE) by (nonlinear_arith)
                            requires
                                x + 1 <= i,
                                PAGE_SIZE > 0,
                        ;
                        assert(frames@[x].spec_addr() + PAGE_SIZE <= mid.spec_next_free());
                        assert(pm.byte(frames@[x].spec_addr() + d) == mid.byte(
                            frames@[x].spec_addr() + d,
                        ));
                        assert(iter0.byte(frames@[x].spec_addr() + d) == old(pm).byte(
                            self.frames@[src_page0 + x].spec_addr() + d,
                        ));
                    } else {
                        assert(frames@[x] == f);
                        assert(pm.byte(f.spec_addr() + d) == mid.byte(src_addr + d));
                        assert(mid.byte(src_addr + d) == old(pm).byte(src_addr + d));
                    }
                }
                assert forall|a: int|
                    0 <= a < old(pm).spec_next_free() implies pm.byte(a) == old(pm).byte(a) by {
                    assert(iter0.byte(a) == old(pm).byte(a));
                    assert(!(f.spec_addr() <= a < f.spec_addr() + PAGE_SIZE));
                }
            }
            i = i + 1;
        }
        let child = VmObject { frames };
        proof {
            assert forall|i2: int, j2: int|
                #![trigger child.frames@[i2], child.frames@[j2]]
                0 <= i2 < j2 < child.frames@.len() implies child.frames@[i2].spec_addr()
                + PAGE_SIZE <= child.frames@[j2].spec_addr() || child.frames@[j2].spec_addr()
                + PAGE_SIZE <= child.frames@[i2].spec_addr() by {
                assert((i2 + 1) * PAGE_SIZE <= j2 * PAGE_SIZE) by (nonlinear_arith)
                    requires
                        i2 < j2,
                        PAGE_SIZE > 0,
                ;
            }
            assert forall|j: int|
                0 <= j < len implies child.byte_at(*pm, j) == self.byte_at(
                *old(pm),
                offset + j,
            ) by {
                let p = PAGE_SIZE as int;
                let x = j / p;
                let d = j % p;
                lemma_fundamental_div_mod(j, p);
                vstd::arithmetic::div_mod::lemma_mod_bound(j, p);
                assert(0 <= x < npages) by (nonlinear_arith)
                    requires
                        0 <= j < npages * p,
                        x == j / p,
                        p > 0,
                ;
                assert(child.addr_of(j) == child.frames@[x].spec_addr() + d);
                assert(pm.byte(child.frames@[x].spec_addr() + d) == old(pm).byte(
                    self.frames@[src_page0 + x].spec_addr() + d,
                ));
                assert(offset + j == (src_page0 + x) * p + d) by (nonlinear_arith)
                    requires
                        src_page0 * p == offset,
                        j == x * p + d,
                ;
                lemma_fundamental_div_mod_converse(offset + j, p, src_page0 + x, d);
                assert(self.addr_of(offset + j) == self.frames@[src_page0 + x].spec_addr() + d);
            }
        }
        Ok(child)
    }

    /// How many bytes the object holds.
    pub fn len(&self) -> (r: usize)
        requires
            self.frames@.len() * PAGE_SIZE <= usize::MAX,
        ensures
            r == self.spec_size(),
    {
        self.frames.len() * PAGE_SIZE
    }

    /// Read `len` bytes starting at byte offset `offset`.
    pub fn read(&self, pm: &PhysMem, offset: usize, len: usize) -> (r: Vec<u8>)
        requires
            pm.wf(),
            self.wf(*pm),
            offset + len <= self.spec_size(),
        ensures
            r@.len() == len,
            forall|j: int| 0 <= j < len ==> r@[j] == self.byte_at(*pm, offset + j),
    {
        let mut out: Vec<u8> = Vec::new();
        let mut fi: usize = offset / PAGE_SIZE;
        let mut off: usize = offset % PAGE_SIZE;
        let mut j: usize = 0;
        proof {
            pm.lemma_size_bound();
            lemma_fundamental_div_mod(offset as int, PAGE_SIZE as int);
            vstd::arithmetic::div_mod::lemma_mod_bound(offset as int, PAGE_SIZE as int);
        }
        while j < len
            invariant
                0 <= j <= len,
                pm.wf(),
                self.wf(*pm),
                pm.size() <= usize::MAX,
                offset + len <= self.spec_size(),
                0 <= off < PAGE_SIZE,
                fi * PAGE_SIZE + off == offset + j,
                out@.len() == j,
                forall|x: int| 0 <= x < j ==> out@[x] == self.byte_at(*pm, offset + x),
            decreases len - j,
        {
            proof {
                assert(fi < self.frames@.len()) by (nonlinear_arith)
                    requires
                        fi * PAGE_SIZE + off == offset + j,
                        offset + j < self.frames@.len() * PAGE_SIZE,
                        0 <= off < PAGE_SIZE,
                        PAGE_SIZE > 0,
                        fi >= 0,
                ;
                assert(self.frames@[fi as int].spec_addr() + PAGE_SIZE <= pm.spec_next_free());
                lemma_fundamental_div_mod_converse(
                    offset + j,
                    PAGE_SIZE as int,
                    fi as int,
                    off as int,
                );
                assert(self.addr_of(offset + j) == self.frames@[fi as int].spec_addr() + off);
            }
            out.push(pm.mem[self.frames[fi].addr() + off]);
            off = off + 1;
            if off == PAGE_SIZE {
                off = 0;
                fi = fi + 1;
                proof {
                    assert((fi as int) * PAGE_SIZE == (fi as int - 1) * PAGE_SIZE
                        + PAGE_SIZE) by (nonlinear_arith);
                }
            }
            j = j + 1;
        }
        out
    }

    /// Write the bytes of `buf` starting at byte offset `offset`. Nothing
    /// outside this object's frames changes, and within the object only
    /// the written range changes.
    pub fn write(&self, pm: &mut PhysMem, offset: usize, buf: &[u8])
        requires
            old(pm).wf(),
            self.wf(*old(pm)),
            offset + buf@.len() <= self.spec_size(),
        ensures
            final(pm).wf(),
            final(pm).size() == old(pm).size(),
            final(pm).spec_next_free() == old(pm).spec_next_free(),
            self.wf(*final(pm)),
            forall|j: int|
                0 <= j < buf@.len() ==> self.byte_at(*final(pm), offset + j) == buf@[j],
            forall|off: int|
                0 <= off < self.spec_size() && !(offset <= off < offset + buf@.len())
                    ==> self.byte_at(*final(pm), off) == self.byte_at(*old(pm), off),
            forall|a: int|
                0 <= a < old(pm).size() && !self.owns(a) ==> final(pm).byte(a) == old(pm).byte(a),
    {
        let len = buf.len();
        let mut fi: usize = offset / PAGE_SIZE;
        let mut off: usize = offset % PAGE_SIZE;
        let mut j: usize = 0;
        proof {
            pm.lemma_size_bound();
            lemma_fundamental_div_mod(offset as int, PAGE_SIZE as int);
            vstd::arithmetic::div_mod::lemma_mod_bound(offset as int, PAGE_SIZE as int);
        }
        while j < len
            invariant
                0 <= j <= len,
                len == buf@.len(),
                pm.wf(),
                self.wf(*pm),
                pm.size() <= usize::MAX,
                pm.size() == old(pm).size(),
                pm.spec_next_free() == old(pm).spec_next_free(),
                offset + len <= self.spec_size(),
                0 <= off < PAGE_SIZE,
                fi * PAGE_SIZE + off == offset + j,
                forall|x: int|
                    0 <= x < j ==> self.byte_at(*pm, offset + x) == buf@[x],
                forall|o2: int|
                    0 <= o2 < self.spec_size() && !(offset <= o2 < offset + j) ==> self.byte_at(
                        *pm,
                        o2,
                    ) == self.byte_at(*old(pm), o2),
                forall|a: int|
                    0 <= a < old(pm).size() && !self.owns(a) ==> pm.byte(a) == old(pm).byte(a),
            decreases len - j,
        {
            proof {
                assert(fi < self.frames@.len()) by (nonlinear_arith)
                    requires
                        fi * PAGE_SIZE + off == offset + j,
                        offset + j < self.frames@.len() * PAGE_SIZE,
                        0 <= off < PAGE_SIZE,
                        PAGE_SIZE > 0,
                        fi >= 0,
                ;
                assert(self.frames@[fi as int].spec_addr() + PAGE_SIZE <= pm.spec_next_free());
                lemma_fundamental_div_mod_converse(
                    offset + j,
                    PAGE_SIZE as int,
                    fi as int,
                    off as int,
                );
                assert(self.addr_of(offset + j) == self.frames@[fi as int].spec_addr() + off);
            }
            let ghost prev = *pm;
            let a = self.frames[fi].addr() + off;
            pm.mem.set(a, buf[j]);
            proof {
                assert forall|x: int|
                    0 <= x < j + 1 implies self.byte_at(*pm, offset + x) == buf@[x] by {
                    if x < j {
                        assert(prev.byte(self.addr_of(offset + x)) == buf@[x]);
                        self.lemma_addr_injective(prev, offset + x, offset + j);
                    }
                }
                assert forall|o2: int|
                    0 <= o2 < self.spec_size() && !(offset <= o2 < offset + j + 1)
                    implies self.byte_at(*pm, o2) == self.byte_at(*old(pm), o2) by {
                    assert(self.byte_at(prev, o2) == self.byte_at(*old(pm), o2));
                    self.lemma_addr_injective(prev, o2, offset + j);
                }
                assert forall|a2: int|
                    0 <= a2 < old(pm).size() && !self.owns(a2) implies pm.byte(a2) == old(
                    pm,
                ).byte(a2) by {
                    assert(prev.byte(a2) == old(pm).byte(a2));
                    let fa = self.frames@[fi as int].spec_addr();
                    let ai = a as int;
                    assert(fa <= ai && ai < fa + PAGE_SIZE);
                    assert(self.owns(ai));
                }
            }
            off = off + 1;
            if off == PAGE_SIZE {
                off = 0;
                fi = fi + 1;
                proof {
                    assert((fi as int) * PAGE_SIZE == (fi as int - 1) * PAGE_SIZE
                        + PAGE_SIZE) by (nonlinear_arith);
                }
            }
            j = j + 1;
        }
    }
}

} // verus!
