use zcore::hal::PhysFrame;
use zcore::hal::PhysMem;
use zcore::vm::page_aligned;
use zcore::vm::pages;
use zcore::vm::roundup_pages;
use zcore::vm::round_down_pages;
use zcore::vm::PAGE_SIZE;
use zcore::vmo::VmObject;

#[test]
fn paged_read_write() {
    let mut pm = PhysMem::new(16);
    let vmo = VmObject::new_paged(&mut pm, 2);
    vmo.write(&mut pm, 0, &[0, 1, 2, 3]);
    let buf = vmo.read(&pm, 0, 4);
    assert_eq!(buf, vec![0, 1, 2, 3]);
}

#[test]
fn paged_cross_page() {
    let mut pm = PhysMem::new(16);
    let vmo = VmObject::new_paged(&mut pm, 2);
    assert_eq!(vmo.len(), 2 * PAGE_SIZE);
    // the fresh object is zeroed
    assert_eq!(vmo.read(&pm, PAGE_SIZE - 1, 3), vec![0, 0, 0]);
    // a write across the page boundary reads back intact
    vmo.write(&mut pm, PAGE_SIZE - 2, &[7, 8, 9, 10]);
    assert_eq!(vmo.read(&pm, PAGE_SIZE - 2, 4), vec![7, 8, 9, 10]);
    // bytes around the written range are untouched
    assert_eq!(vmo.read(&pm, PAGE_SIZE - 3, 1), vec![0]);
    assert_eq!(vmo.read(&pm, PAGE_SIZE + 2, 1), vec![0]);
}

#[test]
fn two_objects_are_disjoint() {
    let mut pm = PhysMem::new(16);
    let a = VmObject::new_paged(&mut pm, 1);
    let b = VmObject::new_paged(&mut pm, 1);
    a.write(&mut pm, 0, &[1]);
    assert_eq!(a.read(&pm, 0, 1), vec![1]);
    assert_eq!(b.read(&pm, 0, 1), vec![0]);
    b.write(&mut pm, 0, &[2]);
    assert_eq!(a.read(&pm, 0, 1), vec![1]);
    assert_eq!(b.read(&pm, 0, 1), vec![2]);
}

#[test]
fn frame_allocation() {
    let mut pm = PhysMem::new(4);
    assert_eq!(PhysFrame::zero_frame_addr(), 0);
    let f1 = PhysFrame::allocate(&mut pm).unwrap();
    let f2 = PhysFrame::allocate(&mut pm).unwrap();
    assert_eq!(f1.addr(), PAGE_SIZE);
    assert_eq!(f2.addr(), 2 * PAGE_SIZE);
    let f3 = PhysFrame::alloc_zeroed(&mut pm).unwrap();
    assert_eq!(f3.addr(), 3 * PAGE_SIZE);
    // memory is exhausted now
    assert!(PhysFrame::allocate(&mut pm).is_none());
}

#[test]
fn contiguous_allocation() {
    let mut pm = PhysMem::new(64);
    let frames = PhysFrame::alloc_contiguous_zeroed(&mut pm, 3, 2);
    assert_eq!(frames.len(), 3);
    // the base is aligned to four pages
    assert_eq!(frames[0].addr() % (4 * PAGE_SIZE), 0);
    assert_eq!(frames[1].addr(), frames[0].addr() + PAGE_SIZE);
    assert_eq!(frames[2].addr(), frames[0].addr() + 2 * PAGE_SIZE);
}

#[test]
fn page_math() {
    assert!(page_aligned(0));
    assert!(page_aligned(PAGE_SIZE));
    assert!(!page_aligned(PAGE_SIZE + 1));
    assert_eq!(pages(0), 0);
    assert_eq!(pages(1), 1);
    assert_eq!(pages(PAGE_SIZE), 1);
    assert_eq!(pages(PAGE_SIZE + 1), 2);
    assert_eq!(roundup_pages(1), PAGE_SIZE);
    assert_eq!(roundup_pages(PAGE_SIZE), PAGE_SIZE);
    assert_eq!(round_down_pages(PAGE_SIZE + 1), PAGE_SIZE);
    // a size so large that rounding wraps at the machine word
    assert_eq!(pages(usize::MAX), 0);
}

#[test]
fn paged_create_child() {
    let mut pm = PhysMem::new(16);
    let vmo = VmObject::new_paged(&mut pm, 1);
    let child_vmo = vmo.create_child(&mut pm, false, 0, PAGE_SIZE).unwrap();

    // write to the parent and make sure the child does not see it
    vmo.write(&mut pm, 0, &[1]);
    assert_eq!(vmo.read(&pm, 0, 1), vec![1]);
    assert_eq!(child_vmo.read(&pm, 0, 1), vec![0]);

    // write to the child and make sure the parent does not see it
    child_vmo.write(&mut pm, 0, &[2]);
    assert_eq!(vmo.read(&pm, 0, 1), vec![1]);
    assert_eq!(child_vmo.read(&pm, 0, 1), vec![2]);
}

#[test]
fn create_child_copies_bytes() {
    let mut pm = PhysMem::new(32);
    let vmo = VmObject::new_paged(&mut pm, 2);
    vmo.write(&mut pm, PAGE_SIZE - 1, &[5, 6]);
    let child = vmo.create_child(&mut pm, false, PAGE_SIZE, PAGE_SIZE).unwrap();
    assert_eq!(child.len(), PAGE_SIZE);
    // the child starts with a copy of the parent's second page
    assert_eq!(child.read(&pm, 0, 1), vec![6]);
}
