use zcore::channel::Channel;
use zcore::channel::MessagePacket;
use zcore::error::ZxError;
use zcore::job::Job;
use zcore::object::Kernel;
use zcore::process::Process;
use zcore::process::Status;
use zcore::thread::Thread;
use zcore::thread::ThreadState;
use zcore::object::DummyObject;
use zcore::object::Handle;
use zcore::object::ObjectType;
use zcore::resource::Resource;
use zcore::resource::ResourceFlags;
use zcore::resource::ResourceKind;
use zcore::rights::Rights;

#[test]
fn kill_tree_scenario() {
    let mut k = Kernel::new();
    let j0 = Job::root(&mut k);
    let j1 = j0.create_child(&mut k).expect("failed to create job");
    let p1 = Process::create(&mut k, &j1, "proc").expect("failed to create process");
    let t1 = Thread::create(&mut k, &p1, "thread").expect("failed to create thread");

    let current = p1
        .start(&mut k, &t1, 1, 4, None, 2)
        .expect("failed to start thread");

    j0.kill(&mut k);
    assert_eq!(p1.status(&k), Status::Exited(-1028));
    assert_eq!(t1.state(&k), ThreadState::Dying);
    // the subtree is still wired up while the thread has not finalized
    assert_eq!(j0.get_child(&k, j1.id()).unwrap(), j1.id());

    current.finalize(&mut k);
    assert_eq!(t1.state(&k), ThreadState::Dead);
    assert_eq!(p1.status(&k), Status::Exited(-1028));
    // the whole chain has now collapsed: the child job is gone from the root
    assert_eq!(j0.get_child(&k, j1.id()).err(), Some(ZxError::NOT_FOUND));
}

#[test]
fn ping_scenario() {
    let mut k = Kernel::new();
    let (a, b) = Channel::create(&mut k);
    b.write(&mut k, MessagePacket { data: Vec::from("ping"), handles: Vec::new() })
        .unwrap();
    let msg = a.read(&mut k).unwrap();
    assert_eq!(msg.data.as_slice(), b"ping");
    assert_eq!(a.read(&mut k).err(), Some(ZxError::SHOULD_WAIT));
}

#[test]
fn exit_is_idempotent() {
    let mut k = Kernel::new();
    let root = Job::root(&mut k);
    let proc = Process::create(&mut k, &root, "proc").expect("failed to create process");
    proc.exit(&mut k, 1);
    assert_eq!(proc.status(&k), Status::Exited(1));
    proc.exit(&mut k, 2);
    assert_eq!(proc.status(&k), Status::Exited(1));
}

#[test]
fn start_rolls_back_handle() {
    let mut k = Kernel::new();
    let root = Job::root(&mut k);
    let proc = Process::create(&mut k, &root, "proc").expect("failed to create process");
    let thread = Thread::create(&mut k, &proc, "thread").expect("failed to create thread");
    // exhaust the thread's one start so the process-level start fails late
    let early = thread.start(&mut k, 0, 0, 0, 0).unwrap();

    let handle = Handle::new(proc.id(), Rights::default_process());
    let got = proc.start(&mut k, &thread, 1, 4, Some(handle), 2);
    assert_eq!(got.err(), Some(ZxError::BAD_STATE));
    // the status flip is kept, but the argument handle was rolled back
    assert_eq!(proc.status(&k), Status::Running);
    assert_eq!(
        proc.get_object_with_rights(&k, 3, ObjectType::Process, Rights::default_process())
            .err(),
        Some(ZxError::BAD_HANDLE)
    );
    early.finalize(&mut k);
}

#[test]
fn start_requires_owned_thread() {
    let mut k = Kernel::new();
    let root = Job::root(&mut k);
    let proc = Process::create(&mut k, &root, "proc").expect("failed to create process");
    let other = Process::create(&mut k, &root, "other").expect("failed to create process");
    let stranger = Thread::create(&mut k, &other, "thread").expect("failed to create thread");
    assert_eq!(
        proc.start(&mut k, &stranger, 1, 4, None, 2).err(),
        Some(ZxError::ACCESS_DENIED)
    );
}

#[test]
fn resource_checks() {
    let mut k = Kernel::new();
    let res = Resource::create(
        &mut k,
        "mmio",
        ResourceKind::MMIO,
        0x1000,
        0x1000,
        ResourceFlags::empty(),
    );
    assert_eq!(res.validate(&k, ResourceKind::MMIO), Ok(()));
    assert_eq!(res.validate(&k, ResourceKind::IRQ), Err(ZxError::WRONG_TYPE));
    assert_eq!(res.validate_ranged_resource(&k, ResourceKind::MMIO, 0x1800, 0x100), Ok(()));
    assert_eq!(
        res.validate_ranged_resource(&k, ResourceKind::MMIO, 0x1800, 0x1000),
        Err(ZxError::OUT_OF_RANGE)
    );
    let root_res = Resource::create(
        &mut k,
        "root",
        ResourceKind::ROOT,
        0,
        0,
        ResourceFlags::empty(),
    );
    assert_eq!(root_res.validate(&k, ResourceKind::IRQ), Ok(()));
    assert_eq!(
        res.check_exclusive(&k, ResourceFlags::from_bits(1 << 16)),
        Err(ZxError::INVALID_ARGS)
    );
    assert_eq!(res.check_exclusive(&k, ResourceFlags::empty()), Ok(()));
}

#[test]
fn names_alias_through_handles() {
    let mut k = Kernel::new();
    let obj = DummyObject::new(&mut k);
    let handle_a = Handle::new(obj.id(), Rights::basic());
    let handle_b = handle_a;
    obj.set_name(&mut k, "shared");
    // both handles see the same object, and therefore the same name
    assert_eq!(handle_a.object, handle_b.object);
    assert_eq!(k.object_name(handle_b.object), "shared");
}
