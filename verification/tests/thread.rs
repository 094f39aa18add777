use zcore::error::ZxError;
use zcore::job::Job;
use zcore::object::Handle;
use zcore::object::Kernel;
use zcore::process::Process;
use zcore::process::Status;
use zcore::rights::Rights;
use zcore::thread::Thread;
use zcore::thread::ThreadFlag;
use zcore::thread::ThreadState;
use zcore::thread::ThreadStateKind;
use zcore::thread::GENERAL_REGS_SIZE;

#[test]
fn thread_create() {
    let mut k = Kernel::new();
    let root_job = Job::root(&mut k);
    let proc = Process::create(&mut k, &root_job, "proc").expect("failed to create process");
    let thread = Thread::create(&mut k, &proc, "thread").expect("failed to create thread");
    assert_eq!(thread.flags(&k), ThreadFlag::empty());

    assert_eq!(thread.related_koid(&k), proc.id());
    let child = proc.get_child(&k, thread.id()).unwrap();
    assert_eq!(child, thread.id());
}

#[test]
fn start() {
    let mut k = Kernel::new();
    let root_job = Job::root(&mut k);
    let proc = Process::create(&mut k, &root_job, "proc").expect("failed to create process");
    let thread = Thread::create(&mut k, &proc, "thread").expect("failed to create thread");
    let thread1 = Thread::create(&mut k, &proc, "thread1").expect("failed to create thread");

    let handle = Handle::new(proc.id(), Rights::default_process());
    let current = proc
        .start(&mut k, &thread, 1, 4, Some(handle), 2)
        .expect("failed to start thread");

    // the run token hands out the context with the argument registers set
    let cx = current.wait_for_run(&mut k).expect("context should be available");
    assert_eq!(cx.general.rip, 1);
    assert_eq!(cx.general.rsp, 4);
    assert_eq!(cx.general.rdi, 3);
    assert_eq!(cx.general.rsi, 2);
    current.end_running(&mut k, cx);

    let info = proc.get_info(&k);
    assert!(info.started && !info.has_exited && info.return_code == 0);
    assert_eq!(proc.status(&k), Status::Running);
    assert_eq!(thread.state(&k), ThreadState::Running);

    // starting the same thread again must fail
    let handle1 = Handle::new(proc.id(), Rights::default_process());
    assert_eq!(
        proc.start(&mut k, &thread, 1, 4, Some(handle1), 2).err(),
        Some(ZxError::BAD_STATE)
    );

    // starting another thread of a running process must fail
    let handle2 = Handle::new(proc.id(), Rights::default_process());
    assert_eq!(
        proc.start(&mut k, &thread1, 1, 4, Some(handle2), 2).err(),
        Some(ZxError::BAD_STATE)
    );

    // the thread dies when its run token is released
    current.finalize(&mut k);
    assert_eq!(thread.state(&k), ThreadState::Dead);
}

#[test]
fn wait_for_run() {
    let mut k = Kernel::new();
    let root_job = Job::root(&mut k);
    let proc = Process::create(&mut k, &root_job, "proc").expect("failed to create process");
    let thread = Thread::create(&mut k, &proc, "thread").expect("failed to create thread");

    assert_eq!(thread.state(&k), ThreadState::New);

    let current = thread.start(&mut k, 0, 0, 0, 0).unwrap();
    assert_eq!(thread.state(&k), ThreadState::Running);

    // without a suspend the context comes out at once
    let context = current.wait_for_run(&mut k).unwrap();
    current.end_running(&mut k, context);

    // with suspends outstanding the thread reports suspended and
    // holds its context until resumed
    thread.suspend(&mut k);
    thread.suspend(&mut k);
    assert_eq!(thread.state(&k), ThreadState::Suspended);
    assert!(current.wait_for_run(&mut k).is_none());
    thread.resume(&mut k);
    assert!(current.wait_for_run(&mut k).is_none());
    thread.resume(&mut k);
    let context = current.wait_for_run(&mut k).unwrap();
    current.end_running(&mut k, context);
}

#[test]
fn info() {
    let mut k = Kernel::new();
    let root_job = Job::root(&mut k);
    let proc = Process::create(&mut k, &root_job, "proc").expect("failed to create process");
    let thread = Thread::create(&mut k, &proc, "thread").expect("failed to create thread");

    let info = thread.get_thread_info(&k);
    assert!(info.state == thread.state(&k).code());
}

#[test]
fn read_write_state() {
    let mut k = Kernel::new();
    let root_job = Job::root(&mut k);
    let proc = Process::create(&mut k, &root_job, "proc").expect("failed to create process");
    let thread = Thread::create(&mut k, &proc, "thread").expect("failed to create thread");

    let mut buf = vec![0u8; 10];
    assert_eq!(
        thread.read_state(&k, ThreadStateKind::General, &mut buf).err(),
        Some(ZxError::BAD_STATE)
    );
    assert_eq!(
        thread.write_state(&mut k, ThreadStateKind::General, &buf).err(),
        Some(ZxError::BAD_STATE)
    );

    thread.suspend(&mut k);

    assert_eq!(
        thread.read_state(&k, ThreadStateKind::General, &mut buf).err(),
        Some(ZxError::BUFFER_TOO_SMALL)
    );
    assert_eq!(
        thread.write_state(&mut k, ThreadStateKind::General, &buf).err(),
        Some(ZxError::BUFFER_TOO_SMALL)
    );

    let mut buf = vec![0u8; GENERAL_REGS_SIZE];
    assert!(thread.read_state(&k, ThreadStateKind::General, &mut buf).is_ok());
    assert!(thread.write_state(&mut k, ThreadStateKind::General, &buf).is_ok());
}

#[test]
fn state_round_trip() {
    let mut k = Kernel::new();
    let root_job = Job::root(&mut k);
    let proc = Process::create(&mut k, &root_job, "proc").expect("failed to create process");
    let thread = Thread::create(&mut k, &proc, "thread").expect("failed to create thread");

    thread.suspend(&mut k);

    let mut written = vec![0u8; GENERAL_REGS_SIZE];
    for (i, b) in written.iter_mut().enumerate() {
        *b = i as u8;
    }
    thread
        .write_state(&mut k, ThreadStateKind::General, &written)
        .unwrap();
    let mut read_back = vec![0u8; GENERAL_REGS_SIZE];
    let n = thread
        .read_state(&k, ThreadStateKind::General, &mut read_back)
        .unwrap();
    assert_eq!(n, GENERAL_REGS_SIZE);
    assert_eq!(read_back, written);
}

#[test]
fn time() {
    let mut k = Kernel::new();
    let root_job = Job::root(&mut k);
    let proc = Process::create(&mut k, &root_job, "proc").expect("failed to create process");
    let thread = Thread::create(&mut k, &proc, "thread").expect("failed to create thread");

    assert_eq!(thread.get_time(&k), 0);
    thread.time_add(&mut k, 10);
    assert_eq!(thread.get_time(&k), 10);
}
