use zcore::error::ZxError;
use zcore::job::Job;
use zcore::object::Handle;
use zcore::object::Kernel;
use zcore::object::ObjectType;
use zcore::policy::BasicPolicy;
use zcore::policy::PolicyAction;
use zcore::policy::PolicyCondition;
use zcore::policy::SetPolicyOptions;
use zcore::process::Process;
use zcore::rights::Rights;
use zcore::thread::Thread;
use zcore::thread::ThreadState;

#[test]
fn process_create() {
    let mut k = Kernel::new();
    let root_job = Job::root(&mut k);
    let proc = Process::create(&mut k, &root_job, "proc").expect("failed to create process");

    assert_eq!(proc.related_koid(&k), root_job.id());
    assert_eq!(proc.job(&k).id(), root_job.id());
}

#[test]
fn handle() {
    let mut k = Kernel::new();
    let root_job = Job::root(&mut k);
    let proc = Process::create(&mut k, &root_job, "proc").expect("failed to create process");
    let handle = Handle::new(proc.id(), Rights::default_process());

    let handle_value = proc.add_handle(&mut k, handle);

    // getting the object must succeed
    let object = proc
        .get_object_with_rights(&k, handle_value, ObjectType::Process, Rights::default_process())
        .expect("failed to get object");
    assert_eq!(object, proc.id());

    let (object, rights) = proc
        .get_object_and_rights(&k, handle_value, ObjectType::Process)
        .expect("failed to get object");
    assert_eq!(object, proc.id());
    assert_eq!(rights, Rights::default_process());

    // getting the object with an extra right must fail
    assert_eq!(
        proc.get_object_with_rights(&k, handle_value, ObjectType::Process, Rights::manage_job())
            .err(),
        Some(ZxError::ACCESS_DENIED)
    );

    // getting the object as the wrong kind must fail
    assert_eq!(
        proc.get_object_with_rights(&k, handle_value, ObjectType::Job, Rights::default_process())
            .err(),
        Some(ZxError::WRONG_TYPE)
    );

    // the kind check comes before the rights check: with the wrong kind
    // and insufficient rights the kind error wins
    assert_eq!(
        proc.get_object_with_rights(&k, handle_value, ObjectType::Job, Rights::manage_job())
            .err(),
        Some(ZxError::WRONG_TYPE)
    );

    proc.remove_handle(&mut k, handle_value).unwrap();

    // getting the object with a removed handle must fail
    assert_eq!(
        proc.get_object_with_rights(&k, handle_value, ObjectType::Process, Rights::default_process())
            .err(),
        Some(ZxError::BAD_HANDLE)
    );

    let handle1 = Handle::new(proc.id(), Rights::default_process());
    let handle2 = Handle::new(proc.id(), Rights::default_process());

    let handle_values = proc.add_handles(&mut k, vec![handle1, handle2]);
    let object1 = proc
        .get_object_with_rights(&k, handle_values[0], ObjectType::Process, Rights::default_process())
        .expect("failed to get object");
    assert_eq!(object1, proc.id());

    proc.remove_handles(&mut k, &handle_values).unwrap();
    assert_eq!(
        proc.get_object_with_rights(&k, handle_values[0], ObjectType::Process, Rights::default_process())
            .err(),
        Some(ZxError::BAD_HANDLE)
    );
}

#[test]
fn get_child() {
    let mut k = Kernel::new();
    let root_job = Job::root(&mut k);
    let proc = Process::create(&mut k, &root_job, "proc").expect("failed to create process");
    let thread = Thread::create(&mut k, &proc, "thread").expect("failed to create thread");

    assert_eq!(proc.get_child(&k, thread.id()).unwrap(), thread.id());
    assert_eq!(proc.get_child(&k, proc.id()).err(), Some(ZxError::NOT_FOUND));

    let thread1 = Thread::create(&mut k, &proc, "thread1").expect("failed to create thread");
    assert_eq!(proc.thread_ids(&k), vec![thread.id(), thread1.id()]);
}

#[test]
fn contains_thread() {
    let mut k = Kernel::new();
    let root_job = Job::root(&mut k);
    let proc = Process::create(&mut k, &root_job, "proc").expect("failed to create process");
    let thread = Thread::create(&mut k, &proc, "thread").expect("failed to create thread");

    let proc1 = Process::create(&mut k, &root_job, "proc1").expect("failed to create process");
    let thread1 = Thread::create(&mut k, &proc1, "thread1").expect("failed to create thread");

    assert!(proc.contains_thread(&k, thread.id()) && !proc.contains_thread(&k, thread1.id()));
}

#[test]
fn check_policy() {
    let mut k = Kernel::new();
    let root_job = Job::root(&mut k);
    let policy1 = BasicPolicy { condition: PolicyCondition::BadHandle, action: PolicyAction::Allow };
    let policy2 = BasicPolicy { condition: PolicyCondition::NewChannel, action: PolicyAction::Deny };

    assert!(root_job
        .set_policy_basic(&mut k, SetPolicyOptions::Absolute, &[policy1, policy2])
        .is_ok());
    let proc = Process::create(&mut k, &root_job, "proc").expect("failed to create process");

    assert!(proc.check_policy(&k, PolicyCondition::BadHandle).is_ok());
    assert!(proc.check_policy(&k, PolicyCondition::NewProcess).is_ok());
    assert_eq!(
        proc.check_policy(&k, PolicyCondition::NewChannel).err(),
        Some(ZxError::ACCESS_DENIED)
    );

    let _job = root_job.create_child(&mut k).unwrap();
    assert_eq!(
        root_job
            .set_policy_basic(&mut k, SetPolicyOptions::Absolute, &[policy1, policy2])
            .err(),
        Some(ZxError::BAD_STATE)
    );
}

#[test]
fn exit() {
    let mut k = Kernel::new();
    let root_job = Job::root(&mut k);
    let proc = Process::create(&mut k, &root_job, "proc").expect("failed to create process");
    let thread = Thread::create(&mut k, &proc, "thread").expect("failed to create thread");

    let info = proc.get_info(&k);
    assert!(!info.has_exited && !info.started && info.return_code == 0);

    proc.exit(&mut k, 666);
    let info = proc.get_info(&k);
    assert!(info.has_exited && info.started && info.return_code == 666);
    assert_eq!(thread.state(&k), ThreadState::Dying);

    assert_eq!(
        Thread::create(&mut k, &proc, "thread1").err(),
        Some(ZxError::BAD_STATE)
    );
}

#[test]
fn new_proc() {
    let mut k = Kernel::new();
    let root_job = Job::root(&mut k);
    let proc = Process::create(&mut k, &root_job, "").unwrap();
    assert_eq!(proc.kind_name(), "Process");
    assert_eq!(proc.name(&k), "");
    proc.set_name(&mut k, "proc1");
    assert_eq!(proc.name(&k), "proc1");
    let repr = format!("{}({}, {:?})", proc.kind_name(), proc.id(), proc.name(&k));
    assert_eq!(repr, format!("Process({}, \"proc1\")", proc.id()));

    // the generic object surface reads and writes the same shared name
    k.set_object_name(proc.id(), "proc2");
    assert_eq!(k.object_name(proc.id()), "proc2");
    assert_eq!(proc.name(&k), "proc2");
}
