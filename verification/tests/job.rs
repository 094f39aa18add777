use zcore::error::ZxError;
use zcore::job::Job;
use zcore::object::Kernel;
use zcore::policy::BasicPolicy;
use zcore::policy::PolicyAction;
use zcore::policy::PolicyCondition;
use zcore::policy::SetPolicyOptions;
use zcore::process::Process;
use zcore::process::Status;
use zcore::process::TASK_RETCODE_SYSCALL_KILL;
use zcore::thread::Thread;

#[test]
fn job_create() {
    let mut k = Kernel::new();
    let root_job = Job::root(&mut k);
    let job = root_job.create_child(&mut k).expect("failed to create job");

    let child = root_job.get_child(&k, job.id()).unwrap();
    assert_eq!(child, job.id());
    assert_eq!(job.related_koid(&k), root_job.id());
    assert_eq!(root_job.related_koid(&k), 0);

    root_job.kill(&mut k);
    assert_eq!(root_job.create_child(&mut k).err(), Some(ZxError::BAD_STATE));
}

#[test]
fn set_policy() {
    let mut k = Kernel::new();
    let root_job = Job::root(&mut k);

    assert_eq!(root_job.policy(&k).get_action(PolicyCondition::BadHandle), None);

    let policy = &[BasicPolicy { condition: PolicyCondition::BadHandle, action: PolicyAction::Deny }];
    root_job
        .set_policy_basic(&mut k, SetPolicyOptions::Relative, policy)
        .expect("failed to set policy");
    assert_eq!(
        root_job.policy(&k).get_action(PolicyCondition::BadHandle),
        Some(PolicyAction::Deny)
    );

    // a second relative application of the same condition is a no-op:
    // the first value is retained
    let policy = &[BasicPolicy { condition: PolicyCondition::BadHandle, action: PolicyAction::Allow }];
    root_job
        .set_policy_basic(&mut k, SetPolicyOptions::Relative, policy)
        .expect("failed to set policy");
    assert_eq!(
        root_job.policy(&k).get_action(PolicyCondition::BadHandle),
        Some(PolicyAction::Deny)
    );

    let job = root_job.create_child(&mut k).expect("failed to create job");

    // the child inherits the parent's effective policy
    assert_eq!(
        job.policy(&k).get_action(PolicyCondition::BadHandle),
        Some(PolicyAction::Deny)
    );

    // setting policy for a non-empty job must fail
    assert_eq!(
        root_job.set_policy_basic(&mut k, SetPolicyOptions::Relative, &[]),
        Err(ZxError::BAD_STATE)
    );

    // setting an undecided condition succeeds
    let policy = &[BasicPolicy { condition: PolicyCondition::WrongObject, action: PolicyAction::Allow }];
    job.set_policy_basic(&mut k, SetPolicyOptions::Relative, policy)
        .expect("failed to set policy");
    assert_eq!(
        job.policy(&k).get_action(PolicyCondition::WrongObject),
        Some(PolicyAction::Allow)
    );

    // relatively setting an inherited condition is ignored
    let policy = &[BasicPolicy { condition: PolicyCondition::BadHandle, action: PolicyAction::Allow }];
    job.set_policy_basic(&mut k, SetPolicyOptions::Relative, policy)
        .expect("failed to set policy");
    assert_eq!(
        job.policy(&k).get_action(PolicyCondition::BadHandle),
        Some(PolicyAction::Deny)
    );

    // absolutely setting a decided condition must fail
    assert_eq!(
        job.set_policy_basic(&mut k, SetPolicyOptions::Absolute, policy),
        Err(ZxError::ALREADY_EXISTS)
    );
}

#[test]
fn parent_child() {
    let mut k = Kernel::new();
    let root_job = Job::root(&mut k);
    let job = root_job.create_child(&mut k).expect("failed to create job");
    let proc = Process::create(&mut k, &root_job, "proc").expect("failed to create process");

    assert_eq!(root_job.get_child(&k, job.id()).unwrap(), job.id());
    assert_eq!(root_job.get_child(&k, proc.id()).unwrap(), proc.id());
    assert_eq!(root_job.get_child(&k, root_job.id()).err(), Some(ZxError::NOT_FOUND));
    assert_eq!(job.parent(&k).unwrap().id(), root_job.id());

    let job1 = root_job.create_child(&mut k).expect("failed to create job");
    let proc1 = Process::create(&mut k, &root_job, "proc1").expect("failed to create process");
    assert_eq!(root_job.children_ids(&k), vec![job.id(), job1.id()]);
    assert_eq!(root_job.process_ids(&k), vec![proc.id(), proc1.id()]);

    root_job.kill(&mut k);
    assert_eq!(root_job.create_child(&mut k).err(), Some(ZxError::BAD_STATE));
}

#[test]
fn check() {
    let mut k = Kernel::new();
    let root_job = Job::root(&mut k);
    assert!(root_job.is_empty(&k));
    let job = root_job.create_child(&mut k).expect("failed to create job");
    assert_eq!(root_job.check_root_job(&k), Ok(()));
    assert_eq!(job.check_root_job(&k), Err(ZxError::ACCESS_DENIED));

    assert!(!root_job.is_empty(&k));
    assert!(job.is_empty(&k));

    let _proc = Process::create(&mut k, &job, "proc").expect("failed to create process");
    assert!(!job.is_empty(&k));
}

#[test]
fn kill() {
    let mut k = Kernel::new();
    let root_job = Job::root(&mut k);
    let job = root_job.create_child(&mut k).expect("failed to create job");
    let proc = Process::create(&mut k, &root_job, "proc").expect("failed to create process");
    let thread = Thread::create(&mut k, &proc, "thread").expect("failed to create thread");

    root_job.kill(&mut k);
    assert!(root_job.killed(&k));
    assert!(job.killed(&k));
    assert_eq!(proc.status(&k), Status::Exited(TASK_RETCODE_SYSCALL_KILL));

    std::mem::drop(thread);
    assert!(root_job.killed(&k));
    assert!(job.killed(&k));
    assert_eq!(proc.status(&k), Status::Exited(TASK_RETCODE_SYSCALL_KILL));

    // a job with no children terminates at once
    let root_job = Job::root(&mut k);
    root_job.kill(&mut k);
    assert!(root_job.killed(&k));

    // a job whose process has no threads
    let root_job = Job::root(&mut k);
    let job = root_job.create_child(&mut k).expect("failed to create job");
    let proc = Process::create(&mut k, &root_job, "proc").expect("failed to create process");
    root_job.kill(&mut k);
    assert!(root_job.killed(&k));
    assert!(job.killed(&k));
    assert_eq!(proc.status(&k), Status::Exited(TASK_RETCODE_SYSCALL_KILL));
}
