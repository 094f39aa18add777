//! Processes: a handle table plus the set of threads sharing one address
//! space, with a monotone lifecycle status.

use vstd::prelude::*;
use crate::object::Handle;
use crate::object::HandleValue;
use crate::object::INVALID_HANDLE;
use crate::object::KoID;
use crate::object::Kernel;
use crate::object::ObjectBody;
use crate::object::ObjectType;
use crate::rights::Rights;
use crate::policy::JobPolicy;
use crate::thread::ThreadState;
use crate::thread::Thread;
use crate::thread::ThreadData;
use crate::thread::CurrentThread;
use crate::thread::UserContext;
use crate::thread::GeneralRegs;
use crate::error::ZxError;
use crate::error::ZxResult;
use crate::job::Job;
use crate::job::JobData;
use crate::policy::PolicyAction;
use crate::policy::PolicyCondition;

verus! {

/// The lifecycle status of a process; it only ever moves forward.
#[derive(Debug, Clone, Copy, PartialEq, Eq, Structural)]
pub enum Status {
    /// Initial state, no thread has started.
    Init,
    /// The first thread has started.
    Running,
    /// The process has exited with the code.
    Exited(i64),
}

/// The state of one process.
pub struct ProcessData {
    /// The owning job.
    pub job: KoID,
    /// The job's effective policy, frozen when this process was created.
    pub policy: JobPolicy,
    /// The lifecycle status.
    pub status: Status,
    /// The handle table: slot `i` holds the handle for value `(i << 2) | 3`.
    /// Freed slots are never reused.
    pub handles: Vec<Option<Handle>>,
    /// The threads of this process.
    pub threads: Vec<KoID>,
}

impl Kernel {
    /// The state of process `id`.
    pub open spec fn proc_data(self, id: KoID) -> ProcessData {
        match self.body_of(id) {
            ObjectBody::Process(p) => p,
            _ => arbitrary(),
        }
    }

    /// The owning job of process `id`.
    pub open spec fn proc_job(self, id: KoID) -> KoID {
        self.proc_data(id).job
    }

    /// The lifecycle status of process `id`.
    pub open spec fn proc_status(self, id: KoID) -> Status {
        self.proc_data(id).status
    }

    /// The threads of process `id`.
    pub open spec fn proc_threads(self, id: KoID) -> Seq<KoID> {
        self.proc_data(id).threads@
    }

    /// The handle-table slots of process `id`.
    pub open spec fn proc_handles(self, id: KoID) -> Seq<Option<Handle>> {
        self.proc_data(id).handles@
    }

    /// Whether process `id` has exited.
    pub open spec fn proc_exited(self, id: KoID) -> bool {
        self.proc_status(id) is Exited
    }

    /// Exit process `p` with `retcode`: idempotent; on the first exit the
    /// status is fixed, every thread of the process is killed, and the
    /// handle table is cleared. A process with no threads terminates at
    /// once; otherwise termination waits for its last thread to finalize.
    #[verifier::rlimit(50)]
    pub(crate) fn process_exit(&mut self, p: KoID, retcode: i64)
        requires
            old(self).wf(),
            old(self).is_process(p),
        ensures
            final(self).wf(),
            Kernel::cascade_frame(*old(self), *final(self)),
            final(self).proc_status(p) == if old(self).proc_exited(p) {
                old(self).proc_status(p)
            } else {
                Status::Exited(retcode)
            },
            old(self).proc_exited(p) ==> *final(self) == *old(self),
            !old(self).proc_exited(p) ==> final(self).proc_handles(p).len() == 0,
            !old(self).proc_exited(p) ==> forall|y: int|
                0 <= y < old(self).proc_threads(p).len() ==> {
                    let t = #[trigger] old(self).proc_threads(p)[y];
                    &&& final(self).thread_data(t).state == ThreadState::Dying
                        || final(self).thread_data(t).state == ThreadState::Dead
                },
    {
        let i = self.index_of_obj(p);
        proof {
            self.lemma_idx_of(p);
            assert(self.body_of(p) == self.objs()[i as int].body);
        }
        let (exited, threads_snap) = match &self.objects[i].body {
            ObjectBody::Process(d) => (matches!(d.status, Status::Exited(_)), d.threads.clone()),
            _ => unreached(),
        };
        if exited {
            proof {
                Kernel::lemma_cascade_frame_refl(*self);
            }
            return ;
        }
        let ghost k0 = *self;
        let e = &mut self.objects[i];
        match &mut e.body {
            ObjectBody::Process(d) => d.status = Status::Exited(retcode),
            _ => {
                proof {
                    assert(false);
                }
            },
        }
        proof {
            Kernel::lemma_update_frame(k0, *self, p);
            assert(Kernel::local_change_ok(k0, *self, p));
            Kernel::lemma_local_change_preserves(k0, *self, p);
            Kernel::lemma_cascade_frame_local(k0, *self, p);
            assert(threads_snap@ == k0.proc_threads(p));
            assert forall|y: int|
                0 <= y < threads_snap@.len() implies k0.is_thread(
                #[trigger] threads_snap@[y],
            ) && threads_snap@[y] != p by {
                assert(k0.proc_threads(p)[y] == threads_snap@[y]);
                assert(k0.is_thread(k0.proc_threads(p)[y]));
            }
        }
        let ghost k1 = *self;
        let n = threads_snap.len();
        let mut x: usize = 0;
        while x < n
            invariant
                0 <= x <= n,
                n == threads_snap@.len(),
                self.wf(),
                k1.wf(),
                k1.is_process(p),
                Kernel::cascade_frame(k1, *self),
                self.proc_status(p) == k1.proc_status(p),
                k1.proc_status(p) is Exited,
                forall|y: int|
                    0 <= y < n ==> k1.is_thread(#[trigger] threads_snap@[y]) && threads_snap@[y]
                        != p,
                forall|y: int|
                    0 <= y < x ==> (#[trigger] self.thread_data(threads_snap@[y])).state
                        == ThreadState::Dying || self.thread_data(threads_snap@[y]).state
                        == ThreadState::Dead,
            decreases n - x,
        {
            let t = threads_snap[x];
            let ghost before = *self;
            proof {
                assert(k1.is_thread(t));
                assert(self.is_thread(t));
            }
            self.thread_stop(t, true);
            proof {
                Kernel::lemma_cascade_frame_trans(k1, before, *self);
                assert forall|y: int|
                    0 <= y < x + 1 implies (#[trigger] self.thread_data(
                    threads_snap@[y],
                )).state == ThreadState::Dying || self.thread_data(threads_snap@[y]).state
                    == ThreadState::Dead by {
                    let u = threads_snap@[y];
                    if u != t {
                        assert(before.has_obj(u));
                        assert(self.obj_of(u) == before.obj_of(u));
                    }
                }
            }
            x = x + 1;
        }
        let ghost k2 = *self;
        proof {
            assert(self.kind_of(p) == k1.kind_of(p));
            assert(self.is_process(p));
        }
        let i = self.index_of_obj(p);
        proof {
            self.lemma_idx_of(p);
            assert(self.body_of(p) == self.objs()[i as int].body);
        }
        let e = &mut self.objects[i];
        match &mut e.body {
            ObjectBody::Process(d) => d.handles.clear(),
            _ => {
                proof {
                    assert(false);
                }
            },
        }
        proof {
            Kernel::lemma_update_frame(k2, *self, p);
            assert(Kernel::local_change_ok(k2, *self, p));
            Kernel::lemma_local_change_preserves(k2, *self, p);
            Kernel::lemma_cascade_frame_local(k2, *self, p);
            Kernel::lemma_cascade_frame_trans(k1, k2, *self);
            Kernel::lemma_cascade_frame_trans(k0, k1, *self);
            assert forall|y: int|
                0 <= y < threads_snap@.len() implies (#[trigger] self.thread_data(
                threads_snap@[y],
            )).state == ThreadState::Dying || self.thread_data(threads_snap@[y]).state
                == ThreadState::Dead by {
                let t = threads_snap@[y];
                assert(k2.thread_data(t).state == ThreadState::Dying || k2.thread_data(t).state
                    == ThreadState::Dead);
                assert(k2.has_obj(t));
                assert(t != p);
                assert(self.obj_of(t) == k2.obj_of(t));
            }
        }
        let ghost k25 = *self;
        let threads_left = match &self.objects[i].body {
            ObjectBody::Process(d) => d.threads.len(),
            _ => unreached(),
        };
        if threads_left == 0 {
            let ghost k3 = *self;
            self.process_terminate(p);
            proof {
                Kernel::lemma_cascade_frame_trans(k0, k3, *self);
                assert forall|y: int|
                    0 <= y < threads_snap@.len() implies (#[trigger] self.thread_data(
                    threads_snap@[y],
                )).state == ThreadState::Dying || self.thread_data(threads_snap@[y]).state
                    == ThreadState::Dead by {
                    let t = threads_snap@[y];
                    assert(k1.is_thread(t));
                    assert(k3.kind_of(t) == k1.kind_of(t));
                    assert(k3.is_thread(t));
                    assert(self.thread_data(t) == k3.thread_data(t));
                }
                assert(self.proc_data(p) == k3.proc_data(p));
            }
        }
    }

    /// Fix process `p`'s status as exited (default code 0 where none was
    /// set) and deregister it from its owning job. Only the status field
    /// of `p` changes; every thread and every other process keeps its
    /// whole state.
    pub(crate) fn process_terminate(&mut self, p: KoID)
        requires
            old(self).wf(),
            old(self).is_process(p),
        ensures
            final(self).wf(),
            Kernel::cascade_frame(*old(self), *final(self)),
            final(self).proc_exited(p),
            final(self).proc_data(p) == (ProcessData {
                status: if old(self).proc_exited(p) {
                    old(self).proc_status(p)
                } else {
                    Status::Exited(0)
                },
                ..old(self).proc_data(p)
            }),
            forall|oid: KoID|
                old(self).is_process(oid) && oid != p ==> #[trigger] final(self).proc_data(oid)
                    == old(self).proc_data(oid),
            forall|oid: KoID|
                old(self).is_thread(oid) ==> #[trigger] final(self).thread_data(oid) == old(
                    self,
                ).thread_data(oid),
    {
        let i = self.index_of_obj(p);
        proof {
            self.lemma_idx_of(p);
            assert(self.body_of(p) == self.objs()[i as int].body);
        }
        let (exited, job) = match &self.objects[i].body {
            ObjectBody::Process(d) => (matches!(d.status, Status::Exited(_)), d.job),
            _ => unreached(),
        };
        let ghost k0 = *self;
        if !exited {
            let e = &mut self.objects[i];
            match &mut e.body {
                ObjectBody::Process(d) => d.status = Status::Exited(0),
                _ => {
                    proof {
                        assert(false);
                    }
                },
            }
            proof {
                Kernel::lemma_update_frame(k0, *self, p);
                assert(Kernel::local_change_ok(k0, *self, p));
                Kernel::lemma_local_change_preserves(k0, *self, p);
                Kernel::lemma_cascade_frame_local(k0, *self, p);
            }
        } else {
            proof {
                Kernel::lemma_cascade_frame_refl(*self);
            }
        }
        let ghost k1 = *self;
        proof {
            assert(k0.is_job(k0.proc_job(p)));
            assert(self.is_job(job));
        }
        self.job_remove_process(job, p);
        proof {
            Kernel::lemma_cascade_frame_trans(k0, k1, *self);
            assert(k1.is_process(p));
            assert(self.proc_data(p) == k1.proc_data(p));
            assert forall|oid: KoID|
                k0.is_process(oid) && oid != p implies #[trigger] self.proc_data(oid)
                == k0.proc_data(oid) by {
                assert(k1.has_obj(oid));
                assert(k1.obj_of(oid) == k0.obj_of(oid));
                assert(k1.is_process(oid));
                assert(self.proc_data(oid) == k1.proc_data(oid));
            }
            assert forall|oid: KoID|
                k0.is_thread(oid) implies #[trigger] self.thread_data(oid) == k0.thread_data(
                oid,
            ) by {
                assert(k1.has_obj(oid));
                assert(k1.obj_of(oid) == k0.obj_of(oid));
                assert(k1.is_thread(oid));
                assert(self.thread_data(oid) == k1.thread_data(oid));
            }
        }
    }
}

/// The outcome of resolving handle value `v` in process `p`'s table:
/// the stored handle, where the value is well-formed, in range, and the
/// slot is occupied.
pub open spec fn handle_lookup(k: Kernel, p: KoID, v: u32) -> Option<Handle> {
    slot_lookup(k.proc_handles(p), v)
}

/// The handle value that names table slot `i`: the slot index shifted past
/// two tag bits that keep every value distinct from the invalid sentinel.
pub open spec fn slot_value(i: int) -> u32 {
    ((i as u32) << 2u32) | 3u32
}

/// A reference to a process: a handle table plus a set of threads.
#[derive(Debug, Clone, Copy, PartialEq, Eq, Structural)]
pub struct Process {
    /// The id of the process this reference points at.
    pub koid: KoID,
}

impl Process {
    /// The id this reference points at.
    pub open spec fn spec_id(self) -> KoID {
        self.koid
    }

    /// Whether this reference points at a process of `k`.
    pub open spec fn valid(self, k: Kernel) -> bool {
        k.is_process(self.koid)
    }

    /// Create a new process under `job`, named `name`, carrying a frozen
    /// snapshot of the job's effective policy. Fails with `BAD_STATE` once
    /// the job has been killed.
    pub fn create(k: &mut Kernel, job: &Job, name: &str) -> (r: ZxResult<Process>)
        requires
            old(k).wf(),
            job.valid(*old(k)),
            old(k).spec_next_koid() < KoID::MAX,
        ensures
            final(k).wf(),
            match r {
                Result::Err(e) => e == ZxError::BAD_STATE && old(k).job_killed(job.spec_id())
                    && *final(k) == *old(k),
                Result::Ok(p) => {
                    &&& !old(k).job_killed(job.spec_id())
                    &&& Kernel::grows_by_touching(*old(k), *final(k), p.spec_id(), job.spec_id())
                    &&& p.valid(*final(k))
                    &&& final(k).proc_job(p.spec_id()) == job.spec_id()
                    &&& final(k).proc_data(p.spec_id()).policy == old(k).job_effective_policy(
                        job.spec_id(),
                    )
                    &&& final(k).proc_status(p.spec_id()) == Status::Init
                    &&& final(k).proc_handles(p.spec_id()) == Seq::<Option<Handle>>::empty()
                    &&& final(k).proc_threads(p.spec_id()) == Seq::<KoID>::empty()
                    &&& final(k).name_of(p.spec_id()) == name@
                    &&& final(k).job_processes(job.spec_id()) == old(k).job_processes(
                        job.spec_id(),
                    ).push(p.spec_id())
                    &&& final(k).job_data(job.spec_id()) == (JobData {
                        processes: final(k).job_data(job.spec_id()).processes,
                        ..old(k).job_data(job.spec_id())
                    })
                    &&& final(k).obj_of(job.spec_id()).base == old(k).obj_of(job.spec_id()).base
                },
            },
    {
        let ji = k.index_of_obj(job.koid);
        proof {
            k.lemma_idx_of(job.koid);
            assert(k.body_of(job.spec_id()) == k.objs()[ji as int].body);
        }
        let (own_policy, parent_policy, killed) = match &k.objects[ji].body {
            ObjectBody::Job(j) => (j.policy, j.parent_policy, j.killed),
            _ => unreached(),
        };
        if killed {
            return Err(ZxError::BAD_STATE);
        }
        let policy = own_policy.merge(&parent_policy);
        let ghost pre = *k;
        let pid = k.insert_object(
            ObjectBody::Process(
                ProcessData {
                    job: job.koid,
                    policy,
                    status: Status::Init,
                    handles: Vec::new(),
                    threads: Vec::new(),
                },
            ),
            name,
        );
        proof {
            pre.lemma_id_bound(job.koid);
            Kernel::lemma_insert_preserves(pre, *k, pid);
        }
        let ghost mid = *k;
        let ji = k.index_of_obj(job.koid);
        proof {
            k.lemma_idx_of(job.koid);
            assert(k.obj_of(job.spec_id()) == pre.obj_of(job.spec_id()));
            assert(k.is_job(job.spec_id()));
            assert(k.body_of(job.spec_id()) == k.objs()[ji as int].body);
            assert(k.body_of(job.spec_id()) is Job);
        }
        let e = &mut k.objects[ji];
        match &mut e.body {
            ObjectBody::Job(j) => j.processes.push(pid),
            _ => {
                proof {
                    assert(false);
                }
            },
        }
        proof {
            Kernel::lemma_update_frame(mid, *k, job.koid);
            Kernel::lemma_push_process_preserves(mid, *k, job.koid, pid);
            assert forall|oid: KoID| pre.has_obj(oid) implies #[trigger] k.has_obj(oid) by {
                assert(mid.has_obj(oid));
            }
            assert forall|oid: KoID| #[trigger] k.has_obj(oid) implies oid == pid || pre.has_obj(
                oid,
            ) by {
                assert(mid.has_obj(oid));
            }
            assert forall|oid: KoID|
                pre.has_obj(oid) && oid != job.spec_id() implies #[trigger] k.obj_of(oid)
                == pre.obj_of(oid) by {
                assert(mid.has_obj(oid));
                assert(k.obj_of(oid) == mid.obj_of(oid));
                assert(mid.obj_of(oid) == pre.obj_of(oid));
            }
        }
        Ok(Process { koid: pid })
    }

    /// Exit this process with `retcode`: idempotent; on the first exit the
    /// status is fixed, every thread is killed, and the handle table is
    /// cleared. With no threads the process terminates at once; otherwise
    /// termination waits for the last thread to finalize.
    pub fn exit(&self, k: &mut Kernel, retcode: i64)
        requires
            old(k).wf(),
            self.valid(*old(k)),
        ensures
            final(k).wf(),
            Kernel::cascade_frame(*old(k), *final(k)),
            final(k).proc_status(self.spec_id()) == if old(k).proc_exited(self.spec_id()) {
                old(k).proc_status(self.spec_id())
            } else {
                Status::Exited(retcode)
            },
            old(k).proc_exited(self.spec_id()) ==> *final(k) == *old(k),
            !old(k).proc_exited(self.spec_id()) ==> final(k).proc_handles(self.spec_id()).len()
                == 0,
            !old(k).proc_exited(self.spec_id()) ==> forall|y: int|
                0 <= y < old(k).proc_threads(self.spec_id()).len() ==> {
                    let t = #[trigger] old(k).proc_threads(self.spec_id())[y];
                    &&& final(k).thread_data(t).state == ThreadState::Dying
                        || final(k).thread_data(t).state == ThreadState::Dead
                },
    {
        k.process_exit(self.koid, retcode);
    }

    /// Kill this process: exit it with the kill return code.
    pub fn kill(&self, k: &mut Kernel)
        requires
            old(k).wf(),
            self.valid(*old(k)),
        ensures
            final(k).wf(),
            Kernel::cascade_frame(*old(k), *final(k)),
            final(k).proc_status(self.spec_id()) == if old(k).proc_exited(self.spec_id()) {
                old(k).proc_status(self.spec_id())
            } else {
                Status::Exited(TASK_RETCODE_SYSCALL_KILL)
            },
    {
        k.process_exit(self.koid, TASK_RETCODE_SYSCALL_KILL);
    }

    /// The process's lifecycle status.
    pub fn status(&self, k: &Kernel) -> (r: Status)
        requires
            k.wf(),
            self.valid(*k),
        ensures
            r == k.proc_status(self.spec_id()),
    {
        let i = k.index_of_obj(self.koid);
        proof {
            k.lemma_idx_of(self.koid);
            assert(k.body_of(self.spec_id()) == k.objs()[i as int].body);
        }
        match &k.objects[i].body {
            ObjectBody::Process(d) => d.status,
            _ => unreached(),
        }
    }

    /// The owning job.
    pub fn job(&self, k: &Kernel) -> (r: Job)
        requires
            k.wf(),
            self.valid(*k),
        ensures
            r.spec_id() == k.proc_job(self.spec_id()),
            r.valid(*k),
    {
        let i = k.index_of_obj(self.koid);
        proof {
            k.lemma_idx_of(self.koid);
            assert(k.body_of(self.spec_id()) == k.objs()[i as int].body);
        }
        match &k.objects[i].body {
            ObjectBody::Process(d) => Job { koid: d.job },
            _ => unreached(),
        }
    }

    /// The ids of this process's threads, in creation order.
    pub fn thread_ids(&self, k: &Kernel) -> (r: Vec<KoID>)
        requires
            k.wf(),
            self.valid(*k),
        ensures
            r@ == k.proc_threads(self.spec_id()),
    {
        let i = k.index_of_obj(self.koid);
        proof {
            k.lemma_idx_of(self.koid);
            assert(k.body_of(self.spec_id()) == k.objs()[i as int].body);
        }
        match &k.objects[i].body {
            ObjectBody::Process(d) => d.threads.clone(),
            _ => unreached(),
        }
    }

    /// Whether `thread` is one of this process's threads.
    pub fn contains_thread(&self, k: &Kernel, thread: KoID) -> (r: bool)
        requires
            k.wf(),
            self.valid(*k),
        ensures
            r == k.proc_threads(self.spec_id()).contains(thread),
    {
        let i = k.index_of_obj(self.koid);
        proof {
            k.lemma_idx_of(self.koid);
            assert(k.body_of(self.spec_id()) == k.objs()[i as int].body);
        }
        match &k.objects[i].body {
            ObjectBody::Process(d) => {
                let n = d.threads.len();
                let mut x: usize = 0;
                while x < n
                    invariant
                        0 <= x <= n,
                        n == d.threads@.len(),
                        d.threads@ == k.proc_threads(self.spec_id()),
                        forall|y: int| 0 <= y < x ==> d.threads@[y] != thread,
                    decreases n - x,
                {
                    if d.threads[x] == thread {
                        proof {
                            assert(k.proc_threads(self.spec_id())[x as int] == thread);
                        }
                        return true;
                    }
                    x = x + 1;
                }
                false
            },
            _ => unreached(),
        }
    }

    /// A summary of the process's status: whether it started, whether it
    /// exited, and with which code.
    pub fn get_info(&self, k: &Kernel) -> (r: ProcessInfo)
        requires
            k.wf(),
            self.valid(*k),
        ensures
            r == spec_process_info(k.proc_status(self.spec_id())),
    {
        match self.status(k) {
            Status::Init => ProcessInfo { return_code: 0, started: false, has_exited: false },
            Status::Running => ProcessInfo { return_code: 0, started: true, has_exited: false },
            Status::Exited(code) => ProcessInfo {
                return_code: code,
                started: true,
                has_exited: true,
            },
        }
    }

    /// Find a thread of this process by id; `NOT_FOUND` where no such
    /// thread exists.
    pub fn get_child(&self, k: &Kernel, id: KoID) -> (r: ZxResult<KoID>)
        requires
            k.wf(),
            self.valid(*k),
        ensures
            r == if k.proc_threads(self.spec_id()).contains(id) {
                Ok::<KoID, ZxError>(id)
            } else {
                Err::<KoID, ZxError>(ZxError::NOT_FOUND)
            },
    {
        if self.contains_thread(k, id) {
            Ok(id)
        } else {
            Err(ZxError::NOT_FOUND)
        }
    }

    /// Check `condition` against the policy snapshot this process inherited
    /// from its job at creation: allowed where the policy says `Allow` or
    /// is silent, refused with `ACCESS_DENIED` where it says `Deny`.
    pub fn check_policy(&self, k: &Kernel, condition: PolicyCondition) -> (r: ZxResult)
        requires
            k.wf(),
            self.valid(*k),
            match k.proc_data(self.spec_id()).policy.spec_get_action(condition) {
                Some(a) => a == PolicyAction::Allow || a == PolicyAction::Deny,
                None => true,
            },
        ensures
            r == match k.proc_data(self.spec_id()).policy.spec_get_action(condition) {
                Some(a) => if a == PolicyAction::Allow {
                    Ok::<(), ZxError>(())
                } else {
                    Err::<(), ZxError>(ZxError::ACCESS_DENIED)
                },
                None => Ok::<(), ZxError>(()),
            },
    {
        let i = k.index_of_obj(self.koid);
        proof {
            k.lemma_idx_of(self.koid);
            assert(k.body_of(self.spec_id()) == k.objs()[i as int].body);
        }
        let pol = match &k.objects[i].body {
            ObjectBody::Process(d) => d.policy,
            _ => unreached(),
        };
        match pol.get_action(condition) {
            Some(PolicyAction::Allow) => Ok(()),
            Some(PolicyAction::Deny) => Err(ZxError::ACCESS_DENIED),
            Some(_) => unreached(),
            None => Ok(()),
        }
    }

    /// The object's id.
    pub fn id(&self) -> (r: KoID)
        ensures
            r == self.spec_id(),
    {
        self.koid
    }

    /// The tag naming this object's kind.
    pub fn kind_name(&self) -> (r: &'static str)
        ensures
            r@ == "Process"@,
    {
        "Process"
    }

    /// The object's current name.
    pub fn name(&self, k: &Kernel) -> (r: String)
        requires
            k.wf(),
            self.valid(*k),
        ensures
            r@ == k.name_of(self.spec_id()),
    {
        k.object_name(self.koid)
    }

    /// Set the object's name; visible through any handle to it.
    pub fn set_name(&self, k: &mut Kernel, name: &str)
        requires
            old(k).wf(),
            self.valid(*old(k)),
        ensures
            final(k).wf(),
            Kernel::objects_frame(*old(k), *final(k), self.spec_id()),
            final(k).name_of(self.spec_id()) == name@,
            final(k).body_of(self.spec_id()) == old(k).body_of(self.spec_id()),
    {
        k.set_object_name(self.koid, name);
    }

    /// The id of the owning job.
    pub fn related_koid(&self, k: &Kernel) -> (r: KoID)
        requires
            k.wf(),
            self.valid(*k),
        ensures
            r == k.proc_job(self.spec_id()),
    {
        self.job(k).id()
    }
}

/// The status summary reported for a process with the given status.
pub open spec fn spec_process_info(s: Status) -> ProcessInfo {
    match s {
        Status::Init => ProcessInfo { return_code: 0, started: false, has_exited: false },
        Status::Running => ProcessInfo { return_code: 0, started: true, has_exited: false },
        Status::Exited(code) => ProcessInfo { return_code: code, started: true, has_exited: true },
    }
}

/// A summary of a process's status.
#[derive(Debug, Clone, Copy, PartialEq, Eq, Structural)]
pub struct ProcessInfo {
    /// The exit code, or 0 while the process has not exited.
    pub return_code: i64,
    /// Whether the first thread has started.
    pub started: bool,
    /// Whether the process has exited.
    pub has_exited: bool,
}

/// The outcome of resolving handle value `v` against the table slots `hs`.
pub open spec fn slot_lookup(hs: Seq<Option<Handle>>, v: u32) -> Option<Handle> {
    let slot = (v >> 2u32) as int;
    if v & 3u32 == 3u32 && 0 <= slot < hs.len() && hs[slot] is Some {
        hs[slot]
    } else {
        None
    }
}

/// What removing the handles named by `vs`, in order, does to the table
/// slots `hs`: each value is looked up and its slot is freed; the first
/// value that resolves to nothing stops the batch with `BAD_HANDLE`,
/// leaving the earlier removals done.
pub open spec fn remove_handles_outcome(hs: Seq<Option<Handle>>, vs: Seq<u32>) -> (
    Seq<Option<Handle>>,
    Result<Seq<Handle>, ZxError>,
)
    decreases vs.len(),
{
    if vs.len() <= 0 {
        (hs, Ok(Seq::<Handle>::empty()))
    } else {
        let v = vs[0];
        match slot_lookup(hs, v) {
            Some(h) => {
                let hs2 = hs.update((v >> 2u32) as int, None);
                let rest = remove_handles_outcome(hs2, vs.drop_first());
                match rest.1 {
                    Ok(tail) => (rest.0, Ok(seq![h] + tail)),
                    Err(e) => (rest.0, Err(e)),
                }
            },
            None => (hs, Err(ZxError::BAD_HANDLE)),
        }
    }
}

impl Process {
    /// Add a handle to the table, returning its freshly allocated handle
    /// value. Values count up and are never reused; none collides with the
    /// invalid sentinel.
    pub fn add_handle(&self, k: &mut Kernel, handle: Handle) -> (r: HandleValue)
        requires
            old(k).wf(),
            self.valid(*old(k)),
            old(k).proc_handles(self.spec_id()).len() < 0x4000_0000,
        ensures
            final(k).wf(),
            Kernel::objects_frame(*old(k), *final(k), self.spec_id()),
            final(k).obj_of(self.spec_id()).base == old(k).obj_of(self.spec_id()).base,
            final(k).proc_data(self.spec_id()) == (ProcessData {
                handles: final(k).proc_data(self.spec_id()).handles,
                ..old(k).proc_data(self.spec_id())
            }),
            final(k).proc_handles(self.spec_id()) == old(k).proc_handles(self.spec_id()).push(
                Some(handle),
            ),
            final(k).kind_of(self.spec_id()) == old(k).kind_of(self.spec_id()),
            r == slot_value(old(k).proc_handles(self.spec_id()).len() as int),
            r != INVALID_HANDLE,
            handle_lookup(*final(k), self.spec_id(), r) == Some(handle),
    {
        let i = k.index_of_obj(self.koid);
        proof {
            k.lemma_idx_of(self.koid);
            assert(k.body_of(self.spec_id()) == k.objs()[i as int].body);
        }
        let ghost pre = *k;
        let mut value: u32 = 0;
        let e = &mut k.objects[i];
        match &mut e.body {
            ObjectBody::Process(d) => {
                let n = d.handles.len();
                value = ((n as u32) << 2u32) | 3u32;
                d.handles.push(Some(handle));
            },
            _ => {
                proof {
                    assert(false);
                }
            },
        }
        proof {
            Kernel::lemma_update_frame(pre, *k, self.koid);
            assert(Kernel::local_change_ok(pre, *k, self.koid));
            Kernel::lemma_local_change_preserves(pre, *k, self.koid);
            let n32: u32 = pre.proc_handles(self.spec_id()).len() as u32;
            assert(((n32 << 2u32) | 3u32) != 0u32 && ((n32 << 2u32) | 3u32) & 3u32 == 3u32 && ((
            n32 << 2u32) | 3u32) >> 2u32 == n32) by (bit_vector)
                requires
                    n32 < 0x4000_0000u32,
            ;
        }
        value
    }

    /// Remove the handle for `v` from the table, returning it; the slot is
    /// freed and never reused. Fails with `BAD_HANDLE` where `v` resolves
    /// to nothing.
    pub fn remove_handle(&self, k: &mut Kernel, v: HandleValue) -> (r: ZxResult<Handle>)
        requires
            old(k).wf(),
            self.valid(*old(k)),
        ensures
            final(k).wf(),
            match handle_lookup(*old(k), self.spec_id(), v) {
                Some(h) => {
                    &&& r == Ok::<Handle, ZxError>(h)
                    &&& Kernel::objects_frame(*old(k), *final(k), self.spec_id())
                    &&& final(k).obj_of(self.spec_id()).base == old(k).obj_of(self.spec_id()).base
                    &&& final(k).proc_data(self.spec_id()) == (ProcessData {
                        handles: final(k).proc_data(self.spec_id()).handles,
                        ..old(k).proc_data(self.spec_id())
                    })
                    &&& final(k).proc_handles(self.spec_id()) == old(k).proc_handles(
                        self.spec_id(),
                    ).update((v >> 2u32) as int, None)
                },
                None => r == Err::<Handle, ZxError>(ZxError::BAD_HANDLE) && *final(k) == *old(
                    k,
                ),
            },
            final(k).kind_of(self.spec_id()) == old(k).kind_of(self.spec_id()),
    {
        let i = k.index_of_obj(self.koid);
        proof {
            k.lemma_idx_of(self.koid);
            assert(k.body_of(self.spec_id()) == k.objs()[i as int].body);
        }
        if v & 3u32 != 3u32 {
            return Err(ZxError::BAD_HANDLE);
        }
        let slot = (v >> 2u32) as usize;
        let found = match &k.objects[i].body {
            ObjectBody::Process(d) => {
                if slot < d.handles.len() {
                    d.handles[slot]
                } else {
                    None
                }
            },
            _ => unreached(),
        };
        match found {
            Some(h) => {
                let ghost pre = *k;
                let e = &mut k.objects[i];
                match &mut e.body {
                    ObjectBody::Process(d) => d.handles.set(slot, None),
                    _ => {
                        proof {
                            assert(false);
                        }
                    },
                }
                proof {
                    Kernel::lemma_update_frame(pre, *k, self.koid);
                    assert(Kernel::local_change_ok(pre, *k, self.koid));
                    Kernel::lemma_local_change_preserves(pre, *k, self.koid);
                }
                Ok(h)
            },
            None => Err(ZxError::BAD_HANDLE),
        }
    }

    /// Add a batch of handles, returning their values in order.
    pub fn add_handles(&self, k: &mut Kernel, handles: Vec<Handle>) -> (r: Vec<HandleValue>)
        requires
            old(k).wf(),
            self.valid(*old(k)),
            old(k).proc_handles(self.spec_id()).len() + handles@.len() < 0x4000_0000,
        ensures
            final(k).wf(),
            Kernel::objects_frame(*old(k), *final(k), self.spec_id()),
            final(k).obj_of(self.spec_id()).base == old(k).obj_of(self.spec_id()).base,
            final(k).proc_data(self.spec_id()) == (ProcessData {
                handles: final(k).proc_data(self.spec_id()).handles,
                ..old(k).proc_data(self.spec_id())
            }),
            final(k).proc_handles(self.spec_id()) == old(k).proc_handles(self.spec_id())
                + handles@.map_values(|h: Handle| Some(h)),
            r@.len() == handles@.len(),
            forall|i: int|
                0 <= i < r@.len() ==> #[trigger] r@[i] == slot_value(
                    old(k).proc_handles(self.spec_id()).len() + i,
                ),
    {
        let ghost pre = *k;
        let mut values: Vec<HandleValue> = Vec::new();
        let n = handles.len();
        let mut x: usize = 0;
        proof {
            assert(pre.proc_handles(self.spec_id()) + handles@.map_values(
                |h: Handle| Some(h),
            ).take(0) =~= pre.proc_handles(self.spec_id()));
        }
        while x < n
            invariant
                0 <= x <= n,
                n == handles@.len(),
                k.wf(),
                self.valid(*k),
                Kernel::objects_frame(pre, *k, self.spec_id()),
                k.obj_of(self.spec_id()).base == pre.obj_of(self.spec_id()).base,
                k.proc_data(self.spec_id()) == (ProcessData {
                    handles: k.proc_data(self.spec_id()).handles,
                    ..pre.proc_data(self.spec_id())
                }),
                k.proc_handles(self.spec_id()) == pre.proc_handles(self.spec_id())
                    + handles@.map_values(|h: Handle| Some(h)).take(x as int),
                pre.proc_handles(self.spec_id()).len() + handles@.len() < 0x4000_0000,
                values@.len() == x,
                forall|i: int|
                    0 <= i < x ==> #[trigger] values@[i] == slot_value(
                        pre.proc_handles(self.spec_id()).len() + i,
                    ),
            decreases n - x,
        {
            let ghost before = *k;
            let h = handles[x];
            let v = self.add_handle(k, h);
            values.push(v);
            proof {
                assert(k.kind_of(self.spec_id()) == before.kind_of(self.spec_id()));
                assert(self.valid(*k));
                Kernel::lemma_objects_frame_trans(pre, before, *k, self.spec_id());
                assert(handles@.map_values(|hh: Handle| Some(hh)).take(x as int + 1)
                    =~= handles@.map_values(|hh: Handle| Some(hh)).take(x as int).push(
                    Some(handles@[x as int]),
                ));
                assert(k.proc_handles(self.spec_id()) =~= pre.proc_handles(self.spec_id())
                    + handles@.map_values(|hh: Handle| Some(hh)).take(x as int + 1));
            }
            x = x + 1;
        }
        proof {
            assert(handles@.map_values(|hh: Handle| Some(hh)).take(n as int) =~= handles@.map_values(
                |hh: Handle| Some(hh),
            ));
        }
        values
    }

    /// Remove a batch of handles by value, in order, returning them; the
    /// first value that resolves to nothing stops the batch with
    /// `BAD_HANDLE`, leaving the earlier removals done.
    pub fn remove_handles(&self, k: &mut Kernel, values: &[HandleValue]) -> (r: ZxResult<
        Vec<Handle>,
    >)
        requires
            old(k).wf(),
            self.valid(*old(k)),
        ensures
            final(k).wf(),
            Kernel::objects_frame(*old(k), *final(k), self.spec_id()),
            final(k).obj_of(self.spec_id()).base == old(k).obj_of(self.spec_id()).base,
            final(k).proc_data(self.spec_id()) == (ProcessData {
                handles: final(k).proc_data(self.spec_id()).handles,
                ..old(k).proc_data(self.spec_id())
            }),
            ({
                let outcome = remove_handles_outcome(
                    old(k).proc_handles(self.spec_id()),
                    values@,
                );
                &&& final(k).proc_handles(self.spec_id()) == outcome.0
                &&& match r {
                    Result::Ok(hs) => outcome.1 == Ok::<Seq<Handle>, ZxError>(hs@),
                    Result::Err(e) => outcome.1 == Err::<Seq<Handle>, ZxError>(e),
                }
            }),
    {
        let ghost pre = *k;
        let ghost hs0 = pre.proc_handles(self.spec_id());
        let mut out: Vec<Handle> = Vec::new();
        let mut failed = false;
        let n = values.len();
        let mut x: usize = 0;
        proof {
            assert(values@.skip(0) =~= values@);
        }
        while x < n
            invariant_except_break
                0 <= x <= n,
                n == values@.len(),
                k.wf(),
                self.valid(*k),
                Kernel::objects_frame(pre, *k, self.spec_id()),
                k.obj_of(self.spec_id()).base == pre.obj_of(self.spec_id()).base,
                k.proc_data(self.spec_id()) == (ProcessData {
                    handles: k.proc_data(self.spec_id()).handles,
                    ..pre.proc_data(self.spec_id())
                }),
                failed == false,
                remove_handles_outcome(hs0, values@) == ({
                    let rest = remove_handles_outcome(
                        k.proc_handles(self.spec_id()),
                        values@.skip(x as int),
                    );
                    match rest.1 {
                        Ok(tail) => (rest.0, Ok::<Seq<Handle>, ZxError>(out@ + tail)),
                        Err(e) => (rest.0, Err::<Seq<Handle>, ZxError>(e)),
                    }
                }),
            ensures
                k.wf(),
                self.valid(*k),
                Kernel::objects_frame(pre, *k, self.spec_id()),
                k.obj_of(self.spec_id()).base == pre.obj_of(self.spec_id()).base,
                k.proc_data(self.spec_id()) == (ProcessData {
                    handles: k.proc_data(self.spec_id()).handles,
                    ..pre.proc_data(self.spec_id())
                }),
                ({
                    let outcome = remove_handles_outcome(hs0, values@);
                    &&& k.proc_handles(self.spec_id()) == outcome.0
                    &&& (failed ==> outcome.1 == Err::<Seq<Handle>, ZxError>(ZxError::BAD_HANDLE))
                    &&& (!failed ==> outcome.1 == Ok::<Seq<Handle>, ZxError>(out@))
                }),
            decreases n - x,
        {
            let v = values[x];
            let ghost before = *k;
            let ghost out_prev = out@;
            proof {
                assert(values@.skip(x as int)[0] == v);
                assert(values@.skip(x as int).drop_first() =~= values@.skip(x as int + 1));
            }
            let got = self.remove_handle(k, v);
            match got {
                Ok(h) => {
                    out.push(h);
                    proof {
                        assert(k.kind_of(self.spec_id()) == before.kind_of(self.spec_id()));
                        assert(self.valid(*k));
                        Kernel::lemma_objects_frame_trans(pre, before, *k, self.spec_id());
                        let rest2 = remove_handles_outcome(
                            k.proc_handles(self.spec_id()),
                            values@.skip(x as int + 1),
                        );
                        if rest2.1 is Ok {
                            let tail = rest2.1->Ok_0;
                            assert((out_prev + (seq![h] + tail)) =~= (out@ + tail));
                        }
                    }
                },
                Err(_) => {
                    failed = true;
                    proof {
                        assert(*k == before);
                    }
                    break ;
                },
            }
            x = x + 1;
        }
        proof {
            if !failed {
                assert(values@.skip(n as int) =~= Seq::<u32>::empty());
                assert(out@ + Seq::<Handle>::empty() =~= out@);
            }
        }
        if failed {
            Err(ZxError::BAD_HANDLE)
        } else {
            Ok(out)
        }
    }
}

/// The outcome of resolving handle value `v` in process `p` to an object
/// of kind `ty` with at least `rights`: the handle is looked up first
/// (`BAD_HANDLE`), the object's kind is checked second (`WRONG_TYPE`), and
/// the rights are checked last (`ACCESS_DENIED`), in that order.
pub open spec fn get_object_outcome(
    k: Kernel,
    p: KoID,
    v: u32,
    ty: ObjectType,
    rights: Rights,
) -> Result<KoID, ZxError> {
    match handle_lookup(k, p, v) {
        None => Err(ZxError::BAD_HANDLE),
        Some(h) => if !k.has_obj(h.object) {
            Err(ZxError::BAD_HANDLE)
        } else if k.kind_of(h.object) != ty {
            Err(ZxError::WRONG_TYPE)
        } else if !h.rights.spec_contains(rights) {
            Err(ZxError::ACCESS_DENIED)
        } else {
            Ok(h.object)
        },
    }
}

/// The kind check comes before the rights check: a handle of the wrong
/// kind reports `WRONG_TYPE` whatever rights it carries, even where the
/// rights check would also have failed.
pub proof fn lemma_type_check_precedes_rights(
    k: Kernel,
    p: KoID,
    v: u32,
    ty: ObjectType,
    rights: Rights,
)
    requires
        handle_lookup(k, p, v) matches Some(h) && k.has_obj(h.object) && k.kind_of(h.object)
            != ty,
    ensures
        get_object_outcome(k, p, v, ty, rights) == Err::<KoID, ZxError>(ZxError::WRONG_TYPE),
{
}

impl Process {
    /// Look up handle value `v` and return its object checked to be of
    /// kind `ty` and to carry at least `desired` rights. The kind is
    /// checked before the rights.
    pub fn get_object_with_rights(
        &self,
        k: &Kernel,
        v: HandleValue,
        ty: ObjectType,
        desired: Rights,
    ) -> (r: ZxResult<KoID>)
        requires
            k.wf(),
            self.valid(*k),
        ensures
            r == get_object_outcome(*k, self.spec_id(), v, ty, desired),
    {
        let got = self.get_object_and_rights(k, v, ty);
        match got {
            Ok((id, rights)) => {
                if !rights.contains(desired) {
                    Err(ZxError::ACCESS_DENIED)
                } else {
                    Ok(id)
                }
            },
            Err(e) => Err(e),
        }
    }

    /// Look up handle value `v` and return its object checked to be of
    /// kind `ty`, without a rights check.
    pub fn get_object(&self, k: &Kernel, v: HandleValue, ty: ObjectType) -> (r: ZxResult<KoID>)
        requires
            k.wf(),
            self.valid(*k),
        ensures
            r == match self.get_object_and_rights_outcome(*k, v, ty) {
                Ok((id, _)) => Ok::<KoID, ZxError>(id),
                Err(e) => Err::<KoID, ZxError>(e),
            },
    {
        match self.get_object_and_rights(k, v, ty) {
            Ok((id, _)) => Ok(id),
            Err(e) => Err(e),
        }
    }

    /// The outcome of resolving `v` to an object of kind `ty` together
    /// with the handle's rights, without a rights check.
    pub open spec fn get_object_and_rights_outcome(
        self,
        k: Kernel,
        v: u32,
        ty: ObjectType,
    ) -> Result<(KoID, Rights), ZxError> {
        match handle_lookup(k, self.spec_id(), v) {
            None => Err(ZxError::BAD_HANDLE),
            Some(h) => if !k.has_obj(h.object) {
                Err(ZxError::BAD_HANDLE)
            } else if k.kind_of(h.object) != ty {
                Err(ZxError::WRONG_TYPE)
            } else {
                Ok((h.object, h.rights))
            },
        }
    }

    /// Look up handle value `v` and return its object checked to be of
    /// kind `ty`, together with the handle's rights.
    pub fn get_object_and_rights(&self, k: &Kernel, v: HandleValue, ty: ObjectType) -> (r:
        ZxResult<(KoID, Rights)>)
        requires
            k.wf(),
            self.valid(*k),
        ensures
            r == self.get_object_and_rights_outcome(*k, v, ty),
    {
        let i = k.index_of_obj(self.koid);
        proof {
            k.lemma_idx_of(self.koid);
            assert(k.body_of(self.spec_id()) == k.objs()[i as int].body);
        }
        let found: Option<Handle> = match &k.objects[i].body {
            ObjectBody::Process(d) => {
                if v & 3u32 != 3u32 {
                    None
                } else {
                    let slot = (v >> 2u32) as usize;
                    if slot < d.handles.len() {
                        d.handles[slot]
                    } else {
                        None
                    }
                }
            },
            _ => unreached(),
        };
        match found {
            None => Err(ZxError::BAD_HANDLE),
            Some(h) => {
                match k.object_type(h.object) {
                    None => Err(ZxError::BAD_HANDLE),
                    Some(t) => {
                        if t != ty {
                            Err(ZxError::WRONG_TYPE)
                        } else {
                            Ok((h.object, h.rights))
                        }
                    },
                }
            },
        }
    }

    /// Remove the handle for `v` and return its object checked to be of
    /// kind `ty`. The handle leaves the table even where the kind check
    /// then fails.
    pub fn remove_object(&self, k: &mut Kernel, v: HandleValue, ty: ObjectType) -> (r: ZxResult<
        KoID,
    >)
        requires
            old(k).wf(),
            self.valid(*old(k)),
        ensures
            final(k).wf(),
            r == match handle_lookup(*old(k), self.spec_id(), v) {
                None => Err::<KoID, ZxError>(ZxError::BAD_HANDLE),
                Some(h) => if !old(k).has_obj(h.object) {
                    Err::<KoID, ZxError>(ZxError::BAD_HANDLE)
                } else if old(k).kind_of(h.object) != ty {
                    Err::<KoID, ZxError>(ZxError::WRONG_TYPE)
                } else {
                    Ok::<KoID, ZxError>(h.object)
                },
            },
            handle_lookup(*old(k), self.spec_id(), v) is None ==> *final(k) == *old(k),
            handle_lookup(*old(k), self.spec_id(), v) is Some ==> final(k).proc_handles(
                self.spec_id(),
            ) == old(k).proc_handles(self.spec_id()).update((v >> 2u32) as int, None),
    {
        let got = self.remove_handle(k, v);
        match got {
            Err(e) => Err(e),
            Ok(h) => match k.object_type(h.object) {
                None => Err(ZxError::BAD_HANDLE),
                Some(t) => {
                    if t != ty {
                        Err(ZxError::WRONG_TYPE)
                    } else {
                        Ok(h.object)
                    }
                },
            },
        }
    }
}

impl Process {
    /// Start `thread` as the first running thread of this process:
    /// check that the thread belongs to the process (`ACCESS_DENIED`
    /// otherwise) and that the process has never started (`BAD_STATE`
    /// otherwise), flip the status to `Running`, insert the optional
    /// argument handle, and start the thread with the handle's value as
    /// its first argument. On failure to start the thread, the inserted
    /// handle is rolled back, but the status stays `Running`.
    #[verifier::rlimit(50)]
    pub fn start(
        &self,
        k: &mut Kernel,
        thread: &Thread,
        entry: usize,
        stack: usize,
        arg1: Option<Handle>,
        arg2: usize,
    ) -> (r: ZxResult<CurrentThread>)
        requires
            old(k).wf(),
            self.valid(*old(k)),
            thread.valid(*old(k)),
            old(k).proc_handles(self.spec_id()).len() < 0x4000_0000,
        ensures
            final(k).wf(),
            !old(k).proc_threads(self.spec_id()).contains(thread.spec_id()) ==> (r matches Err(e)
                && e == ZxError::ACCESS_DENIED && *final(k) == *old(k)),
            old(k).proc_threads(self.spec_id()).contains(thread.spec_id()) && old(k).proc_status(
                self.spec_id(),
            ) != Status::Init ==> (r matches Err(e) && e == ZxError::BAD_STATE && *final(k)
                == *old(k)),
            old(k).proc_threads(self.spec_id()).contains(thread.spec_id()) && old(k).proc_status(
                self.spec_id(),
            ) == Status::Init ==> ({
                let d = old(k).thread_data(thread.spec_id());
                let hv = if arg1 is Some {
                    slot_value(old(k).proc_handles(self.spec_id()).len() as int)
                } else {
                    INVALID_HANDLE
                };
                &&& Kernel::objects_frame2(*old(k), *final(k), self.spec_id(), thread.spec_id())
                &&& final(k).proc_status(self.spec_id()) == Status::Running
                &&& final(k).proc_data(self.spec_id()) == (ProcessData {
                    status: Status::Running,
                    handles: final(k).proc_data(self.spec_id()).handles,
                    ..old(k).proc_data(self.spec_id())
                })
                &&& final(k).thread_data(thread.spec_id()).first_thread
                &&& if d.state == ThreadState::New && d.context is Some {
                    let c = d.context->Some_0;
                    &&& r matches Ok(ct) && ct.thread == *thread
                    &&& final(k).proc_handles(self.spec_id()) == (if arg1 is Some {
                        old(k).proc_handles(self.spec_id()).push(Some(arg1->Some_0))
                    } else {
                        old(k).proc_handles(self.spec_id())
                    })
                    &&& final(k).thread_data(thread.spec_id()) == (ThreadData {
                        state: ThreadState::Running,
                        first_thread: true,
                        context: Some(
                            UserContext {
                                general: GeneralRegs {
                                    rip: entry as u64,
                                    rsp: stack as u64,
                                    rdi: hv as u64,
                                    rsi: arg2 as u64,
                                    rflags: c.general.rflags | 0x3202,
                                    ..c.general
                                },
                                ..c
                            },
                        ),
                        ..d
                    })
                } else {
                    &&& r matches Err(e) && e == ZxError::BAD_STATE
                    &&& final(k).thread_data(thread.spec_id()) == (ThreadData {
                        first_thread: true,
                        ..d
                    })
                    &&& final(k).proc_handles(self.spec_id()) == (if arg1 is Some {
                        old(k).proc_handles(self.spec_id()).push(Some(arg1->Some_0)).update(
                            old(k).proc_handles(self.spec_id()).len() as int,
                            None,
                        )
                    } else {
                        old(k).proc_handles(self.spec_id())
                    })
                }
            }),
    {
        let ghost pre = *k;
        if !self.contains_thread(k, thread.id()) {
            return Err(ZxError::ACCESS_DENIED);
        }
        match self.status(k) {
            Status::Init => {},
            _ => {
                return Err(ZxError::BAD_STATE);
            },
        }
        proof {
            assert(thread.spec_id() != self.spec_id());
        }
        let i = k.index_of_obj(self.koid);
        proof {
            k.lemma_idx_of(self.koid);
            assert(k.body_of(self.spec_id()) == k.objs()[i as int].body);
        }
        let e = &mut k.objects[i];
        match &mut e.body {
            ObjectBody::Process(d) => d.status = Status::Running,
            _ => {
                proof {
                    assert(false);
                }
            },
        }
        proof {
            Kernel::lemma_update_frame(pre, *k, self.koid);
            assert(Kernel::local_change_ok(pre, *k, self.koid));
            Kernel::lemma_local_change_preserves(pre, *k, self.koid);
        }
        let ghost k1 = *k;
        let mut handle_value: HandleValue = INVALID_HANDLE;
        match arg1 {
            Some(h) => {
                handle_value = self.add_handle(k, h);
            },
            None => {},
        }
        proof {
            Kernel::lemma_objects_frame_trans(pre, k1, *k, self.spec_id());
            assert(k.kind_of(thread.spec_id()) == pre.kind_of(thread.spec_id()));
            assert(thread.valid(*k));
        }
        let ghost k2 = *k;
        thread.set_first_thread(k);
        proof {
            assert(k.kind_of(self.spec_id()) == k2.kind_of(self.spec_id()));
            assert(self.valid(*k));
        }
        proof {
            assert(k.kind_of(thread.spec_id()) == k2.kind_of(thread.spec_id()));
            assert(thread.valid(*k));
        }
        let ghost k3 = *k;
        let started = thread.start(k, entry, stack, handle_value as usize, arg2);
        match started {
            Ok(ct) => {
                proof {
                    Kernel::lemma_objects_frame_trans(k2, k3, *k, thread.spec_id());
                    Kernel::lemma_objects_frame_widen(pre, k2, self.spec_id(), thread.spec_id());
                    Kernel::lemma_objects_frame_widen(k2, *k, thread.spec_id(), self.spec_id());
                    Kernel::lemma_objects_frame2_trans(
                        pre,
                        k2,
                        *k,
                        self.spec_id(),
                        thread.spec_id(),
                    );
                    assert(k.proc_data(self.spec_id()) == k2.proc_data(self.spec_id()));
                    if arg1 is Some {
                        let n32: u32 = pre.proc_handles(self.spec_id()).len() as u32;
                        assert(((n32 << 2u32) | 3u32) as usize as u64 == ((n32 << 2u32)
                            | 3u32) as u64) by (bit_vector);
                    } else {
                        assert(handle_value as usize as u64 == 0);
                    }
                }
                Ok(ct)
            },
            Err(err) => {
                proof {
                    assert(*k == k3);
                }
                if handle_value != INVALID_HANDLE {
                    proof {
                        assert(arg1 is Some);
                        let n32: u32 = pre.proc_handles(self.spec_id()).len() as u32;
                        assert(((n32 << 2u32) | 3u32) != 0u32 && ((n32 << 2u32) | 3u32) & 3u32
                            == 3u32 && ((n32 << 2u32) | 3u32) >> 2u32 == n32) by (bit_vector)
                            requires
                                n32 < 0x4000_0000u32,
                        ;
                        assert(k.proc_data(self.spec_id()) == k2.proc_data(self.spec_id()));
                        assert(handle_lookup(*k, self.spec_id(), handle_value) == Some(
                            arg1->Some_0,
                        ));
                    }
                    let ghost k4 = *k;
                    let got = self.remove_handle(k, handle_value);
                    proof {
                        Kernel::lemma_objects_frame_widen(
                            pre,
                            k2,
                            self.spec_id(),
                            thread.spec_id(),
                        );
                        Kernel::lemma_objects_frame_widen(
                            k2,
                            k4,
                            thread.spec_id(),
                            self.spec_id(),
                        );
                        Kernel::lemma_objects_frame2_trans(
                            pre,
                            k2,
                            k4,
                            self.spec_id(),
                            thread.spec_id(),
                        );
                        Kernel::lemma_objects_frame_widen(
                            k4,
                            *k,
                            self.spec_id(),
                            thread.spec_id(),
                        );
                        Kernel::lemma_objects_frame2_trans(
                            pre,
                            k4,
                            *k,
                            self.spec_id(),
                            thread.spec_id(),
                        );
                        assert(k.kind_of(thread.spec_id()) == k4.kind_of(thread.spec_id()));
                        assert(k.thread_data(thread.spec_id()) == k4.thread_data(
                            thread.spec_id(),
                        ));
                    }
                } else {
                    proof {
                        assert(arg1 is None);
                        Kernel::lemma_objects_frame_widen(
                            pre,
                            k2,
                            self.spec_id(),
                            thread.spec_id(),
                        );
                        Kernel::lemma_objects_frame_widen(
                            k2,
                            *k,
                            thread.spec_id(),
                            self.spec_id(),
                        );
                        Kernel::lemma_objects_frame2_trans(
                            pre,
                            k2,
                            *k,
                            self.spec_id(),
                            thread.spec_id(),
                        );
                    }
                }
                Err(err)
            },
        }
    }
}

/// The return code set when a task is killed through the kill operation.
pub const TASK_RETCODE_SYSCALL_KILL: i64 = -1028;


/// What one exit call does to a process status: the first exit fixes the
/// code; any exit after that changes nothing.
pub open spec fn status_after_exit(s: Status, code: i64) -> Status {
    if s is Exited {
        s
    } else {
        Status::Exited(code)
    }
}

/// Exit is idempotent: exiting twice leaves the status at the first exit
/// code, whatever code the second exit carries.
pub proof fn lemma_exit_idempotent(s: Status, first: i64, second: i64)
    ensures
        status_after_exit(status_after_exit(s, first), second) == status_after_exit(s, first),
{
}


} // verus!
