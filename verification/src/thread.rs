//! Threads: logical execution contexts with a suspend/resume counter and an
//! exclusively owned register-context token.

use vstd::prelude::*;
use crate::error::ZxError;
use crate::error::ZxResult;
use crate::object::KoID;
use crate::object::Kernel;
use crate::object::ObjectBody;
use crate::process::Process;
use crate::process::ProcessData;
use crate::process::Status;

verus! {

/// The externally visible state of a thread.
///
/// `Suspended` is derived, never stored: the stored state keeps what the
/// thread was doing, and the suspend counter plus context ownership decide
/// whether it currently reports as suspended.
#[derive(Debug, Clone, Copy, PartialEq, Eq, Structural)]
pub enum ThreadState {
    /// Created but never started.
    New,
    /// Running user code.
    Running,
    /// Stopped by a suspend request.
    Suspended,
    /// In a syscall or handling an exception.
    Blocked,
    /// Being terminated, not yet stopped.
    Dying,
    /// Stopped for good.
    Dead,
    /// Stopped in an exception.
    BlockedException,
    /// Stopped sleeping.
    BlockedSleeping,
    /// Stopped in a futex wait.
    BlockedFutex,
    /// Stopped in a port wait.
    BlockedPort,
    /// Stopped in a channel call.
    BlockedChannel,
    /// Stopped waiting on one object.
    BlockedWaitOne,
    /// Stopped waiting on many objects.
    BlockedWaitMany,
    /// Stopped waiting for an interrupt.
    BlockedInterrupt,
    /// Stopped in the pager.
    BlockedPager,
}

impl ThreadState {
    /// The numeric code of this state, as reported in thread information.
    pub open spec fn spec_code(self) -> u32 {
        match self {
            ThreadState::New => 0,
            ThreadState::Running => 1,
            ThreadState::Suspended => 2,
            ThreadState::Blocked => 3,
            ThreadState::Dying => 4,
            ThreadState::Dead => 5,
            ThreadState::BlockedException => 0x103,
            ThreadState::BlockedSleeping => 0x203,
            ThreadState::BlockedFutex => 0x303,
            ThreadState::BlockedPort => 0x403,
            ThreadState::BlockedChannel => 0x503,
            ThreadState::BlockedWaitOne => 0x603,
            ThreadState::BlockedWaitMany => 0x703,
            ThreadState::BlockedInterrupt => 0x803,
            ThreadState::BlockedPager => 0x903,
        }
    }

    /// The numeric code of this state, as reported in thread information.
    pub fn code(self) -> (r: u32)
        ensures
            r == self.spec_code(),
    {
        match self {
            ThreadState::New => 0,
            ThreadState::Running => 1,
            ThreadState::Suspended => 2,
            ThreadState::Blocked => 3,
            ThreadState::Dying => 4,
            ThreadState::Dead => 5,
            ThreadState::BlockedException => 0x103,
            ThreadState::BlockedSleeping => 0x203,
            ThreadState::BlockedFutex => 0x303,
            ThreadState::BlockedPort => 0x403,
            ThreadState::BlockedChannel => 0x503,
            ThreadState::BlockedWaitOne => 0x603,
            ThreadState::BlockedWaitMany => 0x703,
            ThreadState::BlockedInterrupt => 0x803,
            ThreadState::BlockedPager => 0x903,
        }
    }
}

/// Thread flags.
#[derive(Debug, Clone, Copy, PartialEq, Eq, Structural)]
pub struct ThreadFlag {
    /// The raw flag bits.
    pub bits: u64,
}

/// The flag bit set while the thread holds a virtual CPU.
pub const THREAD_FLAG_VCPU: u64 = 1u64 << 3;

impl ThreadFlag {
    /// The empty flag set.
    pub fn empty() -> (r: ThreadFlag)
        ensures
            r.bits == 0,
    {
        ThreadFlag { bits: 0 }
    }

    /// Whether every flag of `other` is also set in `self`.
    pub fn contains(&self, other: ThreadFlag) -> (r: bool)
        ensures
            r == (self.bits & other.bits == other.bits),
    {
        self.bits & other.bits == other.bits
    }
}

/// The general registers of a stopped thread, as installed by `start` and
/// traded back and forth with the runner.
#[derive(Debug, Clone, Copy, PartialEq, Eq, Structural, Default)]
pub struct GeneralRegs {
    /// Accumulator.
    pub rax: u64,
    /// Base.
    pub rbx: u64,
    /// Counter.
    pub rcx: u64,
    /// Data.
    pub rdx: u64,
    /// Source index; second call argument.
    pub rsi: u64,
    /// Destination index; first call argument.
    pub rdi: u64,
    /// Frame base.
    pub rbp: u64,
    /// Stack pointer.
    pub rsp: u64,
    /// General register 8.
    pub r8: u64,
    /// General register 9.
    pub r9: u64,
    /// General register 10.
    pub r10: u64,
    /// General register 11.
    pub r11: u64,
    /// General register 12.
    pub r12: u64,
    /// General register 13.
    pub r13: u64,
    /// General register 14.
    pub r14: u64,
    /// General register 15.
    pub r15: u64,
    /// Instruction pointer; the entry address.
    pub rip: u64,
    /// Flags register.
    pub rflags: u64,
    /// Thread-local storage base.
    pub fsbase: u64,
    /// Auxiliary thread-local storage base.
    pub gsbase: u64,
}

/// The register context a thread owns while it is not being run.
#[derive(Debug, Clone, Copy, PartialEq, Eq, Structural, Default)]
pub struct UserContext {
    /// The general registers.
    pub general: GeneralRegs,
    /// The trap number of the last entry to the kernel.
    pub trap_num: u64,
    /// The error code of the last entry to the kernel.
    pub error_code: u64,
}

/// The state of one thread.
pub struct ThreadData {
    /// The owning process.
    pub proc: KoID,
    /// The stored state; never `Suspended`, which is derived.
    pub state: ThreadState,
    /// How many suspend requests are outstanding.
    pub suspend_count: u64,
    /// The register context; `None` exactly while a runner holds it.
    pub context: Option<UserContext>,
    /// Whether a waker is registered waiting for resume.
    pub waker: bool,
    /// Whether this is the first thread of its process.
    pub first_thread: bool,
    /// Whether the thread was killed rather than exiting.
    pub killed: bool,
    /// Accumulated run time, in nanoseconds.
    pub time: u64,
    /// The thread flags.
    pub flags: ThreadFlag,
}

impl Kernel {
    /// The state of thread `id`.
    pub open spec fn thread_data(self, id: KoID) -> ThreadData {
        match self.body_of(id) {
            ObjectBody::Thread(t) => t,
            _ => arbitrary(),
        }
    }

    /// The owning process of thread `id`.
    pub open spec fn thread_proc(self, id: KoID) -> KoID {
        self.thread_data(id).proc
    }

    /// The derived, externally visible state of thread `id`: `Suspended`
    /// where a suspend is outstanding, the thread still holds its context,
    /// and the stored state does not override it.
    pub open spec fn thread_state_of(self, id: KoID) -> ThreadState {
        Self::derived_state(self.thread_data(id))
    }

    /// The derived state of a thread's raw data.
    pub open spec fn derived_state(t: ThreadData) -> ThreadState {
        if t.suspend_count == 0 || t.context is None || t.state == ThreadState::BlockedException
            || t.state == ThreadState::Dying || t.state == ThreadState::Dead {
            t.state
        } else {
            ThreadState::Suspended
        }
    }

    /// What stopping a thread does to its raw data: a dead thread is left
    /// alone; a kill is recorded on any other; a thread not yet dying is
    /// made dying and its pending waker is woken.
    pub open spec fn thread_stop_effect(t: ThreadData, killed: bool) -> ThreadData {
        if t.state == ThreadState::Dead {
            t
        } else if t.state == ThreadState::Dying {
            ThreadData { killed: t.killed || killed, ..t }
        } else {
            ThreadData {
                killed: t.killed || killed,
                state: ThreadState::Dying,
                waker: false,
                ..t
            }
        }
    }

    /// Stop thread `t`: make it dying (idempotently) and wake any pending
    /// waker, recording whether this was a kill.
    pub(crate) fn thread_stop(&mut self, t: KoID, killed: bool)
        requires
            old(self).wf(),
            old(self).is_thread(t),
        ensures
            final(self).wf(),
            Kernel::cascade_frame(*old(self), *final(self)),
            Kernel::objects_frame(*old(self), *final(self), t),
            final(self).thread_data(t) == Kernel::thread_stop_effect(
                old(self).thread_data(t),
                killed,
            ),
            final(self).obj_of(t).base == old(self).obj_of(t).base,
    {
        let i = self.index_of_obj(t);
        proof {
            self.lemma_idx_of(t);
            assert(self.body_of(t) == self.objs()[i as int].body);
        }
        let ghost pre = *self;
        let e = &mut self.objects[i];
        match &mut e.body {
            ObjectBody::Thread(d) => {
                if !matches!(d.state, ThreadState::Dead) {
                    if killed {
                        d.killed = true;
                    }
                    if !matches!(d.state, ThreadState::Dying) {
                        d.state = ThreadState::Dying;
                        d.waker = false;
                    }
                }
            },
            _ => {
                proof {
                    assert(false);
                }
            },
        }
        proof {
            Kernel::lemma_update_frame(pre, *self, t);
            assert(Kernel::local_change_ok(pre, *self, t));
            Kernel::lemma_local_change_preserves(pre, *self, t);
            Kernel::lemma_cascade_frame_local(pre, *self, t);
        }
    }
}


impl Kernel {
    /// Detach thread `tid` from process `p`'s thread list; where that was
    /// the last thread, the process terminates.
    pub(crate) fn proc_remove_thread(&mut self, p: KoID, tid: KoID)
        requires
            old(self).wf(),
            old(self).is_process(p),
        ensures
            final(self).wf(),
            Kernel::cascade_frame(*old(self), *final(self)),
            !final(self).proc_threads(p).contains(tid),
            (forall|x: KoID| old(self).proc_threads(p).contains(x) ==> x == tid)
                ==> final(self).proc_exited(p),
    {
        let i = self.index_of_obj(p);
        proof {
            self.lemma_idx_of(p);
            assert(self.body_of(p) == self.objs()[i as int].body);
        }
        let kept = match &self.objects[i].body {
            ObjectBody::Process(d) => crate::job::remove_all(&d.threads, tid),
            _ => unreached(),
        };
        let ghost pre = *self;
        let e = &mut self.objects[i];
        match &mut e.body {
            ObjectBody::Process(d) => d.threads = kept,
            _ => {
                proof {
                    assert(false);
                }
            },
        }
        proof {
            Kernel::lemma_update_frame(pre, *self, p);
            assert(Kernel::local_change_ok(pre, *self, p));
            Kernel::lemma_local_change_preserves(pre, *self, p);
            Kernel::lemma_cascade_frame_local(pre, *self, p);
        }
        let ghost mid = *self;
        let left = match &self.objects[i].body {
            ObjectBody::Process(d) => d.threads.len(),
            _ => unreached(),
        };
        if left == 0 {
            self.process_terminate(p);
            proof {
                Kernel::lemma_cascade_frame_trans(pre, mid, *self);
                assert(!self.proc_threads(p).contains(tid));
            }
        } else {
            proof {
                if forall|x: KoID| pre.proc_threads(p).contains(x) ==> x == tid {
                    let y = mid.proc_threads(p)[0];
                    assert(mid.proc_threads(p).contains(y));
                    assert(pre.proc_threads(p).contains(y));
                    assert(y == tid);
                    assert(false);
                }
            }
        }
    }
}

/// A reference to a thread: a logical execution context.
#[derive(Debug, Clone, Copy, PartialEq, Eq, Structural)]
pub struct Thread {
    /// The id of the thread this reference points at.
    pub koid: KoID,
}

impl Thread {
    /// The id this reference points at.
    pub open spec fn spec_id(self) -> KoID {
        self.koid
    }

    /// Whether this reference points at a thread of `k`.
    pub open spec fn valid(self, k: Kernel) -> bool {
        k.is_thread(self.koid)
    }

    /// Create a new thread in `proc`, named `name`. The thread starts with
    /// a zeroed register context that it owns. Fails with `BAD_STATE` once
    /// the process has exited.
    pub fn create(k: &mut Kernel, proc: &Process, name: &str) -> (r: ZxResult<Thread>)
        requires
            old(k).wf(),
            proc.valid(*old(k)),
            old(k).spec_next_koid() < KoID::MAX,
        ensures
            final(k).wf(),
            match r {
                Result::Err(e) => e == ZxError::BAD_STATE && old(k).proc_exited(proc.spec_id())
                    && *final(k) == *old(k),
                Result::Ok(t) => {
                    &&& !old(k).proc_exited(proc.spec_id())
                    &&& Kernel::grows_by_touching(*old(k), *final(k), t.spec_id(), proc.spec_id())
                    &&& t.valid(*final(k))
                    &&& final(k).thread_data(t.spec_id()) == (ThreadData {
                        proc: proc.spec_id(),
                        state: ThreadState::New,
                        suspend_count: 0,
                        context: Some(UserContext::spec_zeroed()),
                        waker: false,
                        first_thread: false,
                        killed: false,
                        time: 0,
                        flags: ThreadFlag { bits: 0 },
                    })
                    &&& final(k).name_of(t.spec_id()) == name@
                    &&& final(k).proc_threads(proc.spec_id()) == old(k).proc_threads(
                        proc.spec_id(),
                    ).push(t.spec_id())
                    &&& final(k).proc_data(proc.spec_id()) == (ProcessData {
                        threads: final(k).proc_data(proc.spec_id()).threads,
                        ..old(k).proc_data(proc.spec_id())
                    })
                    &&& final(k).obj_of(proc.spec_id()).base == old(k).obj_of(proc.spec_id()).base
                },
            },
    {
        let pi = k.index_of_obj(proc.koid);
        proof {
            k.lemma_idx_of(proc.koid);
            assert(k.body_of(proc.spec_id()) == k.objs()[pi as int].body);
        }
        let exited = match &k.objects[pi].body {
            ObjectBody::Process(d) => matches!(d.status, Status::Exited(_)),
            _ => unreached(),
        };
        if exited {
            return Err(ZxError::BAD_STATE);
        }
        let ghost pre = *k;
        let tid = k.insert_object(
            ObjectBody::Thread(
                ThreadData {
                    proc: proc.koid,
                    state: ThreadState::New,
                    suspend_count: 0,
                    context: Some(UserContext::zeroed()),
                    waker: false,
                    first_thread: false,
                    killed: false,
                    time: 0,
                    flags: ThreadFlag { bits: 0 },
                },
            ),
            name,
        );
        proof {
            pre.lemma_id_bound(proc.koid);
            Kernel::lemma_insert_preserves(pre, *k, tid);
        }
        let ghost mid = *k;
        let pi = k.index_of_obj(proc.koid);
        proof {
            k.lemma_idx_of(proc.koid);
            assert(k.obj_of(proc.spec_id()) == pre.obj_of(proc.spec_id()));
            assert(k.is_process(proc.spec_id()));
            assert(k.body_of(proc.spec_id()) == k.objs()[pi as int].body);
            assert(k.body_of(proc.spec_id()) is Process);
        }
        let e = &mut k.objects[pi];
        match &mut e.body {
            ObjectBody::Process(d) => d.threads.push(tid),
            _ => {
                proof {
                    assert(false);
                }
            },
        }
        proof {
            Kernel::lemma_update_frame(mid, *k, proc.koid);
            Kernel::lemma_push_thread_preserves(mid, *k, proc.koid, tid);
            assert forall|oid: KoID| pre.has_obj(oid) implies #[trigger] k.has_obj(oid) by {
                assert(mid.has_obj(oid));
            }
            assert forall|oid: KoID| #[trigger] k.has_obj(oid) implies oid == tid || pre.has_obj(
                oid,
            ) by {
                assert(mid.has_obj(oid));
            }
            assert forall|oid: KoID|
                pre.has_obj(oid) && oid != proc.spec_id() implies #[trigger] k.obj_of(oid)
                == pre.obj_of(oid) by {
                assert(mid.has_obj(oid));
                assert(k.obj_of(oid) == mid.obj_of(oid));
                assert(mid.obj_of(oid) == pre.obj_of(oid));
            }
        }
        Ok(Thread { koid: tid })
    }

    /// The owning process.
    pub fn proc(&self, k: &Kernel) -> (r: Process)
        requires
            k.wf(),
            self.valid(*k),
        ensures
            r.spec_id() == k.thread_proc(self.spec_id()),
            r.valid(*k),
    {
        let i = k.index_of_obj(self.koid);
        proof {
            k.lemma_idx_of(self.koid);
            assert(k.body_of(self.spec_id()) == k.objs()[i as int].body);
        }
        match &k.objects[i].body {
            ObjectBody::Thread(d) => Process { koid: d.proc },
            _ => unreached(),
        }
    }

    /// Start execution: install entry, stack and the two argument
    /// registers, flip the state to `Running`, and hand out the exclusive
    /// run token for this thread. Exactly-once: fails with `BAD_STATE`
    /// unless the thread has never started and still owns its context.
    pub fn start(&self, k: &mut Kernel, entry: usize, stack: usize, arg1: usize, arg2: usize) -> (r:
        ZxResult<CurrentThread>)
        requires
            old(k).wf(),
            self.valid(*old(k)),
        ensures
            final(k).wf(),
            ({
                let d = old(k).thread_data(self.spec_id());
                if d.state != ThreadState::New || d.context is None {
                    r matches Err(e) && e == ZxError::BAD_STATE && *final(k) == *old(k)
                } else {
                    let c = d.context->Some_0;
                    &&& r matches Ok(ct) && ct.thread == *self
                    &&& Kernel::objects_frame(*old(k), *final(k), self.spec_id())
                    &&& final(k).obj_of(self.spec_id()).base == old(k).obj_of(self.spec_id()).base
                    &&& final(k).thread_data(self.spec_id()) == (ThreadData {
                        state: ThreadState::Running,
                        context: Some(
                            UserContext {
                                general: GeneralRegs {
                                    rip: entry as u64,
                                    rsp: stack as u64,
                                    rdi: arg1 as u64,
                                    rsi: arg2 as u64,
                                    rflags: c.general.rflags | 0x3202,
                                    ..c.general
                                },
                                ..c
                            },
                        ),
                        ..d
                    })
                }
            }),
            final(k).kind_of(self.spec_id()) == old(k).kind_of(self.spec_id()),
    {
        let i = k.index_of_obj(self.koid);
        proof {
            k.lemma_idx_of(self.koid);
            assert(k.body_of(self.spec_id()) == k.objs()[i as int].body);
        }
        let startable = match &k.objects[i].body {
            ObjectBody::Thread(d) => matches!(d.state, ThreadState::New) && d.context.is_some(),
            _ => unreached(),
        };
        if !startable {
            return Err(ZxError::BAD_STATE);
        }
        let ghost pre = *k;
        let e = &mut k.objects[i];
        match &mut e.body {
            ObjectBody::Thread(d) => {
                match &mut d.context {
                    Some(c) => {
                        c.general.rip = entry as u64;
                        c.general.rsp = stack as u64;
                        c.general.rdi = arg1 as u64;
                        c.general.rsi = arg2 as u64;
                        c.general.rflags = c.general.rflags | 0x3202;
                    },
                    None => {
                        proof {
                            assert(false);
                        }
                    },
                }
                d.state = ThreadState::Running;
            },
            _ => {
                proof {
                    assert(false);
                }
            },
        }
        proof {
            Kernel::lemma_update_frame(pre, *k, self.koid);
            assert(Kernel::local_change_ok(pre, *k, self.koid));
            Kernel::lemma_local_change_preserves(pre, *k, self.koid);
        }
        Ok(CurrentThread { thread: Thread { koid: self.koid } })
    }

    /// The thread's externally visible state.
    pub fn state(&self, k: &Kernel) -> (r: ThreadState)
        requires
            k.wf(),
            self.valid(*k),
        ensures
            r == k.thread_state_of(self.spec_id()),
    {
        let i = k.index_of_obj(self.koid);
        proof {
            k.lemma_idx_of(self.koid);
            assert(k.body_of(self.spec_id()) == k.objs()[i as int].body);
        }
        match &k.objects[i].body {
            ObjectBody::Thread(d) => {
                if d.suspend_count == 0 || d.context.is_none() || matches!(
                    d.state,
                    ThreadState::BlockedException,
                ) || matches!(d.state, ThreadState::Dying) || matches!(d.state, ThreadState::Dead) {
                    d.state
                } else {
                    ThreadState::Suspended
                }
            },
            _ => unreached(),
        }
    }

    /// The thread's information record: its state code.
    pub fn get_thread_info(&self, k: &Kernel) -> (r: ThreadInfo)
        requires
            k.wf(),
            self.valid(*k),
        ensures
            r.state == k.thread_state_of(self.spec_id()).spec_code(),
    {
        ThreadInfo { state: self.state(k).code() }
    }

    /// Kill the thread: make it dying, recording the kill.
    pub fn kill(&self, k: &mut Kernel)
        requires
            old(k).wf(),
            self.valid(*old(k)),
        ensures
            final(k).wf(),
            Kernel::objects_frame(*old(k), *final(k), self.spec_id()),
            final(k).thread_data(self.spec_id()) == Kernel::thread_stop_effect(
                old(k).thread_data(self.spec_id()),
                true,
            ),
    {
        k.thread_stop(self.koid, true);
    }

    /// Ask the thread to suspend: bump the suspend counter. The thread
    /// reports `Suspended` while the counter is positive, it still owns
    /// its context, and its stored state does not override it.
    pub fn suspend(&self, k: &mut Kernel)
        requires
            old(k).wf(),
            self.valid(*old(k)),
            old(k).thread_data(self.spec_id()).suspend_count < u64::MAX,
        ensures
            final(k).wf(),
            Kernel::objects_frame(*old(k), *final(k), self.spec_id()),
            final(k).obj_of(self.spec_id()).base == old(k).obj_of(self.spec_id()).base,
            final(k).thread_data(self.spec_id()) == (ThreadData {
                suspend_count: (old(k).thread_data(self.spec_id()).suspend_count + 1) as u64,
                ..old(k).thread_data(self.spec_id())
            }),
            final(k).kind_of(self.spec_id()) == old(k).kind_of(self.spec_id()),
    {
        let i = k.index_of_obj(self.koid);
        proof {
            k.lemma_idx_of(self.koid);
            assert(k.body_of(self.spec_id()) == k.objs()[i as int].body);
        }
        let ghost pre = *k;
        let e = &mut k.objects[i];
        match &mut e.body {
            ObjectBody::Thread(d) => d.suspend_count = d.suspend_count + 1,
            _ => {
                proof {
                    assert(false);
                }
            },
        }
        proof {
            Kernel::lemma_update_frame(pre, *k, self.koid);
            assert(Kernel::local_change_ok(pre, *k, self.koid));
            Kernel::lemma_local_change_preserves(pre, *k, self.koid);
        }
    }

    /// Undo one suspend request. Calling this with no suspend outstanding
    /// is a broken caller contract, not a runtime condition, so it is
    /// excluded rather than reported. When the counter returns to zero any
    /// pending waker is woken.
    pub fn resume(&self, k: &mut Kernel)
        requires
            old(k).wf(),
            self.valid(*old(k)),
            old(k).thread_data(self.spec_id()).suspend_count > 0,
        ensures
            final(k).wf(),
            Kernel::objects_frame(*old(k), *final(k), self.spec_id()),
            final(k).obj_of(self.spec_id()).base == old(k).obj_of(self.spec_id()).base,
            final(k).thread_data(self.spec_id()) == (ThreadData {
                suspend_count: (old(k).thread_data(self.spec_id()).suspend_count - 1) as u64,
                waker: if old(k).thread_data(self.spec_id()).suspend_count == 1 {
                    false
                } else {
                    old(k).thread_data(self.spec_id()).waker
                },
                ..old(k).thread_data(self.spec_id())
            }),
            final(k).kind_of(self.spec_id()) == old(k).kind_of(self.spec_id()),
    {
        let i = k.index_of_obj(self.koid);
        proof {
            k.lemma_idx_of(self.koid);
            assert(k.body_of(self.spec_id()) == k.objs()[i as int].body);
        }
        let ghost pre = *k;
        let e = &mut k.objects[i];
        match &mut e.body {
            ObjectBody::Thread(d) => {
                d.suspend_count = d.suspend_count - 1;
                if d.suspend_count == 0 {
                    d.waker = false;
                }
            },
            _ => {
                proof {
                    assert(false);
                }
            },
        }
        proof {
            Kernel::lemma_update_frame(pre, *k, self.koid);
            assert(Kernel::local_change_ok(pre, *k, self.koid));
            Kernel::lemma_local_change_preserves(pre, *k, self.koid);
        }
    }

    /// Add to the time this thread has run.
    pub fn time_add(&self, k: &mut Kernel, time: u64)
        requires
            old(k).wf(),
            self.valid(*old(k)),
            old(k).thread_data(self.spec_id()).time + time <= u64::MAX,
        ensures
            final(k).wf(),
            Kernel::objects_frame(*old(k), *final(k), self.spec_id()),
            final(k).thread_data(self.spec_id()) == (ThreadData {
                time: (old(k).thread_data(self.spec_id()).time + time) as u64,
                ..old(k).thread_data(self.spec_id())
            }),
            final(k).kind_of(self.spec_id()) == old(k).kind_of(self.spec_id()),
    {
        let i = k.index_of_obj(self.koid);
        proof {
            k.lemma_idx_of(self.koid);
            assert(k.body_of(self.spec_id()) == k.objs()[i as int].body);
        }
        let ghost pre = *k;
        let e = &mut k.objects[i];
        match &mut e.body {
            ObjectBody::Thread(d) => d.time = d.time + time,
            _ => {
                proof {
                    assert(false);
                }
            },
        }
        proof {
            Kernel::lemma_update_frame(pre, *k, self.koid);
            assert(Kernel::local_change_ok(pre, *k, self.koid));
            Kernel::lemma_local_change_preserves(pre, *k, self.koid);
        }
    }

    /// The time this thread has run.
    pub fn get_time(&self, k: &Kernel) -> (r: u64)
        requires
            k.wf(),
            self.valid(*k),
        ensures
            r == k.thread_data(self.spec_id()).time,
    {
        let i = k.index_of_obj(self.koid);
        proof {
            k.lemma_idx_of(self.koid);
            assert(k.body_of(self.spec_id()) == k.objs()[i as int].body);
        }
        match &k.objects[i].body {
            ObjectBody::Thread(d) => d.time,
            _ => unreached(),
        }
    }

    /// Whether this thread is the first thread of its process.
    pub fn is_first_thread(&self, k: &Kernel) -> (r: bool)
        requires
            k.wf(),
            self.valid(*k),
        ensures
            r == k.thread_data(self.spec_id()).first_thread,
    {
        let i = k.index_of_obj(self.koid);
        proof {
            k.lemma_idx_of(self.koid);
            assert(k.body_of(self.spec_id()) == k.objs()[i as int].body);
        }
        match &k.objects[i].body {
            ObjectBody::Thread(d) => d.first_thread,
            _ => unreached(),
        }
    }

    /// The thread's flags.
    pub fn flags(&self, k: &Kernel) -> (r: ThreadFlag)
        requires
            k.wf(),
            self.valid(*k),
        ensures
            r == k.thread_data(self.spec_id()).flags,
    {
        let i = k.index_of_obj(self.koid);
        proof {
            k.lemma_idx_of(self.koid);
            assert(k.body_of(self.spec_id()) == k.objs()[i as int].body);
        }
        match &k.objects[i].body {
            ObjectBody::Thread(d) => d.flags,
            _ => unreached(),
        }
    }

    /// Mark this thread as the first thread of its process.
    pub(crate) fn set_first_thread(&self, k: &mut Kernel)
        requires
            old(k).wf(),
            self.valid(*old(k)),
        ensures
            final(k).wf(),
            Kernel::objects_frame(*old(k), *final(k), self.spec_id()),
            final(k).obj_of(self.spec_id()).base == old(k).obj_of(self.spec_id()).base,
            final(k).thread_data(self.spec_id()) == (ThreadData {
                first_thread: true,
                ..old(k).thread_data(self.spec_id())
            }),
            final(k).kind_of(self.spec_id()) == old(k).kind_of(self.spec_id()),
    {
        let i = k.index_of_obj(self.koid);
        proof {
            k.lemma_idx_of(self.koid);
            assert(k.body_of(self.spec_id()) == k.objs()[i as int].body);
        }
        let ghost pre = *k;
        let e = &mut k.objects[i];
        match &mut e.body {
            ObjectBody::Thread(d) => d.first_thread = true,
            _ => {
                proof {
                    assert(false);
                }
            },
        }
        proof {
            Kernel::lemma_update_frame(pre, *k, self.koid);
            assert(Kernel::local_change_ok(pre, *k, self.koid));
            Kernel::lemma_local_change_preserves(pre, *k, self.koid);
        }
    }

    /// The object's id.
    pub fn id(&self) -> (r: KoID)
        ensures
            r == self.spec_id(),
    {
        self.koid
    }

    /// The tag naming this object's kind.
    pub fn kind_name(&self) -> (r: &'static str)
        ensures
            r@ == "Thread"@,
    {
        "Thread"
    }

    /// The object's current name.
    pub fn name(&self, k: &Kernel) -> (r: String)
        requires
            k.wf(),
            self.valid(*k),
        ensures
            r@ == k.name_of(self.spec_id()),
    {
        k.object_name(self.koid)
    }

    /// Set the object's name; visible through any handle to it.
    pub fn set_name(&self, k: &mut Kernel, name: &str)
        requires
            old(k).wf(),
            self.valid(*old(k)),
        ensures
            final(k).wf(),
            Kernel::objects_frame(*old(k), *final(k), self.spec_id()),
            final(k).name_of(self.spec_id()) == name@,
            final(k).body_of(self.spec_id()) == old(k).body_of(self.spec_id()),
    {
        k.set_object_name(self.koid, name);
    }

    /// The id of the owning process.
    pub fn related_koid(&self, k: &Kernel) -> (r: KoID)
        requires
            k.wf(),
            self.valid(*k),
        ensures
            r == k.thread_proc(self.spec_id()),
    {
        self.proc(k).id()
    }
}

impl UserContext {
    /// The all-zero register context.
    pub open spec fn spec_zeroed() -> UserContext {
        UserContext {
            general: GeneralRegs {
                rax: 0,
                rbx: 0,
                rcx: 0,
                rdx: 0,
                rsi: 0,
                rdi: 0,
                rbp: 0,
                rsp: 0,
                r8: 0,
                r9: 0,
                r10: 0,
                r11: 0,
                r12: 0,
                r13: 0,
                r14: 0,
                r15: 0,
                rip: 0,
                rflags: 0,
                fsbase: 0,
                gsbase: 0,
            },
            trap_num: 0,
            error_code: 0,
        }
    }

    /// The all-zero register context.
    pub fn zeroed() -> (r: UserContext)
        ensures
            r == UserContext::spec_zeroed(),
    {
        UserContext {
            general: GeneralRegs {
                rax: 0,
                rbx: 0,
                rcx: 0,
                rdx: 0,
                rsi: 0,
                rdi: 0,
                rbp: 0,
                rsp: 0,
                r8: 0,
                r9: 0,
                r10: 0,
                r11: 0,
                r12: 0,
                r13: 0,
                r14: 0,
                r15: 0,
                rip: 0,
                rflags: 0,
                fsbase: 0,
                gsbase: 0,
            },
            trap_num: 0,
            error_code: 0,
        }
    }
}

/// The thread information record.
#[derive(Debug, Clone, Copy, PartialEq, Eq, Structural)]
pub struct ThreadInfo {
    /// The numeric code of the thread's externally visible state.
    pub state: u32,
}

/// The exclusive run token of a started thread.
///
/// Exactly one exists per started thread; whoever holds it may take the
/// thread's register context, run it, and hand it back. Releasing the
/// token (`finalize`) is what finally makes the thread dead and detaches
/// it from its process, which may cascade into process termination.
#[derive(Debug)]
pub struct CurrentThread {
    /// The thread this token belongs to.
    pub thread: Thread,
}

impl CurrentThread {
    /// Whether this token belongs to a thread of `k`.
    pub open spec fn valid(self, k: Kernel) -> bool {
        k.is_thread(self.thread.spec_id())
    }

    /// The id of the thread this token belongs to.
    pub open spec fn spec_id(self) -> KoID {
        self.thread.spec_id()
    }

    /// Exit the thread this token runs: make it dying without recording a
    /// kill. The thread terminates when the token is finalized.
    pub fn exit(&self, k: &mut Kernel)
        requires
            old(k).wf(),
            self.valid(*old(k)),
        ensures
            final(k).wf(),
            Kernel::objects_frame(*old(k), *final(k), self.spec_id()),
            final(k).thread_data(self.spec_id()) == Kernel::thread_stop_effect(
                old(k).thread_data(self.spec_id()),
                false,
            ),
    {
        k.thread_stop(self.thread.koid, false);
    }

    /// The single suspend point: where the thread does not currently
    /// report `Suspended`, take its context out and return it, to be run;
    /// otherwise register a waker and return nothing, to be polled again
    /// after a resume.
    pub fn wait_for_run(&self, k: &mut Kernel) -> (r: Option<UserContext>)
        requires
            old(k).wf(),
            self.valid(*old(k)),
            old(k).thread_data(self.spec_id()).context is Some,
        ensures
            final(k).wf(),
            Kernel::objects_frame(*old(k), *final(k), self.spec_id()),
            final(k).obj_of(self.spec_id()).base == old(k).obj_of(self.spec_id()).base,
            ({
                let d = old(k).thread_data(self.spec_id());
                if Kernel::derived_state(d) != ThreadState::Suspended {
                    &&& r == d.context
                    &&& final(k).thread_data(self.spec_id()) == (ThreadData { context: None, ..d })
                } else {
                    &&& r is None
                    &&& final(k).thread_data(self.spec_id()) == (ThreadData { waker: true, ..d })
                }
            }),
            final(k).kind_of(self.spec_id()) == old(k).kind_of(self.spec_id()),
    {
        let i = k.index_of_obj(self.thread.koid);
        proof {
            k.lemma_idx_of(self.thread.koid);
            assert(k.body_of(self.spec_id()) == k.objs()[i as int].body);
        }
        let suspended = matches!(self.thread.state(k), ThreadState::Suspended);
        let ghost pre = *k;
        let e = &mut k.objects[i];
        let mut r: Option<UserContext> = None;
        match &mut e.body {
            ObjectBody::Thread(d) => {
                if !suspended {
                    r = d.context.take();
                } else {
                    d.waker = true;
                }
            },
            _ => {
                proof {
                    assert(false);
                }
            },
        }
        proof {
            Kernel::lemma_update_frame(pre, *k, self.spec_id());
            assert(Kernel::local_change_ok(pre, *k, self.spec_id()));
            Kernel::lemma_local_change_preserves(pre, *k, self.spec_id());
        }
        r
    }

    /// The thread ends a run slice: hand its context back.
    pub fn end_running(&self, k: &mut Kernel, context: UserContext)
        requires
            old(k).wf(),
            self.valid(*old(k)),
        ensures
            final(k).wf(),
            Kernel::objects_frame(*old(k), *final(k), self.spec_id()),
            final(k).obj_of(self.spec_id()).base == old(k).obj_of(self.spec_id()).base,
            final(k).thread_data(self.spec_id()) == (ThreadData {
                context: Some(context),
                ..old(k).thread_data(self.spec_id())
            }),
            final(k).kind_of(self.spec_id()) == old(k).kind_of(self.spec_id()),
    {
        let i = k.index_of_obj(self.thread.koid);
        proof {
            k.lemma_idx_of(self.thread.koid);
            assert(k.body_of(self.spec_id()) == k.objs()[i as int].body);
        }
        let ghost pre = *k;
        let e = &mut k.objects[i];
        match &mut e.body {
            ObjectBody::Thread(d) => d.context = Some(context),
            _ => {
                proof {
                    assert(false);
                }
            },
        }
        proof {
            Kernel::lemma_update_frame(pre, *k, self.spec_id());
            assert(Kernel::local_change_ok(pre, *k, self.spec_id()));
            Kernel::lemma_local_change_preserves(pre, *k, self.spec_id());
        }
    }

    /// Release the run token: the thread becomes dead and is detached from
    /// its process; where it was the last thread, the process terminates.
    pub fn finalize(self, k: &mut Kernel)
        requires
            old(k).wf(),
            self.valid(*old(k)),
        ensures
            final(k).wf(),
            Kernel::cascade_frame(*old(k), *final(k)),
            final(k).thread_data(self.spec_id()).state == ThreadState::Dead,
            !final(k).proc_threads(old(k).thread_proc(self.spec_id())).contains(self.spec_id()),
            (forall|x: KoID|
                old(k).proc_threads(old(k).thread_proc(self.spec_id())).contains(x) ==> x
                    == self.spec_id()) ==> final(k).proc_exited(old(k).thread_proc(self.spec_id())),
    {
        let tid = self.thread.koid;
        let i = k.index_of_obj(tid);
        proof {
            k.lemma_idx_of(tid);
            assert(k.body_of(self.spec_id()) == k.objs()[i as int].body);
        }
        let ghost pre = *k;
        let mut p: KoID = 0;
        let e = &mut k.objects[i];
        match &mut e.body {
            ObjectBody::Thread(d) => {
                d.state = ThreadState::Dead;
                p = d.proc;
            },
            _ => {
                proof {
                    assert(false);
                }
            },
        }
        proof {
            Kernel::lemma_update_frame(pre, *k, tid);
            assert(Kernel::local_change_ok(pre, *k, tid));
            Kernel::lemma_local_change_preserves(pre, *k, tid);
            Kernel::lemma_cascade_frame_local(pre, *k, tid);
            assert(pre.is_process(pre.thread_proc(tid)));
            assert(k.is_process(p));
        }
        let ghost mid = *k;
        k.proc_remove_thread(p, tid);
        proof {
            Kernel::lemma_cascade_frame_trans(pre, mid, *k);
            assert(mid.is_thread(tid));
            assert(mid.thread_data(tid).state == ThreadState::Dead);
        }
    }
}



/// Which aspect of a thread's state a state read or write addresses.
#[derive(Debug, Clone, Copy, PartialEq, Eq, Structural)]
pub enum ThreadStateKind {
    /// The general registers.
    General,
    /// The floating-point registers.
    FloatPoint,
    /// The vector registers.
    Vector,
    /// The debug registers.
    Debug,
    /// The single-step flag.
    SingleStep,
    /// The fs segment base.
    FS,
    /// The gs segment base.
    GS,
}

/// The size, in bytes, of the serialized general registers.
pub const GENERAL_REGS_SIZE: usize = 160;

/// The little-endian bytes of one 64-bit register.
pub open spec fn le8(x: u64) -> Seq<u8> {
    seq![
        (x & 0xff) as u8,
        ((x >> 8u64) & 0xff) as u8,
        ((x >> 16u64) & 0xff) as u8,
        ((x >> 24u64) & 0xff) as u8,
        ((x >> 32u64) & 0xff) as u8,
        ((x >> 40u64) & 0xff) as u8,
        ((x >> 48u64) & 0xff) as u8,
        ((x >> 56u64) & 0xff) as u8,
    ]
}

/// The serialized form of the general registers: each register's
/// little-endian bytes, in declaration order.
pub open spec fn regs_bytes(g: GeneralRegs) -> Seq<u8> {
    le8(g.rax) + le8(g.rbx) + le8(g.rcx) + le8(g.rdx) + le8(g.rsi) + le8(g.rdi) + le8(g.rbp)
        + le8(g.rsp) + le8(g.r8) + le8(g.r9) + le8(g.r10) + le8(g.r11) + le8(g.r12) + le8(g.r13)
        + le8(g.r14) + le8(g.r15) + le8(g.rip) + le8(g.rflags) + le8(g.fsbase) + le8(g.gsbase)
}

/// The 64-bit register held by eight little-endian bytes.
pub open spec fn u64_of_le(s: Seq<u8>, off: int) -> u64 {
    (s[off] as u64) | ((s[off + 1] as u64) << 8u64) | ((s[off + 2] as u64) << 16u64) | ((s[off
        + 3] as u64) << 24u64) | ((s[off + 4] as u64) << 32u64) | ((s[off + 5] as u64) << 40u64)
        | ((s[off + 6] as u64) << 48u64) | ((s[off + 7] as u64) << 56u64)
}

/// The general registers held by a serialized buffer.
pub open spec fn regs_of_bytes(s: Seq<u8>) -> GeneralRegs {
    GeneralRegs {
        rax: u64_of_le(s, 0),
        rbx: u64_of_le(s, 8),
        rcx: u64_of_le(s, 16),
        rdx: u64_of_le(s, 24),
        rsi: u64_of_le(s, 32),
        rdi: u64_of_le(s, 40),
        rbp: u64_of_le(s, 48),
        rsp: u64_of_le(s, 56),
        r8: u64_of_le(s, 64),
        r9: u64_of_le(s, 72),
        r10: u64_of_le(s, 80),
        r11: u64_of_le(s, 88),
        r12: u64_of_le(s, 96),
        r13: u64_of_le(s, 104),
        r14: u64_of_le(s, 112),
        r15: u64_of_le(s, 120),
        rip: u64_of_le(s, 128),
        rflags: u64_of_le(s, 136),
        fsbase: u64_of_le(s, 144),
        gsbase: u64_of_le(s, 152),
    }
}

/// Append the little-endian bytes of `x` to `buf`.
fn push_le8(buf: &mut Vec<u8>, x: u64)
    requires
        old(buf)@.len() + 8 <= usize::MAX,
    ensures
        final(buf)@ == old(buf)@ + le8(x),
{
    buf.push((x & 0xff) as u8);
    buf.push(((x >> 8u64) & 0xff) as u8);
    buf.push(((x >> 16u64) & 0xff) as u8);
    buf.push(((x >> 24u64) & 0xff) as u8);
    buf.push(((x >> 32u64) & 0xff) as u8);
    buf.push(((x >> 40u64) & 0xff) as u8);
    buf.push(((x >> 48u64) & 0xff) as u8);
    buf.push(((x >> 56u64) & 0xff) as u8);
    proof {
        assert(buf@ =~= old(buf)@ + le8(x));
    }
}

/// Serialize the general registers.
fn general_regs_to_bytes(g: &GeneralRegs) -> (r: Vec<u8>)
    ensures
        r@ == regs_bytes(*g),
        r@.len() == GENERAL_REGS_SIZE,
{
    let mut out: Vec<u8> = Vec::new();
    push_le8(&mut out, g.rax);
    push_le8(&mut out, g.rbx);
    push_le8(&mut out, g.rcx);
    push_le8(&mut out, g.rdx);
    push_le8(&mut out, g.rsi);
    push_le8(&mut out, g.rdi);
    push_le8(&mut out, g.rbp);
    push_le8(&mut out, g.rsp);
    push_le8(&mut out, g.r8);
    push_le8(&mut out, g.r9);
    push_le8(&mut out, g.r10);
    push_le8(&mut out, g.r11);
    push_le8(&mut out, g.r12);
    push_le8(&mut out, g.r13);
    push_le8(&mut out, g.r14);
    push_le8(&mut out, g.r15);
    push_le8(&mut out, g.rip);
    push_le8(&mut out, g.rflags);
    push_le8(&mut out, g.fsbase);
    push_le8(&mut out, g.gsbase);
    proof {
        assert(out@ =~= regs_bytes(*g));
    }
    out
}

/// Read the 64-bit register at byte offset `off` of a serialized buffer.
fn read_le8(buf: &[u8], off: usize) -> (r: u64)
    requires
        off + 8 <= buf@.len(),
    ensures
        r == u64_of_le(buf@, off as int),
{
    (buf[off] as u64) | ((buf[off + 1] as u64) << 8u64) | ((buf[off + 2] as u64) << 16u64) | ((
    buf[off + 3] as u64) << 24u64) | ((buf[off + 4] as u64) << 32u64) | ((buf[off + 5] as u64)
        << 40u64) | ((buf[off + 6] as u64) << 48u64) | ((buf[off + 7] as u64) << 56u64)
}

/// Parse the general registers from a serialized buffer.
fn bytes_to_general_regs(buf: &[u8]) -> (r: GeneralRegs)
    requires
        buf@.len() >= GENERAL_REGS_SIZE,
    ensures
        r == regs_of_bytes(buf@),
{
    GeneralRegs {
        rax: read_le8(buf, 0),
        rbx: read_le8(buf, 8),
        rcx: read_le8(buf, 16),
        rdx: read_le8(buf, 24),
        rsi: read_le8(buf, 32),
        rdi: read_le8(buf, 40),
        rbp: read_le8(buf, 48),
        rsp: read_le8(buf, 56),
        r8: read_le8(buf, 64),
        r9: read_le8(buf, 72),
        r10: read_le8(buf, 80),
        r11: read_le8(buf, 88),
        r12: read_le8(buf, 96),
        r13: read_le8(buf, 104),
        r14: read_le8(buf, 112),
        r15: read_le8(buf, 120),
        rip: read_le8(buf, 128),
        rflags: read_le8(buf, 136),
        fsbase: read_le8(buf, 144),
        gsbase: read_le8(buf, 152),
    }
}

impl Thread {
    /// Whether the thread currently allows state reads and writes: only
    /// while it reports `BlockedException` or `Suspended`.
    pub open spec fn state_accessible(self, k: Kernel) -> bool {
        k.thread_state_of(self.spec_id()) == ThreadState::BlockedException || k.thread_state_of(
            self.spec_id(),
        ) == ThreadState::Suspended
    }

    /// Read the general registers into the front of `buf`: permitted only
    /// while the thread reports `BlockedException` or `Suspended`
    /// (`BAD_STATE` otherwise, as also when the context is away); a buffer
    /// shorter than the serialized registers reports `BUFFER_TOO_SMALL`.
    pub fn read_state(&self, k: &Kernel, kind: ThreadStateKind, buf: &mut Vec<u8>) -> (r:
        ZxResult<usize>)
        requires
            k.wf(),
            self.valid(*k),
            kind == ThreadStateKind::General,
        ensures
            ({
                let d = k.thread_data(self.spec_id());
                if !self.state_accessible(*k) || d.context is None {
                    r == Err::<usize, ZxError>(ZxError::BAD_STATE) && final(buf)@ == old(buf)@
                } else if old(buf)@.len() < GENERAL_REGS_SIZE {
                    r == Err::<usize, ZxError>(ZxError::BUFFER_TOO_SMALL) && final(buf)@ == old(
                        buf,
                    )@
                } else {
                    &&& r == Ok::<usize, ZxError>(GENERAL_REGS_SIZE)
                    &&& final(buf)@ == regs_bytes((d.context->Some_0).general) + old(buf)@.skip(
                        GENERAL_REGS_SIZE as int,
                    )
                }
            }),
    {
        let state = self.state(k);
        if !(matches!(state, ThreadState::BlockedException) || matches!(
            state,
            ThreadState::Suspended,
        )) {
            return Err(ZxError::BAD_STATE);
        }
        let i = k.index_of_obj(self.koid);
        proof {
            k.lemma_idx_of(self.koid);
            assert(k.body_of(self.spec_id()) == k.objs()[i as int].body);
        }
        let general = match &k.objects[i].body {
            ObjectBody::Thread(d) => match &d.context {
                Some(c) => c.general,
                None => {
                    return Err(ZxError::BAD_STATE);
                },
            },
            _ => unreached(),
        };
        if buf.len() < GENERAL_REGS_SIZE {
            return Err(ZxError::BUFFER_TOO_SMALL);
        }
        let tmp = general_regs_to_bytes(&general);
        let mut x: usize = 0;
        while x < GENERAL_REGS_SIZE
            invariant
                0 <= x <= GENERAL_REGS_SIZE,
                tmp@.len() == GENERAL_REGS_SIZE,
                buf@.len() == old(buf)@.len(),
                old(buf)@.len() >= GENERAL_REGS_SIZE,
                forall|y: int| 0 <= y < x ==> buf@[y] == tmp@[y],
                forall|y: int| x <= y < buf@.len() ==> buf@[y] == old(buf)@[y],
            decreases GENERAL_REGS_SIZE - x,
        {
            buf.set(x, tmp[x]);
            x = x + 1;
        }
        proof {
            assert(buf@ =~= tmp@ + old(buf)@.skip(GENERAL_REGS_SIZE as int));
        }
        Ok(GENERAL_REGS_SIZE)
    }

    /// Write the general registers from the front of `buf`: permitted only
    /// while the thread reports `BlockedException` or `Suspended`
    /// (`BAD_STATE` otherwise, as also when the context is away); a buffer
    /// shorter than the serialized registers reports `BUFFER_TOO_SMALL`.
    pub fn write_state(&self, k: &mut Kernel, kind: ThreadStateKind, buf: &[u8]) -> (r: ZxResult)
        requires
            old(k).wf(),
            self.valid(*old(k)),
            kind == ThreadStateKind::General,
        ensures
            final(k).wf(),
            ({
                let d = old(k).thread_data(self.spec_id());
                if !self.state_accessible(*old(k)) || d.context is None {
                    r == Err::<(), ZxError>(ZxError::BAD_STATE) && *final(k) == *old(k)
                } else if buf@.len() < GENERAL_REGS_SIZE {
                    r == Err::<(), ZxError>(ZxError::BUFFER_TOO_SMALL) && *final(k) == *old(k)
                } else {
                    &&& r == Ok::<(), ZxError>(())
                    &&& Kernel::objects_frame(*old(k), *final(k), self.spec_id())
                    &&& final(k).thread_data(self.spec_id()) == (ThreadData {
                        context: Some(
                            UserContext { general: regs_of_bytes(buf@), ..d.context->Some_0 },
                        ),
                        ..d
                    })
                    &&& final(k).obj_of(self.spec_id()).base == old(k).obj_of(self.spec_id()).base
                }
            }),
    {
        let state = self.state(k);
        if !(matches!(state, ThreadState::BlockedException) || matches!(
            state,
            ThreadState::Suspended,
        )) {
            return Err(ZxError::BAD_STATE);
        }
        let i = k.index_of_obj(self.koid);
        proof {
            k.lemma_idx_of(self.koid);
            assert(k.body_of(self.spec_id()) == k.objs()[i as int].body);
        }
        let has_context = match &k.objects[i].body {
            ObjectBody::Thread(d) => d.context.is_some(),
            _ => unreached(),
        };
        if !has_context {
            return Err(ZxError::BAD_STATE);
        }
        if buf.len() < GENERAL_REGS_SIZE {
            return Err(ZxError::BUFFER_TOO_SMALL);
        }
        let general = bytes_to_general_regs(buf);
        let ghost pre = *k;
        let e = &mut k.objects[i];
        match &mut e.body {
            ObjectBody::Thread(d) => match &mut d.context {
                Some(c) => c.general = general,
                None => {
                    proof {
                        assert(false);
                    }
                },
            },
            _ => {
                proof {
                    assert(false);
                }
            },
        }
        proof {
            Kernel::lemma_update_frame(pre, *k, self.spec_id());
            assert(Kernel::local_change_ok(pre, *k, self.spec_id()));
            Kernel::lemma_local_change_preserves(pre, *k, self.spec_id());
        }
        Ok(())
    }

    /// Set the thread-local storage base register; `BAD_STATE` while the
    /// context is away.
    pub fn set_fsbase(&self, k: &mut Kernel, fsbase: usize) -> (r: ZxResult)
        requires
            old(k).wf(),
            self.valid(*old(k)),
        ensures
            final(k).wf(),
            ({
                let d = old(k).thread_data(self.spec_id());
                if d.context is None {
                    r == Err::<(), ZxError>(ZxError::BAD_STATE) && *final(k) == *old(k)
                } else {
                    &&& r == Ok::<(), ZxError>(())
                    &&& Kernel::objects_frame(*old(k), *final(k), self.spec_id())
                    &&& final(k).thread_data(self.spec_id()) == (ThreadData {
                        context: Some(
                            UserContext {
                                general: GeneralRegs {
                                    fsbase: fsbase as u64,
                                    ..(d.context->Some_0).general
                                },
                                ..d.context->Some_0
                            },
                        ),
                        ..d
                    })
                }
            }),
    {
        let i = k.index_of_obj(self.koid);
        proof {
            k.lemma_idx_of(self.koid);
            assert(k.body_of(self.spec_id()) == k.objs()[i as int].body);
        }
        let has_context = match &k.objects[i].body {
            ObjectBody::Thread(d) => d.context.is_some(),
            _ => unreached(),
        };
        if !has_context {
            return Err(ZxError::BAD_STATE);
        }
        let ghost pre = *k;
        let e = &mut k.objects[i];
        match &mut e.body {
            ObjectBody::Thread(d) => match &mut d.context {
                Some(c) => c.general.fsbase = fsbase as u64,
                None => {
                    proof {
                        assert(false);
                    }
                },
            },
            _ => {
                proof {
                    assert(false);
                }
            },
        }
        proof {
            Kernel::lemma_update_frame(pre, *k, self.spec_id());
            assert(Kernel::local_change_ok(pre, *k, self.spec_id()));
            Kernel::lemma_local_change_preserves(pre, *k, self.spec_id());
        }
        Ok(())
    }

    /// Set the auxiliary thread-local storage base register; `BAD_STATE`
    /// while the context is away.
    pub fn set_gsbase(&self, k: &mut Kernel, gsbase: usize) -> (r: ZxResult)
        requires
            old(k).wf(),
            self.valid(*old(k)),
        ensures
            final(k).wf(),
            ({
                let d = old(k).thread_data(self.spec_id());
                if d.context is None {
                    r == Err::<(), ZxError>(ZxError::BAD_STATE) && *final(k) == *old(k)
                } else {
                    &&& r == Ok::<(), ZxError>(())
                    &&& Kernel::objects_frame(*old(k), *final(k), self.spec_id())
                    &&& final(k).thread_data(self.spec_id()) == (ThreadData {
                        context: Some(
                            UserContext {
                                general: GeneralRegs {
                                    gsbase: gsbase as u64,
                                    ..(d.context->Some_0).general
                                },
                                ..d.context->Some_0
                            },
                        ),
                        ..d
                    })
                }
            }),
    {
        let i = k.index_of_obj(self.koid);
        proof {
            k.lemma_idx_of(self.koid);
            assert(k.body_of(self.spec_id()) == k.objs()[i as int].body);
        }
        let has_context = match &k.objects[i].body {
            ObjectBody::Thread(d) => d.context.is_some(),
            _ => unreached(),
        };
        if !has_context {
            return Err(ZxError::BAD_STATE);
        }
        let ghost pre = *k;
        let e = &mut k.objects[i];
        match &mut e.body {
            ObjectBody::Thread(d) => match &mut d.context {
                Some(c) => c.general.gsbase = gsbase as u64,
                None => {
                    proof {
                        assert(false);
                    }
                },
            },
            _ => {
                proof {
                    assert(false);
                }
            },
        }
        proof {
            Kernel::lemma_update_frame(pre, *k, self.spec_id());
            assert(Kernel::local_change_ok(pre, *k, self.spec_id()));
            Kernel::lemma_local_change_preserves(pre, *k, self.spec_id());
        }
        Ok(())
    }
}


} // verus!
