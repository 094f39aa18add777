//! Jobs: supervision-tree nodes grouping child jobs and processes under an
//! inheritable policy, with top-down kill and bottom-up termination.

use vstd::prelude::*;
use crate::error::ZxError;
use crate::error::ZxResult;
use crate::object::KoID;
use crate::object::Kernel;
use crate::object::ObjectBody;
use crate::policy::BasicPolicy;
use crate::policy::JobPolicy;
use crate::policy::SetPolicyOptions;
use crate::process::TASK_RETCODE_SYSCALL_KILL;

verus! {

/// The state of one job.
pub struct JobData {
    /// The parent job; `None` only for the root.
    pub parent: Option<KoID>,
    /// The parent's effective policy, frozen when this job was created.
    pub parent_policy: JobPolicy,
    /// This job's own explicit policy entries.
    pub policy: JobPolicy,
    /// Child jobs, held weakly: the ids of the children.
    pub children: Vec<KoID>,
    /// Child processes, held strongly: the ids of the processes.
    pub processes: Vec<KoID>,
    /// Whether the job was killed; no child creation succeeds afterwards.
    pub killed: bool,
}

impl Kernel {
    /// The state of job `id`.
    pub open spec fn job_data(self, id: KoID) -> JobData {
        match self.body_of(id) {
            ObjectBody::Job(j) => j,
            _ => arbitrary(),
        }
    }

    /// The parent of job `id`, if it has one.
    pub open spec fn job_parent(self, id: KoID) -> Option<KoID> {
        self.job_data(id).parent
    }

    /// The child jobs of job `id`.
    pub open spec fn job_children(self, id: KoID) -> Seq<KoID> {
        self.job_data(id).children@
    }

    /// The child processes of job `id`.
    pub open spec fn job_processes(self, id: KoID) -> Seq<KoID> {
        self.job_data(id).processes@
    }

    /// Whether job `id` has been killed.
    pub open spec fn job_killed(self, id: KoID) -> bool {
        self.job_data(id).killed
    }

    /// The effective policy of job `id`: its own entries, falling back to
    /// the parent snapshot taken when the job was created. Recomputed on
    /// every read, never cached.
    pub open spec fn job_effective_policy(self, id: KoID) -> JobPolicy {
        self.job_data(id).policy.spec_merge(self.job_data(id).parent_policy)
    }

    /// Whether job `id` has no children and no processes.
    pub open spec fn job_is_empty(self, id: KoID) -> bool {
        self.job_children(id).len() == 0 && self.job_processes(id).len() == 0
    }
}

/// What one batch of policy rules does to a job's own rule set: rules are
/// taken in order; a condition already decided (by the job itself or by the
/// inherited snapshot) fails the call under `Absolute` and is skipped under
/// `Relative`; every rule before a failure stays applied.
pub open spec fn set_policy_outcome(
    own: JobPolicy,
    parent: JobPolicy,
    mode: SetPolicyOptions,
    l: Seq<BasicPolicy>,
) -> (JobPolicy, ZxResult)
    decreases l.len(),
{
    if l.len() <= 0 {
        (own, Ok(()))
    } else {
        let p = l[0];
        let decided = own.spec_get_action(p.condition) is Some || parent.spec_get_action(
            p.condition,
        ) is Some;
        if decided {
            match mode {
                SetPolicyOptions::Absolute => (own, Err(ZxError::ALREADY_EXISTS)),
                SetPolicyOptions::Relative => set_policy_outcome(own, parent, mode, l.drop_first()),
            }
        } else {
            set_policy_outcome(own.spec_apply(p), parent, mode, l.drop_first())
        }
    }
}

/// The list `v` with every occurrence of `c` removed, order kept.
pub(crate) fn remove_all(v: &Vec<KoID>, c: KoID) -> (r: Vec<KoID>)
    ensures
        forall|y: KoID| #[trigger] r@.contains(y) ==> v@.contains(y) && y != c,
        !r@.contains(c),
        forall|x: int| 0 <= x < v@.len() && v@[x] != c ==> r@.contains(v@[x]),
{
    let n = v.len();
    let mut kept: Vec<KoID> = Vec::new();
    let mut x: usize = 0;
    while x < n
        invariant
            0 <= x <= n,
            n == v@.len(),
            forall|y: KoID| #[trigger] kept@.contains(y) ==> v@.contains(y) && y != c,
            !kept@.contains(c),
            forall|w: int| 0 <= w < x && v@[w] != c ==> kept@.contains(v@[w]),
        decreases n - x,
    {
        let e = v[x];
        if e != c {
            let ghost prev = kept@;
            kept.push(e);
            proof {
                assert forall|y: KoID| #[trigger] kept@.contains(y) implies v@.contains(y) && y
                    != c by {
                    let w = choose|w: int| 0 <= w < kept@.len() && kept@[w] == y;
                    if w < prev.len() {
                        assert(prev[w] == y);
                        assert(prev.contains(y));
                    } else {
                        assert(y == e);
                        assert(v@[x as int] == e);
                        assert(v@.contains(e));
                    }
                }
                assert forall|w: int| 0 <= w < x + 1 && v@[w] != c implies kept@.contains(
                    v@[w],
                ) by {
                    if w < x {
                        assert(prev.contains(v@[w]));
                        let u = choose|u: int| 0 <= u < prev.len() && prev[u] == v@[w];
                        assert(kept@[u] == v@[w]);
                    } else {
                        assert(kept@[prev.len() as int] == e);
                    }
                }
            }
        }
        x = x + 1;
    }
    kept
}

impl Kernel {
    /// Detach child `c` from job `p`'s child list; where that leaves a
    /// killed job with nothing underneath, the job terminates, cascading
    /// upward.
    pub(crate) fn job_remove_child(&mut self, p: KoID, c: KoID)
        requires
            old(self).wf(),
            old(self).is_job(p),
        ensures
            final(self).wf(),
            Kernel::cascade_frame(*old(self), *final(self)),
            Kernel::tasks_untouched(*old(self), *final(self)),
            !final(self).job_children(p).contains(c),
        decreases p, 1int,
    {
        let i = self.index_of_obj(p);
        proof {
            self.lemma_idx_of(p);
            assert(self.body_of(p) == self.objs()[i as int].body);
        }
        let kept = match &self.objects[i].body {
            ObjectBody::Job(j) => remove_all(&j.children, c),
            _ => unreached(),
        };
        let ghost pre = *self;
        let e = &mut self.objects[i];
        match &mut e.body {
            ObjectBody::Job(j) => j.children = kept,
            _ => {
                proof {
                    assert(false);
                }
            },
        }
        proof {
            Kernel::lemma_update_frame(pre, *self, p);
            assert(Kernel::local_change_ok(pre, *self, p));
            Kernel::lemma_local_change_preserves(pre, *self, p);
            Kernel::lemma_cascade_frame_local(pre, *self, p);
            assert forall|oid: KoID|
                pre.has_obj(oid) && oid != p implies #[trigger] self.obj_of(oid) == pre.obj_of(
                oid,
            ) by {}
            assert(Kernel::tasks_untouched(pre, *self));
        }
        let ghost mid = *self;
        let (killed, empty) = match &self.objects[i].body {
            ObjectBody::Job(j) => (j.killed, j.children.len() == 0 && j.processes.len() == 0),
            _ => unreached(),
        };
        if killed && empty {
            self.job_terminate(p);
            proof {
                Kernel::lemma_cascade_frame_trans(pre, mid, *self);
                Kernel::lemma_tasks_untouched_trans(pre, mid, *self);
                assert(!self.job_children(p).contains(c));
            }
        }
    }

    /// Detach process `pid` from job `p`'s process list; where that leaves
    /// a killed job with nothing underneath, the job terminates, cascading
    /// upward.
    pub(crate) fn job_remove_process(&mut self, p: KoID, pid: KoID)
        requires
            old(self).wf(),
            old(self).is_job(p),
        ensures
            final(self).wf(),
            Kernel::cascade_frame(*old(self), *final(self)),
            Kernel::tasks_untouched(*old(self), *final(self)),
            !final(self).job_processes(p).contains(pid),
        decreases p, 1int,
    {
        let i = self.index_of_obj(p);
        proof {
            self.lemma_idx_of(p);
            assert(self.body_of(p) == self.objs()[i as int].body);
        }
        let kept = match &self.objects[i].body {
            ObjectBody::Job(j) => remove_all(&j.processes, pid),
            _ => unreached(),
        };
        let ghost pre = *self;
        let e = &mut self.objects[i];
        match &mut e.body {
            ObjectBody::Job(j) => j.processes = kept,
            _ => {
                proof {
                    assert(false);
                }
            },
        }
        proof {
            Kernel::lemma_update_frame(pre, *self, p);
            assert(Kernel::local_change_ok(pre, *self, p));
            Kernel::lemma_local_change_preserves(pre, *self, p);
            Kernel::lemma_cascade_frame_local(pre, *self, p);
            assert forall|oid: KoID|
                pre.has_obj(oid) && oid != p implies #[trigger] self.obj_of(oid) == pre.obj_of(
                oid,
            ) by {}
            assert(Kernel::tasks_untouched(pre, *self));
        }
        let ghost mid = *self;
        let (killed, empty) = match &self.objects[i].body {
            ObjectBody::Job(j) => (j.killed, j.children.len() == 0 && j.processes.len() == 0),
            _ => unreached(),
        };
        if killed && empty {
            self.job_terminate(p);
            proof {
                Kernel::lemma_cascade_frame_trans(pre, mid, *self);
                Kernel::lemma_tasks_untouched_trans(pre, mid, *self);
                assert(!self.job_processes(p).contains(pid));
            }
        }
    }

    /// Terminate job `j`: ask its parent, if any, to forget it. Where that
    /// leaves the parent killed and empty, the parent terminates in turn.
    pub(crate) fn job_terminate(&mut self, j: KoID)
        requires
            old(self).wf(),
            old(self).is_job(j),
        ensures
            final(self).wf(),
            Kernel::cascade_frame(*old(self), *final(self)),
            Kernel::tasks_untouched(*old(self), *final(self)),
            old(self).job_parent(j) matches Some(q) ==> !final(self).job_children(q).contains(j),
        decreases j, 0int,
    {
        let i = self.index_of_obj(j);
        proof {
            self.lemma_idx_of(j);
            assert(self.body_of(j) == self.objs()[i as int].body);
        }
        let parent = match &self.objects[i].body {
            ObjectBody::Job(jd) => jd.parent,
            _ => unreached(),
        };
        match parent {
            Some(q) => {
                self.job_remove_child(q, j);
            },
            None => {
                proof {
                    Kernel::lemma_cascade_frame_refl(*self);
                }
            },
        }
    }

    /// Kill job `j` and, recursively, everything underneath it: every
    /// descendant job is killed and every descendant process is exited.
    /// Idempotent. A job that ends up killed and empty terminates at once;
    /// one with remaining descendants terminates later, when the removal of
    /// its last descendant observes it killed and empty.
    #[verifier::rlimit(50)]
    pub(crate) fn kill_job(&mut self, j: KoID)
        requires
            old(self).wf(),
            old(self).is_job(j),
        ensures
            final(self).wf(),
            Kernel::cascade_frame(*old(self), *final(self)),
            final(self).job_killed(j),
            old(self).job_is_empty(j) && !old(self).job_killed(j) && (old(self).job_parent(j)
                matches Some(q)) ==> !final(self).job_children(
                old(self).job_parent(j)->Some_0,
            ).contains(j),
        decreases self.spec_next_koid() - j,
    {
        let i = self.index_of_obj(j);
        proof {
            self.lemma_idx_of(j);
            assert(self.body_of(j) == self.objs()[i as int].body);
        }
        let (already, children_snap, processes_snap) = match &self.objects[i].body {
            ObjectBody::Job(jd) => (jd.killed, jd.children.clone(), jd.processes.clone()),
            _ => unreached(),
        };
        if already {
            proof {
                Kernel::lemma_cascade_frame_refl(*self);
            }
            return ;
        }
        let ghost k0 = *self;
        proof {
            assert(children_snap@ == k0.job_children(j));
            assert(processes_snap@ == k0.job_processes(j));
            assert forall|y: int|
                0 <= y < children_snap@.len() implies k0.is_job(#[trigger] children_snap@[y]) && j
                < children_snap@[y] && children_snap@[y] < k0.spec_next_koid() by {
                assert(k0.job_children(j)[y] == children_snap@[y]);
                assert(k0.is_job(k0.job_children(j)[y]) && j < k0.job_children(j)[y]);
                k0.lemma_id_bound(children_snap@[y]);
            }
            assert forall|y: int|
                0 <= y < processes_snap@.len() implies k0.is_process(
                #[trigger] processes_snap@[y],
            ) by {
                assert(k0.job_processes(j)[y] == processes_snap@[y]);
                assert(k0.is_process(k0.job_processes(j)[y]));
            }
        }
        let n = children_snap.len();
        let mut x: usize = 0;
        while x < n
            invariant
                0 <= x <= n,
                n == children_snap@.len(),
                self.wf(),
                k0.wf(),
                k0.is_job(j),
                Kernel::cascade_frame(k0, *self),
                self.spec_next_koid() == old(self).spec_next_koid(),
                forall|y: int|
                    0 <= y < n ==> k0.is_job(#[trigger] children_snap@[y]) && j
                        < children_snap@[y] && children_snap@[y] < k0.spec_next_koid(),
                forall|y: int| 0 <= y < x ==> self.job_killed(#[trigger] children_snap@[y]),
            decreases n - x,
        {
            let c = children_snap[x];
            let ghost before = *self;
            proof {
                assert(k0.is_job(c));
                assert(self.kind_of(c) == k0.kind_of(c));
                assert(self.is_job(c));
            }
            self.kill_job(c);
            proof {
                Kernel::lemma_cascade_frame_trans(k0, before, *self);
                assert forall|y: int| 0 <= y < x + 1 implies self.job_killed(
                    #[trigger] children_snap@[y],
                ) by {
                    if y < x {
                        assert(before.job_killed(children_snap@[y]));
                        assert(before.is_job(children_snap@[y]));
                    }
                }
            }
            x = x + 1;
        }
        let m = processes_snap.len();
        let mut w: usize = 0;
        while w < m
            invariant
                0 <= w <= m,
                m == processes_snap@.len(),
                self.wf(),
                k0.wf(),
                k0.is_job(j),
                Kernel::cascade_frame(k0, *self),
                self.spec_next_koid() == old(self).spec_next_koid(),
                forall|y: int| 0 <= y < m ==> k0.is_process(#[trigger] processes_snap@[y]),
                forall|y: int| 0 <= y < w ==> self.proc_exited(#[trigger] processes_snap@[y]),
                forall|y: int|
                    0 <= y < children_snap@.len() ==> k0.is_job(#[trigger] children_snap@[y]),
                forall|y: int|
                    0 <= y < children_snap@.len() ==> self.job_killed(
                        #[trigger] children_snap@[y],
                    ),
            decreases m - w,
        {
            let pid = processes_snap[w];
            let ghost before = *self;
            proof {
                assert(k0.is_process(pid));
                assert(self.is_process(pid));
            }
            self.process_exit(pid, TASK_RETCODE_SYSCALL_KILL);
            proof {
                Kernel::lemma_cascade_frame_trans(k0, before, *self);
                assert forall|y: int| 0 <= y < w + 1 implies self.proc_exited(
                    #[trigger] processes_snap@[y],
                ) by {
                    if y < w {
                        assert(before.proc_exited(processes_snap@[y]));
                        assert(before.is_process(processes_snap@[y]));
                    }
                }
                assert forall|y: int|
                    0 <= y < children_snap@.len() implies self.job_killed(
                    #[trigger] children_snap@[y],
                ) by {
                    assert(before.job_killed(children_snap@[y]));
                    assert(before.is_job(children_snap@[y]));
                }
            }
            w = w + 1;
        }
        let i = self.index_of_obj(j);
        proof {
            self.lemma_idx_of(j);
            assert(self.body_of(j) == self.objs()[i as int].body);
            assert(self.is_job(j));
        }
        let ghost pre_flag = *self;
        let e = &mut self.objects[i];
        match &mut e.body {
            ObjectBody::Job(jd) => jd.killed = true,
            _ => {
                proof {
                    assert(false);
                }
            },
        }
        proof {
            Kernel::lemma_update_frame(pre_flag, *self, j);
            assert(Kernel::local_change_ok(pre_flag, *self, j));
            Kernel::lemma_cascade_frame_local(pre_flag, *self, j);
            Kernel::lemma_cascade_frame_trans(k0, pre_flag, *self);
            assert forall|c: KoID| #[trigger]
                pre_flag.job_children(j).contains(c) implies pre_flag.job_killed(c) by {
                assert(k0.job_children(j).contains(c));
                let y = choose|y: int|
                    0 <= y < k0.job_children(j).len() && k0.job_children(j)[y] == c;
                assert(children_snap@[y] == c);
                assert(pre_flag.job_killed(children_snap@[y]));
            }
            assert forall|p: KoID| #[trigger]
                pre_flag.job_processes(j).contains(p) implies pre_flag.proc_exited(p) by {
                assert(k0.job_processes(j).contains(p));
                let y = choose|y: int|
                    0 <= y < k0.job_processes(j).len() && k0.job_processes(j)[y] == p;
                assert(processes_snap@[y] == p);
                assert(pre_flag.proc_exited(processes_snap@[y]));
            }
            Kernel::lemma_kill_flag_preserves(pre_flag, *self, j);
        }
        let ghost k3 = *self;
        let (killed2, empty2) = match &self.objects[i].body {
            ObjectBody::Job(jd) => (jd.killed, jd.children.len() == 0 && jd.processes.len() == 0),
            _ => unreached(),
        };
        proof {
            if k0.job_is_empty(j) {
                if k3.job_children(j).len() > 0 {
                    assert(k3.job_children(j).contains(k3.job_children(j)[0]));
                    assert(k0.job_children(j).contains(k3.job_children(j)[0]));
                }
                if k3.job_processes(j).len() > 0 {
                    assert(k3.job_processes(j).contains(k3.job_processes(j)[0]));
                    assert(k0.job_processes(j).contains(k3.job_processes(j)[0]));
                }
                assert(empty2);
            }
            assert(k3.job_data(j).parent == k0.job_data(j).parent);
        }
        if killed2 && empty2 {
            self.job_terminate(j);
            proof {
                Kernel::lemma_cascade_frame_trans(k0, k3, *self);
            }
        }
    }
}

/// Whether `d` lies in the supervision subtree rooted at job `a`: it is `a`
/// itself or a descendant reached through child lists.
pub open spec fn is_descendant(k: Kernel, a: KoID, d: KoID) -> bool
    decreases k.spec_next_koid() - a,
    when k.wf() && k.is_job(a)
{
    d == a || exists|i: int|
        0 <= i < k.job_children(a).len() && is_descendant(k, #[trigger] k.job_children(a)[i], d)
}

/// Every job in the subtree rooted at `a` is killed and every process
/// listed under any of those jobs has exited.
pub open spec fn subtree_killed(k: Kernel, a: KoID) -> bool {
    &&& forall|d: KoID| #[trigger] is_descendant(k, a, d) ==> k.job_killed(d)
    &&& forall|d: KoID, i: int|
        #![trigger is_descendant(k, a, d), k.job_processes(d)[i]]
        is_descendant(k, a, d) && 0 <= i < k.job_processes(d).len() ==> k.proc_exited(
            k.job_processes(d)[i],
        )
}

/// Kill propagation: in a well-formed kernel, once a job is killed its
/// whole subtree is dead weight, with every descendant job killed and
/// every process under the subtree exited. Together with the contract of
/// `Job::kill` this says that killing a job leaves every descendant job
/// and process in a killed or exited state.
pub proof fn lemma_killed_subtree(k: Kernel, a: KoID)
    requires
        k.wf(),
        k.is_job(a),
        k.job_killed(a),
    ensures
        subtree_killed(k, a),
    decreases k.spec_next_koid() - a,
{
    assert forall|d: KoID| #[trigger] is_descendant(k, a, d) implies k.job_killed(d) by {
        if d != a {
            let i = choose|i: int|
                0 <= i < k.job_children(a).len() && is_descendant(
                    k,
                    #[trigger] k.job_children(a)[i],
                    d,
                );
            let c = k.job_children(a)[i];
            assert(k.is_job(c) && a < c);
            assert(k.job_killed(c));
            k.lemma_id_bound(c);
            lemma_killed_subtree(k, c);
            assert(is_descendant(k, c, d));
        }
    }
    assert forall|d: KoID, i: int|
        #![trigger is_descendant(k, a, d), k.job_processes(d)[i]]
        is_descendant(k, a, d) && 0 <= i < k.job_processes(d).len() implies k.proc_exited(
        k.job_processes(d)[i],
    ) by {
        if d == a {
            assert(k.proc_exited(k.job_processes(a)[i]));
        } else {
            let w = choose|w: int|
                0 <= w < k.job_children(a).len() && is_descendant(
                    k,
                    #[trigger] k.job_children(a)[w],
                    d,
                );
            let c = k.job_children(a)[w];
            assert(k.is_job(c) && a < c);
            assert(k.job_killed(c));
            k.lemma_id_bound(c);
            lemma_killed_subtree(k, c);
            assert(is_descendant(k, c, d));
        }
    }
}

/// A reference to a job: a node of the supervision tree.
#[derive(Debug, Clone, Copy, PartialEq, Eq, Structural)]
pub struct Job {
    /// The id of the job this reference points at.
    pub koid: KoID,
}

impl Job {
    /// The id this reference points at.
    pub open spec fn spec_id(self) -> KoID {
        self.koid
    }

    /// Whether this reference points at a job of `k`.
    pub open spec fn valid(self, k: Kernel) -> bool {
        k.is_job(self.koid)
    }

    /// Create the root job: the only job without a parent.
    pub fn root(k: &mut Kernel) -> (r: Job)
        requires
            old(k).wf(),
            old(k).spec_next_koid() < KoID::MAX,
        ensures
            final(k).wf(),
            Kernel::grows_by(*old(k), *final(k), r.spec_id()),
            r.valid(*final(k)),
            final(k).job_parent(r.spec_id()) is None,
            final(k).job_data(r.spec_id()).parent_policy == JobPolicy::spec_empty(),
            final(k).job_data(r.spec_id()).policy == JobPolicy::spec_empty(),
            final(k).job_children(r.spec_id()) == Seq::<KoID>::empty(),
            final(k).job_processes(r.spec_id()) == Seq::<KoID>::empty(),
            !final(k).job_killed(r.spec_id()),
            final(k).name_of(r.spec_id()) == Seq::<char>::empty(),
    {
        let ghost pre = *k;
        let id = k.insert_object(
            ObjectBody::Job(
                JobData {
                    parent: None,
                    parent_policy: JobPolicy::empty(),
                    policy: JobPolicy::empty(),
                    children: Vec::new(),
                    processes: Vec::new(),
                    killed: false,
                },
            ),
            "",
        );
        proof {
            reveal_strlit("");
            Kernel::lemma_insert_preserves(pre, *k, id);
        }
        Job { koid: id }
    }

    /// Create a new child job. The child starts empty, with the parent's
    /// effective policy frozen as its inherited snapshot. Fails with
    /// `BAD_STATE` once this job has been killed.
    pub fn create_child(&self, k: &mut Kernel) -> (r: ZxResult<Job>)
        requires
            old(k).wf(),
            self.valid(*old(k)),
            old(k).spec_next_koid() < KoID::MAX,
        ensures
            final(k).wf(),
            match r {
                Result::Err(e) => e == ZxError::BAD_STATE && old(k).job_killed(self.spec_id())
                    && *final(k) == *old(k),
                Result::Ok(child) => {
                    &&& !old(k).job_killed(self.spec_id())
                    &&& Kernel::grows_by_touching(
                        *old(k),
                        *final(k),
                        child.spec_id(),
                        self.spec_id(),
                    )
                    &&& child.valid(*final(k))
                    &&& final(k).job_parent(child.spec_id()) == Some(self.spec_id())
                    &&& final(k).job_data(child.spec_id()).parent_policy == old(
                        k,
                    ).job_effective_policy(self.spec_id())
                    &&& final(k).job_data(child.spec_id()).policy == JobPolicy::spec_empty()
                    &&& final(k).job_children(child.spec_id()) == Seq::<KoID>::empty()
                    &&& final(k).job_processes(child.spec_id()) == Seq::<KoID>::empty()
                    &&& !final(k).job_killed(child.spec_id())
                    &&& final(k).name_of(child.spec_id()) == Seq::<char>::empty()
                    &&& final(k).job_children(self.spec_id()) == old(k).job_children(
                        self.spec_id(),
                    ).push(child.spec_id())
                    &&& final(k).job_data(self.spec_id()) == (JobData {
                        children: final(k).job_data(self.spec_id()).children,
                        ..old(k).job_data(self.spec_id())
                    })
                    &&& final(k).obj_of(self.spec_id()).base == old(k).obj_of(self.spec_id()).base
                },
            },
    {
        let i = k.index_of_obj(self.koid);
        proof {
            k.lemma_idx_of(self.koid);
        }
        let (own_policy, parent_policy, killed) = match &k.objects[i].body {
            ObjectBody::Job(j) => (j.policy, j.parent_policy, j.killed),
            _ => unreached(),
        };
        if killed {
            proof {
                assert(k.body_of(self.spec_id()) == k.objs()[i as int].body);
                assert(old(k).job_killed(self.spec_id()));
                assert(*k == *old(k));
            }
            return Err(ZxError::BAD_STATE);
        }
        let snapshot = own_policy.merge(&parent_policy);
        let ghost pre = *k;
        let child_id = k.insert_object(
            ObjectBody::Job(
                JobData {
                    parent: Some(self.koid),
                    parent_policy: snapshot,
                    policy: JobPolicy::empty(),
                    children: Vec::new(),
                    processes: Vec::new(),
                    killed: false,
                },
            ),
            "",
        );
        proof {
            reveal_strlit("");
            pre.lemma_id_bound(self.koid);
            Kernel::lemma_insert_preserves(pre, *k, child_id);
        }
        let ghost mid = *k;
        let i = k.index_of_obj(self.koid);
        proof {
            k.lemma_idx_of(self.koid);
            assert(k.obj_of(self.koid) == pre.obj_of(self.koid));
            assert(k.is_job(self.koid));
            assert(k.body_of(self.koid) == k.objs()[i as int].body);
            assert(k.body_of(self.koid) is Job);
        }
        let e = &mut k.objects[i];
        match &mut e.body {
            ObjectBody::Job(j) => j.children.push(child_id),
            _ => {
                proof {
                    assert(false);
                }
            },
        }
        proof {
            Kernel::lemma_update_frame(mid, *k, self.koid);
            Kernel::lemma_push_child_preserves(mid, *k, self.koid, child_id);
            assert forall|oid: KoID| pre.has_obj(oid) implies #[trigger] k.has_obj(oid) by {
                assert(mid.has_obj(oid));
            }
            assert forall|oid: KoID| #[trigger] k.has_obj(oid) implies oid == child_id
                || pre.has_obj(oid) by {
                assert(mid.has_obj(oid));
            }
            assert forall|oid: KoID|
                pre.has_obj(oid) && oid != self.spec_id() implies #[trigger] k.obj_of(oid)
                == pre.obj_of(oid) by {
                assert(mid.has_obj(oid));
                assert(k.obj_of(oid) == mid.obj_of(oid));
                assert(mid.obj_of(oid) == pre.obj_of(oid));
            }
        }
        Ok(Job { koid: child_id })
    }

    /// Kill this job and, recursively, everything underneath it.
    /// Idempotent: a second kill is a no-op. The job does not terminate
    /// synchronously when it has descendants; it terminates when the last
    /// of them is removed. A job with no descendants terminates at once,
    /// detaching from its parent.
    pub fn kill(&self, k: &mut Kernel)
        requires
            old(k).wf(),
            self.valid(*old(k)),
        ensures
            final(k).wf(),
            Kernel::cascade_frame(*old(k), *final(k)),
            final(k).job_killed(self.spec_id()),
            subtree_killed(*final(k), self.spec_id()),
            old(k).job_is_empty(self.spec_id()) && !old(k).job_killed(self.spec_id()) && (old(
                k,
            ).job_parent(self.spec_id()) matches Some(q)) ==> !final(k).job_children(
                old(k).job_parent(self.spec_id())->Some_0,
            ).contains(self.spec_id()),
    {
        k.kill_job(self.koid);
        proof {
            lemma_killed_subtree(*k, self.koid);
        }
    }

    /// The job\'s effective policy: its own entries merged over the parent
    /// snapshot.
    pub fn policy(&self, k: &Kernel) -> (r: JobPolicy)
        requires
            k.wf(),
            self.valid(*k),
        ensures
            r == k.job_effective_policy(self.spec_id()),
    {
        let i = k.index_of_obj(self.koid);
        proof {
            k.lemma_idx_of(self.koid);
        }
        match &k.objects[i].body {
            ObjectBody::Job(j) => j.policy.merge(&j.parent_policy),
            _ => unreached(),
        }
    }

    /// Apply a batch of policy rules to an empty job. Fails with
    /// `BAD_STATE` while the job has any child or process; under
    /// `Absolute`, a rule whose condition is already decided (by this job
    /// or inherited) fails the call with `ALREADY_EXISTS`, leaving the
    /// rules before it applied; under `Relative` such rules are skipped.
    pub fn set_policy_basic(
        &self,
        k: &mut Kernel,
        options: SetPolicyOptions,
        policies: &[BasicPolicy],
    ) -> (r: ZxResult)
        requires
            old(k).wf(),
            self.valid(*old(k)),
        ensures
            final(k).wf(),
            !old(k).job_is_empty(self.spec_id()) ==> r == Err::<(), ZxError>(ZxError::BAD_STATE)
                && *final(k) == *old(k),
            old(k).job_is_empty(self.spec_id()) ==> {
                let d = old(k).job_data(self.spec_id());
                let outcome = set_policy_outcome(d.policy, d.parent_policy, options, policies@);
                &&& r == outcome.1
                &&& Kernel::objects_frame(*old(k), *final(k), self.spec_id())
                &&& final(k).job_data(self.spec_id()) == (JobData { policy: outcome.0, ..d })
                &&& final(k).obj_of(self.spec_id()).base == old(k).obj_of(self.spec_id()).base
            },
    {
        let i = k.index_of_obj(self.koid);
        proof {
            k.lemma_idx_of(self.koid);
            assert(k.body_of(self.spec_id()) == k.objs()[i as int].body);
        }
        let (own0, parent_pol, is_empty) = match &k.objects[i].body {
            ObjectBody::Job(j) => (j.policy, j.parent_policy, j.children.len() == 0
                && j.processes.len() == 0),
            _ => unreached(),
        };
        if !is_empty {
            return Err(ZxError::BAD_STATE);
        }
        let ghost pre = *k;
        let mut own = own0;
        let mut res: ZxResult = Ok(());
        let n = policies.len();
        let mut idx: usize = 0;
        proof {
            assert(policies@.skip(0) =~= policies@);
        }
        while idx < n
            invariant_except_break
                0 <= idx <= n,
                n == policies@.len(),
                res == Ok::<(), ZxError>(()),
                set_policy_outcome(own0, parent_pol, options, policies@) == set_policy_outcome(
                    own,
                    parent_pol,
                    options,
                    policies@.skip(idx as int),
                ),
            ensures
                set_policy_outcome(own0, parent_pol, options, policies@) == (own, res),
            decreases n - idx,
        {
            let p = policies[idx];
            proof {
                assert(policies@.skip(idx as int)[0] == p);
                assert(policies@.skip(idx as int).drop_first() =~= policies@.skip(idx as int + 1));
            }
            let decided = own.get_action(p.condition).is_some() || parent_pol.get_action(
                p.condition,
            ).is_some();
            if decided {
                match options {
                    SetPolicyOptions::Absolute => {
                        res = Err(ZxError::ALREADY_EXISTS);
                        break ;
                    },
                    SetPolicyOptions::Relative => {},
                }
            } else {
                own.apply(p);
            }
            idx = idx + 1;
        }
        proof {
            if idx == n && res is Ok {
                assert(policies@.skip(n as int) =~= Seq::<BasicPolicy>::empty());
            }
        }

        let e = &mut k.objects[i];
        match &mut e.body {
            ObjectBody::Job(j) => j.policy = own,
            _ => {
                proof {
                    assert(false);
                }
            },
        }
        proof {
            Kernel::lemma_update_frame(pre, *k, self.koid);
            Kernel::lemma_links_preserved(pre, *k);
            Kernel::lemma_killed_ok_preserved(pre, *k);
        }
        res
    }

    /// Whether this job is the root job: `ACCESS_DENIED` where it has a
    /// parent.
    pub fn check_root_job(&self, k: &Kernel) -> (r: ZxResult)
        requires
            k.wf(),
            self.valid(*k),
        ensures
            r == if k.job_parent(self.spec_id()) is Some {
                Err::<(), ZxError>(ZxError::ACCESS_DENIED)
            } else {
                Ok::<(), ZxError>(())
            },
    {
        match self.parent(k) {
            Some(_) => Err(ZxError::ACCESS_DENIED),
            None => Ok(()),
        }
    }

    /// The ids of this job's child processes, in registration order.
    pub fn process_ids(&self, k: &Kernel) -> (r: Vec<KoID>)
        requires
            k.wf(),
            self.valid(*k),
        ensures
            r@ == k.job_processes(self.spec_id()),
    {
        let i = k.index_of_obj(self.koid);
        proof {
            k.lemma_idx_of(self.koid);
            assert(k.body_of(self.spec_id()) == k.objs()[i as int].body);
        }
        match &k.objects[i].body {
            ObjectBody::Job(j) => j.processes.clone(),
            _ => unreached(),
        }
    }

    /// The ids of this job's live child jobs, in registration order.
    pub fn children_ids(&self, k: &Kernel) -> (r: Vec<KoID>)
        requires
            k.wf(),
            self.valid(*k),
        ensures
            r@ == k.job_children(self.spec_id()),
    {
        let i = k.index_of_obj(self.koid);
        proof {
            k.lemma_idx_of(self.koid);
            assert(k.body_of(self.spec_id()) == k.objs()[i as int].body);
        }
        match &k.objects[i].body {
            ObjectBody::Job(j) => j.children.clone(),
            _ => unreached(),
        }
    }

    /// Whether this job has no child jobs and no processes.
    pub fn is_empty(&self, k: &Kernel) -> (r: bool)
        requires
            k.wf(),
            self.valid(*k),
        ensures
            r == k.job_is_empty(self.spec_id()),
    {
        let i = k.index_of_obj(self.koid);
        proof {
            k.lemma_idx_of(self.koid);
            assert(k.body_of(self.spec_id()) == k.objs()[i as int].body);
        }
        match &k.objects[i].body {
            ObjectBody::Job(j) => j.children.len() == 0 && j.processes.len() == 0,
            _ => unreached(),
        }
    }

    /// Find a live child job or child process by id; `NOT_FOUND` where no
    /// such child exists.
    pub fn get_child(&self, k: &Kernel, id: KoID) -> (r: ZxResult<KoID>)
        requires
            k.wf(),
            self.valid(*k),
        ensures
            r == if k.job_children(self.spec_id()).contains(id) || k.job_processes(
                self.spec_id(),
            ).contains(id) {
                Ok::<KoID, ZxError>(id)
            } else {
                Err::<KoID, ZxError>(ZxError::NOT_FOUND)
            },
    {
        let i = k.index_of_obj(self.koid);
        proof {
            k.lemma_idx_of(self.koid);
            assert(k.body_of(self.spec_id()) == k.objs()[i as int].body);
        }
        match &k.objects[i].body {
            ObjectBody::Job(j) => {
                let n = j.children.len();
                let mut ci: usize = 0;
                while ci < n
                    invariant
                        0 <= ci <= n,
                        n == j.children@.len(),
                        j.children@ == k.job_children(self.spec_id()),
                        forall|x: int| 0 <= x < ci ==> j.children@[x] != id,
                    decreases n - ci,
                {
                    if j.children[ci] == id {
                        proof {
                            assert(k.job_children(self.spec_id())[ci as int] == id);
                            assert(k.job_children(self.spec_id()).contains(id));
                        }
                        return Ok(id);
                    }
                    ci = ci + 1;
                }
                let m = j.processes.len();
                let mut pi: usize = 0;
                while pi < m
                    invariant
                        0 <= pi <= m,
                        m == j.processes@.len(),
                        j.processes@ == k.job_processes(self.spec_id()),
                        forall|x: int| 0 <= x < pi ==> j.processes@[x] != id,
                    decreases m - pi,
                {
                    if j.processes[pi] == id {
                        proof {
                            assert(k.job_processes(self.spec_id())[pi as int] == id);
                            assert(k.job_processes(self.spec_id()).contains(id));
                        }
                        return Ok(id);
                    }
                    pi = pi + 1;
                }
                proof {
                    assert(!k.job_children(self.spec_id()).contains(id));
                    assert(!k.job_processes(self.spec_id()).contains(id));
                }
                Err(ZxError::NOT_FOUND)
            },
            _ => unreached(),
        }
    }

    /// Whether this job has been killed.
    pub fn killed(&self, k: &Kernel) -> (r: bool)
        requires
            k.wf(),
            self.valid(*k),
        ensures
            r == k.job_killed(self.spec_id()),
    {
        let i = k.index_of_obj(self.koid);
        proof {
            k.lemma_idx_of(self.koid);
            assert(k.body_of(self.spec_id()) == k.objs()[i as int].body);
        }
        match &k.objects[i].body {
            ObjectBody::Job(j) => j.killed,
            _ => unreached(),
        }
    }

    /// The object's id.
    pub fn id(&self) -> (r: KoID)
        ensures
            r == self.spec_id(),
    {
        self.koid
    }

    /// The tag naming this object's kind.
    pub fn kind_name(&self) -> (r: &'static str)
        ensures
            r@ == "Job"@,
    {
        "Job"
    }

    /// The object's current name.
    pub fn name(&self, k: &Kernel) -> (r: String)
        requires
            k.wf(),
            self.valid(*k),
        ensures
            r@ == k.name_of(self.spec_id()),
    {
        k.object_name(self.koid)
    }

    /// Set the object's name; visible through any handle to it.
    pub fn set_name(&self, k: &mut Kernel, name: &str)
        requires
            old(k).wf(),
            self.valid(*old(k)),
        ensures
            final(k).wf(),
            Kernel::objects_frame(*old(k), *final(k), self.spec_id()),
            final(k).name_of(self.spec_id()) == name@,
            final(k).body_of(self.spec_id()) == old(k).body_of(self.spec_id()),
    {
        k.set_object_name(self.koid, name);
    }

    /// The id of the parent job, or 0 for the root.
    pub fn related_koid(&self, k: &Kernel) -> (r: KoID)
        requires
            k.wf(),
            self.valid(*k),
        ensures
            r == match k.job_parent(self.spec_id()) {
                Some(p) => p,
                None => 0u64,
            },
    {
        match self.parent(k) {
            Some(p) => p.id(),
            None => 0,
        }
    }

    /// The parent job, or `None` for the root.
    pub fn parent(&self, k: &Kernel) -> (r: Option<Job>)
        requires
            k.wf(),
            self.valid(*k),
        ensures
            match r {
                Some(p) => k.job_parent(self.spec_id()) == Some(p.spec_id()) && p.valid(*k),
                None => k.job_parent(self.spec_id()) is None,
            },
    {
        let i = k.index_of_obj(self.koid);
        proof {
            k.lemma_idx_of(self.koid);
        }
        match &k.objects[i].body {
            ObjectBody::Job(j) => match j.parent {
                Some(p) => Some(Job { koid: p }),
                None => None,
            },
            _ => unreached(),
        }
    }
}


/// Applying one policy rule under `Absolute` mode twice fails the second
/// time with `ALREADY_EXISTS`: once the first application decided the
/// condition, the second finds it decided and refuses.
pub proof fn lemma_absolute_policy_twice_fails(
    own: JobPolicy,
    parent: JobPolicy,
    p: BasicPolicy,
)
    requires
        set_policy_outcome(own, parent, SetPolicyOptions::Absolute, seq![p]).1 == Ok::<
            (),
            ZxError,
        >(()),
    ensures
        ({
            let own2 = set_policy_outcome(own, parent, SetPolicyOptions::Absolute, seq![p]).0;
            set_policy_outcome(own2, parent, SetPolicyOptions::Absolute, seq![p]) == (
                own2,
                Err::<(), ZxError>(ZxError::ALREADY_EXISTS),
            )
        }),
{
    let l = seq![p];
    assert(l.drop_first() =~= Seq::<BasicPolicy>::empty());
    assert(l[0] == p);
    if own.spec_get_action(p.condition) is Some || parent.spec_get_action(p.condition) is Some {
        assert(set_policy_outcome(own, parent, SetPolicyOptions::Absolute, l) == (
            own,
            Err::<(), ZxError>(ZxError::ALREADY_EXISTS),
        ));
        assert(false);
    }
    assert(set_policy_outcome(
        own.spec_apply(p),
        parent,
        SetPolicyOptions::Absolute,
        Seq::<BasicPolicy>::empty(),
    ) == (own.spec_apply(p), Ok::<(), ZxError>(())));
    let own2 = set_policy_outcome(own, parent, SetPolicyOptions::Absolute, l).0;
    assert(own2 == own.spec_apply(p));
    assert(own2.spec_get_action(p.condition) == Some(p.action));
}

/// Applying one policy rule under `Relative` mode twice is a no-op the
/// second time: the rule set is unchanged, the call reports success, and
/// the effective action for the condition keeps its first value.
pub proof fn lemma_relative_policy_twice_noop(
    own: JobPolicy,
    parent: JobPolicy,
    first: BasicPolicy,
    second: BasicPolicy,
)
    requires
        own.spec_get_action(first.condition) is None,
        parent.spec_get_action(first.condition) is None,
        second.condition == first.condition,
    ensures
        ({
            let own2 = set_policy_outcome(own, parent, SetPolicyOptions::Relative, seq![first]).0;
            &&& set_policy_outcome(own, parent, SetPolicyOptions::Relative, seq![first]) == (
                own2,
                Ok::<(), ZxError>(()),
            )
            &&& set_policy_outcome(own2, parent, SetPolicyOptions::Relative, seq![second]) == (
                own2,
                Ok::<(), ZxError>(()),
            )
            &&& own2.spec_merge(parent).spec_get_action(first.condition) == Some(first.action)
        }),
{
    let l1 = seq![first];
    let l2 = seq![second];
    assert(l1.drop_first() =~= Seq::<BasicPolicy>::empty());
    assert(l2.drop_first() =~= Seq::<BasicPolicy>::empty());
    assert(l1[0] == first);
    assert(l2[0] == second);
    assert(set_policy_outcome(
        own.spec_apply(first),
        parent,
        SetPolicyOptions::Relative,
        Seq::<BasicPolicy>::empty(),
    ) == (own.spec_apply(first), Ok::<(), ZxError>(())));
    let own2 = set_policy_outcome(own, parent, SetPolicyOptions::Relative, l1).0;
    assert(own2 == own.spec_apply(first));
    assert(own2.spec_get_action(first.condition) == Some(first.action));
    assert(set_policy_outcome(own2, parent, SetPolicyOptions::Relative, Seq::<BasicPolicy>::empty())
        == (own2, Ok::<(), ZxError>(())));
    crate::policy::lemma_merge_prefers_child(own2, parent, first.condition);
}


} // verus!
