//! The kernel object arena: object identity, naming, and the shared state
//! every object kind lives in.
//!
//! Shared ownership, which a kernel would usually express with
//! reference-counted pointers and per-object locks, is modelled by a
//! single arena: all objects live in one table keyed by their `KoID`,
//! strong and weak references become ids, and every operation is a method
//! of the `Kernel` that owns the table. Entries are never removed, so an
//! id stays resolvable for as long as any part of the system remembers
//! it; what pointer-based designs express by dropping the last strong
//! reference is expressed here by explicit state (for example a closed
//! channel endpoint).

use vstd::prelude::*;
use crate::channel::ChannelData;
use crate::job::JobData;
use crate::process::ProcessData;
use crate::resource::ResourceData;
use crate::rights::Rights;
use crate::thread::ThreadData;
use crate::thread::ThreadState;

verus! {

/// A kernel object id: unique within one `Kernel`, assigned from a
/// monotonically increasing counter, never reused.
pub type KoID = u64;

/// A process-local handle value.
pub type HandleValue = u32;

/// The reserved handle value that denotes "no handle".
pub const INVALID_HANDLE: HandleValue = 0;

/// The first id the kernel assigns; everything below is reserved.
pub const FIRST_KOID: KoID = 1024;

/// A capability: a kernel object id paired with a fixed rights set.
///
/// Cloning a handle shares the object (it copies the id, not the object);
/// the rights are fixed at creation and never widened.
#[derive(Debug, Clone, Copy, PartialEq, Eq, Structural)]
pub struct Handle {
    /// The object the handle refers to.
    pub object: KoID,
    /// What the holder may do through this handle.
    pub rights: Rights,
}

impl Handle {
    /// Make a new handle to `object` carrying `rights`.
    pub fn new(object: KoID, rights: Rights) -> (r: Handle)
        ensures
            r.object == object,
            r.rights == rights,
    {
        Handle { object, rights }
    }
}

/// The closed set of concrete kernel object kinds.
#[derive(Debug, Clone, Copy, PartialEq, Eq, Structural)]
pub enum ObjectType {
    /// A placeholder object with nothing but identity and a name.
    Dummy,
    /// A supervision-tree node.
    Job,
    /// A handle table plus a thread set.
    Process,
    /// An execution context.
    Thread,
    /// One endpoint of a message pipe.
    Channel,
    /// An address-range grant.
    Resource,
}

/// The state common to every kernel object: its immutable id and its
/// mutable name.
#[derive(Debug)]
pub struct KObjectBase {
    /// The object's id, fixed at construction.
    pub id: KoID,
    /// The object's name; empty by default, mutable through any handle.
    pub name: String,
}

/// The kind-specific state of one kernel object.
pub enum ObjectBody {
    /// A placeholder object.
    Dummy,
    /// A supervision-tree node.
    Job(JobData),
    /// A handle table plus a thread set.
    Process(ProcessData),
    /// An execution context.
    Thread(ThreadData),
    /// One endpoint of a message pipe.
    Channel(ChannelData),
    /// An address-range grant.
    Resource(ResourceData),
}

impl ObjectBody {
    /// The kind tag of this body.
    pub open spec fn kind(self) -> ObjectType {
        match self {
            ObjectBody::Dummy => ObjectType::Dummy,
            ObjectBody::Job(_) => ObjectType::Job,
            ObjectBody::Process(_) => ObjectType::Process,
            ObjectBody::Thread(_) => ObjectType::Thread,
            ObjectBody::Channel(_) => ObjectType::Channel,
            ObjectBody::Resource(_) => ObjectType::Resource,
        }
    }
}

/// One arena entry: the common base plus the kind-specific state.
pub struct KObject {
    /// Identity and name.
    pub base: KObjectBase,
    /// Kind-specific state.
    pub body: ObjectBody,
}

/// The whole kernel state: the object arena and the id counter.
///
/// Every public operation of the library is a function of a `Kernel` value;
/// the well-formedness predicate `wf` is established by `Kernel::new` and
/// preserved by every operation.
pub struct Kernel {
    /// Objects in order of creation; ids strictly increase with position.
    pub(crate) objects: Vec<KObject>,
    /// The next id to assign; strictly above every id in the arena.
    pub(crate) next_koid: KoID,
}

impl Kernel {
    /// The arena contents, in creation order.
    pub open(crate) spec fn objs(self) -> Seq<KObject> {
        self.objects@
    }

    /// The id the next created object will get.
    pub open(crate) spec fn spec_next_koid(self) -> KoID {
        self.next_koid
    }

    /// Ids are assigned from the counter, strictly increase with creation
    /// order, and are never reused.
    pub open spec fn ids_ok(self) -> bool {
        &&& FIRST_KOID <= self.spec_next_koid()
        &&& forall|i: int|
            0 <= i < self.objs().len() ==> (#[trigger] self.objs()[i]).base.id
                < self.spec_next_koid()
        &&& forall|i: int, j: int|
            0 <= i < j < self.objs().len() ==> (#[trigger] self.objs()[i]).base.id
                < (#[trigger] self.objs()[j]).base.id
    }

    /// Whether an object with this id exists.
    pub open spec fn has_obj(self, id: KoID) -> bool {
        exists|i: int| 0 <= i < self.objs().len() && (#[trigger] self.objs()[i]).base.id == id
    }

    /// The arena position of the object with this id.
    pub open spec fn idx_of(self, id: KoID) -> int {
        choose|i: int| 0 <= i < self.objs().len() && (#[trigger] self.objs()[i]).base.id == id
    }

    /// The object with this id.
    pub open spec fn obj_of(self, id: KoID) -> KObject {
        self.objs()[self.idx_of(id)]
    }

    /// The kind-specific state of the object with this id.
    pub open spec fn body_of(self, id: KoID) -> ObjectBody {
        self.obj_of(id).body
    }

    /// The kind of the object with this id.
    pub open spec fn kind_of(self, id: KoID) -> ObjectType {
        self.body_of(id).kind()
    }

    /// The name of the object with this id.
    pub open spec fn name_of(self, id: KoID) -> Seq<char> {
        self.obj_of(id).base.name@
    }

    /// Whether `id` names a job.
    pub open spec fn is_job(self, id: KoID) -> bool {
        self.has_obj(id) && self.kind_of(id) == ObjectType::Job
    }

    /// Whether `id` names a process.
    pub open spec fn is_process(self, id: KoID) -> bool {
        self.has_obj(id) && self.kind_of(id) == ObjectType::Process
    }

    /// Whether `id` names a thread.
    pub open spec fn is_thread(self, id: KoID) -> bool {
        self.has_obj(id) && self.kind_of(id) == ObjectType::Thread
    }

    /// Whether `id` names a channel endpoint.
    pub open spec fn is_channel(self, id: KoID) -> bool {
        self.has_obj(id) && self.kind_of(id) == ObjectType::Channel
    }

    /// Whether `id` names a placeholder object.
    pub open spec fn is_dummy(self, id: KoID) -> bool {
        self.has_obj(id) && self.kind_of(id) == ObjectType::Dummy
    }

    /// Whether `id` names a resource.
    pub open spec fn is_resource(self, id: KoID) -> bool {
        self.has_obj(id) && self.kind_of(id) == ObjectType::Resource
    }

    /// The arena position of `id` is unique and carries `id`.
    pub proof fn lemma_idx_of(self, id: KoID)
        requires
            self.ids_ok(),
            self.has_obj(id),
        ensures
            0 <= self.idx_of(id) < self.objs().len(),
            self.objs()[self.idx_of(id)].base.id == id,
            forall|i: int|
                0 <= i < self.objs().len() && (#[trigger] self.objs()[i]).base.id == id
                    ==> i == self.idx_of(id),
    {
        let w = self.idx_of(id);
        assert(0 <= w < self.objs().len() && self.objs()[w].base.id == id);
        assert forall|i: int|
            0 <= i < self.objs().len() && (#[trigger] self.objs()[i]).base.id == id
            implies i == w by {
            if i < w {
                assert(self.objs()[i].base.id < self.objs()[w].base.id);
            }
            if w < i {
                assert(self.objs()[w].base.id < self.objs()[i].base.id);
            }
        }
    }

    /// Distinct objects have distinct ids: the arena never holds the same
    /// id at two positions.
    pub proof fn lemma_object_ids_distinct(self)
        requires
            self.ids_ok(),
        ensures
            forall|i: int, j: int|
                0 <= i < self.objs().len() && 0 <= j < self.objs().len() && i != j
                    ==> (#[trigger] self.objs()[i]).base.id != (#[trigger] self.objs()[j]).base.id,
    {
    }

    /// The cross-object structure is sound: every stored id resolves to an
    /// object of the expected kind, every tree edge points from an older
    /// object to a younger one (parents are created before their children),
    /// and channel endpoints are mutual peers.
    pub open spec fn links_ok(self) -> bool {
        &&& forall|id: KoID| #[trigger]
            self.is_job(id) ==> (self.job_parent(id) matches Some(p) ==> self.is_job(p) && p
                < id)
        &&& forall|id: KoID, i: int|
            #![trigger self.job_children(id)[i]]
            self.is_job(id) && 0 <= i < self.job_children(id).len() ==> {
                let c = self.job_children(id)[i];
                self.is_job(c) && id < c
            }
        &&& forall|id: KoID, i: int|
            #![trigger self.job_processes(id)[i]]
            self.is_job(id) && 0 <= i < self.job_processes(id).len() ==> {
                let p = self.job_processes(id)[i];
                self.is_process(p) && id < p
            }
        &&& forall|id: KoID| #[trigger]
            self.is_process(id) ==> self.is_job(self.proc_job(id)) && self.proc_job(id) < id
        &&& forall|id: KoID, i: int|
            #![trigger self.proc_threads(id)[i]]
            self.is_process(id) && 0 <= i < self.proc_threads(id).len() ==> {
                let t = self.proc_threads(id)[i];
                self.is_thread(t) && id < t && self.thread_proc(t) == id
            }
        &&& forall|id: KoID| #[trigger]
            self.is_thread(id) ==> self.is_process(self.thread_proc(id)) && self.thread_proc(id)
                < id
        &&& forall|id: KoID| #[trigger]
            self.is_channel(id) ==> {
                let p = self.chan_peer(id);
                self.is_channel(p) && p != id && self.chan_peer(p) == id
            }
    }

    /// Kill is sticky and flows downward: under a killed job every listed
    /// child job is killed and every listed process has exited. The checks
    /// that refuse creation under a killed parent are exactly what keeps
    /// this true.
    pub open spec fn killed_ok(self) -> bool {
        &&& forall|id: KoID, i: int|
            #![trigger self.job_children(id)[i]]
            self.is_job(id) && self.job_killed(id) && 0 <= i < self.job_children(id).len()
                ==> self.job_killed(self.job_children(id)[i])
        &&& forall|id: KoID, i: int|
            #![trigger self.job_processes(id)[i]]
            self.is_job(id) && self.job_killed(id) && 0 <= i < self.job_processes(id).len()
                ==> self.proc_exited(self.job_processes(id)[i])
    }

    /// Freshly created objects get pairwise distinct, strictly increasing
    /// ids: where one creation takes the kernel from `k0` to `k1` making
    /// `a`, and a later creation takes `k1` to `k2` making `b`, the id `b`
    /// is strictly above `a`, and neither id was ever in use before its
    /// creation. Together with `lemma_object_ids_distinct` this pins down
    /// that id values are pairwise distinct and increase with creation
    /// order.
    pub proof fn lemma_creation_ids_increase(
        k0: Kernel,
        k1: Kernel,
        k2: Kernel,
        a: KoID,
        b: KoID,
    )
        requires
            Kernel::grows_by(k0, k1, a),
            Kernel::grows_by(k1, k2, b),
        ensures
            a < b,
            !k0.has_obj(a),
            !k1.has_obj(b),
            k2.has_obj(a) && k2.has_obj(b),
    {
        assert(k1.has_obj(a));
    }

    /// The full well-formedness of the kernel state.
    pub open spec fn wf(self) -> bool {
        self.ids_ok() && self.links_ok() && self.killed_ok()
    }

    /// What every step of the kill and termination cascade preserves: no
    /// object appears or disappears, ids, kinds, names, policies and the
    /// tree edges' targets stay; kill flags are sticky, exit codes are
    /// final, and the child, process and thread lists only lose members.
    pub open spec fn cascade_frame(pre: Kernel, post: Kernel) -> bool {
        &&& post.spec_next_koid() == pre.spec_next_koid()
        &&& forall|oid: KoID| #[trigger] post.has_obj(oid) <==> #[trigger] pre.has_obj(oid)
        &&& forall|oid: KoID|
            pre.has_obj(oid) ==> #[trigger] post.idx_of(oid) == pre.idx_of(oid)
        &&& forall|oid: KoID|
            pre.has_obj(oid) ==> #[trigger] post.kind_of(oid) == pre.kind_of(oid)
        &&& forall|oid: KoID|
            pre.has_obj(oid) ==> (#[trigger] post.obj_of(oid)).base == pre.obj_of(oid).base
        &&& forall|oid: KoID|
            pre.is_job(oid) ==> (#[trigger] post.job_data(oid)).parent == pre.job_data(oid).parent
                && post.job_data(oid).parent_policy == pre.job_data(oid).parent_policy
                && post.job_data(oid).policy == pre.job_data(oid).policy
        &&& forall|oid: KoID|
            pre.is_job(oid) && pre.job_killed(oid) ==> #[trigger] post.job_killed(oid)
        &&& forall|oid: KoID, c: KoID|
            pre.is_job(oid) && #[trigger] post.job_children(oid).contains(c)
                ==> pre.job_children(oid).contains(c)
        &&& forall|oid: KoID, p: KoID|
            pre.is_job(oid) && #[trigger] post.job_processes(oid).contains(p)
                ==> pre.job_processes(oid).contains(p)
        &&& forall|oid: KoID|
            pre.is_process(oid) ==> (#[trigger] post.proc_data(oid)).job == pre.proc_data(oid).job
                && post.proc_data(oid).policy == pre.proc_data(oid).policy
        &&& forall|oid: KoID|
            pre.is_process(oid) && pre.proc_exited(oid) ==> #[trigger] post.proc_status(oid)
                == pre.proc_status(oid)
        &&& forall|oid: KoID, t: KoID|
            pre.is_process(oid) && #[trigger] post.proc_threads(oid).contains(t)
                ==> pre.proc_threads(oid).contains(t)
        &&& forall|oid: KoID|
            pre.is_thread(oid) ==> (#[trigger] post.thread_data(oid)).proc == pre.thread_data(
                oid,
            ).proc
        &&& forall|oid: KoID|
            pre.is_thread(oid) && pre.thread_data(oid).state == ThreadState::Dying
                ==> (#[trigger] post.thread_data(oid)).state == ThreadState::Dying
                || post.thread_data(oid).state == ThreadState::Dead
        &&& forall|oid: KoID|
            pre.is_thread(oid) && pre.thread_data(oid).state == ThreadState::Dead
                ==> (#[trigger] post.thread_data(oid)).state == ThreadState::Dead
        &&& forall|oid: KoID|
            pre.is_channel(oid) ==> #[trigger] post.chan_data(oid) == pre.chan_data(oid)
    }

    /// What the termination cascade leaves alone entirely: every process
    /// and every thread keeps its whole state (the cascade edits only job
    /// objects).
    pub open spec fn tasks_untouched(pre: Kernel, post: Kernel) -> bool {
        &&& forall|oid: KoID|
            pre.is_process(oid) ==> #[trigger] post.proc_data(oid) == pre.proc_data(oid)
        &&& forall|oid: KoID|
            pre.is_thread(oid) ==> #[trigger] post.thread_data(oid) == pre.thread_data(oid)
    }

    /// Leaving processes and threads untouched composes across steps.
    pub proof fn lemma_tasks_untouched_trans(a: Kernel, b: Kernel, c: Kernel)
        requires
            Kernel::cascade_frame(a, b),
            Kernel::tasks_untouched(a, b),
            Kernel::tasks_untouched(b, c),
        ensures
            Kernel::tasks_untouched(a, c),
    {
        assert forall|oid: KoID| a.is_process(oid) implies #[trigger] c.proc_data(oid)
            == a.proc_data(oid) by {
            assert(b.kind_of(oid) == a.kind_of(oid));
            assert(b.is_process(oid));
            assert(b.proc_data(oid) == a.proc_data(oid));
        }
        assert forall|oid: KoID| a.is_thread(oid) implies #[trigger] c.thread_data(oid)
            == a.thread_data(oid) by {
            assert(b.kind_of(oid) == a.kind_of(oid));
            assert(b.is_thread(oid));
            assert(b.thread_data(oid) == a.thread_data(oid));
        }
    }

    /// The single-object frame relation composes across steps that touch
    /// the same object.
    pub proof fn lemma_objects_frame_trans(a: Kernel, b: Kernel, c: Kernel, id: KoID)
        requires
            Kernel::objects_frame(a, b, id),
            Kernel::objects_frame(b, c, id),
        ensures
            Kernel::objects_frame(a, c, id),
    {
        assert forall|oid: KoID| #[trigger] c.has_obj(oid) <==> #[trigger] a.has_obj(oid) by {
            assert(b.has_obj(oid) <==> a.has_obj(oid));
            assert(c.has_obj(oid) <==> b.has_obj(oid));
        }
        assert forall|oid: KoID| a.has_obj(oid) implies #[trigger] c.idx_of(oid) == a.idx_of(
            oid,
        ) by {
            assert(b.has_obj(oid));
            assert(b.idx_of(oid) == a.idx_of(oid));
        }
        assert forall|oid: KoID|
            a.has_obj(oid) && oid != id implies #[trigger] c.obj_of(oid) == a.obj_of(oid) by {
            assert(b.has_obj(oid));
            assert(b.obj_of(oid) == a.obj_of(oid));
        }
    }

    /// What stays the same when only the objects `a` and `b` are touched.
    pub open spec fn objects_frame2(pre: Kernel, post: Kernel, a: KoID, b: KoID) -> bool {
        &&& post.spec_next_koid() == pre.spec_next_koid()
        &&& forall|oid: KoID| #[trigger] post.has_obj(oid) <==> #[trigger] pre.has_obj(oid)
        &&& forall|oid: KoID|
            pre.has_obj(oid) ==> #[trigger] post.idx_of(oid) == pre.idx_of(oid)
        &&& forall|oid: KoID|
            pre.has_obj(oid) && oid != a && oid != b ==> #[trigger] post.obj_of(oid)
                == pre.obj_of(oid)
    }

    /// A single-object frame is also a two-object frame, whichever second
    /// object is named.
    pub proof fn lemma_objects_frame_widen(a: Kernel, b: Kernel, x: KoID, y: KoID)
        requires
            Kernel::objects_frame(a, b, x),
        ensures
            Kernel::objects_frame2(a, b, x, y),
            Kernel::objects_frame2(a, b, y, x),
    {
    }

    /// The two-object frame relation composes across steps that touch the
    /// same two objects.
    pub proof fn lemma_objects_frame2_trans(a: Kernel, b: Kernel, c: Kernel, x: KoID, y: KoID)
        requires
            Kernel::objects_frame2(a, b, x, y),
            Kernel::objects_frame2(b, c, x, y),
        ensures
            Kernel::objects_frame2(a, c, x, y),
    {
        assert forall|oid: KoID| #[trigger] c.has_obj(oid) <==> #[trigger] a.has_obj(oid) by {
            assert(b.has_obj(oid) <==> a.has_obj(oid));
            assert(c.has_obj(oid) <==> b.has_obj(oid));
        }
        assert forall|oid: KoID| a.has_obj(oid) implies #[trigger] c.idx_of(oid) == a.idx_of(
            oid,
        ) by {
            assert(b.has_obj(oid));
            assert(b.idx_of(oid) == a.idx_of(oid));
        }
        assert forall|oid: KoID|
            a.has_obj(oid) && oid != x && oid != y implies #[trigger] c.obj_of(oid) == a.obj_of(
            oid,
        ) by {
            assert(b.has_obj(oid));
            assert(b.obj_of(oid) == a.obj_of(oid));
        }
    }

    /// The cascade frame relation is reflexive.
    pub proof fn lemma_cascade_frame_refl(k: Kernel)
        ensures
            Kernel::cascade_frame(k, k),
    {
    }

    /// The cascade frame relation composes across consecutive steps.
    pub proof fn lemma_cascade_frame_trans(a: Kernel, b: Kernel, c: Kernel)
        requires
            Kernel::cascade_frame(a, b),
            Kernel::cascade_frame(b, c),
        ensures
            Kernel::cascade_frame(a, c),
    {
        assert forall|oid: KoID| #[trigger] c.has_obj(oid) <==> #[trigger] a.has_obj(oid) by {
            assert(b.has_obj(oid) <==> a.has_obj(oid));
            assert(c.has_obj(oid) <==> b.has_obj(oid));
        }
        assert forall|oid: KoID| a.has_obj(oid) implies #[trigger] c.kind_of(oid) == a.kind_of(
            oid,
        ) by {
            assert(b.has_obj(oid));
            assert(b.kind_of(oid) == a.kind_of(oid));
        }
        assert forall|oid: KoID| a.has_obj(oid) implies (#[trigger] c.obj_of(oid)).base
            == a.obj_of(oid).base by {
            assert(b.has_obj(oid));
            assert(b.obj_of(oid).base == a.obj_of(oid).base);
        }
        assert forall|oid: KoID| a.has_obj(oid) implies #[trigger] c.idx_of(oid) == a.idx_of(
            oid,
        ) by {
            assert(b.has_obj(oid));
            assert(b.idx_of(oid) == a.idx_of(oid));
        }
        assert forall|oid: KoID| a.is_job(oid) implies (#[trigger] c.job_data(oid)).parent
            == a.job_data(oid).parent && c.job_data(oid).parent_policy == a.job_data(
            oid,
        ).parent_policy && c.job_data(oid).policy == a.job_data(oid).policy by {
            assert(b.has_obj(oid) && b.kind_of(oid) == a.kind_of(oid));
            assert(b.is_job(oid));
            assert(b.job_data(oid).parent == a.job_data(oid).parent);
        }
        assert forall|oid: KoID| a.is_job(oid) && a.job_killed(oid) implies #[trigger] c.job_killed(
            oid,
        ) by {
            assert(b.is_job(oid));
            assert(b.job_killed(oid));
        }
        assert forall|oid: KoID, ch: KoID|
            a.is_job(oid) && #[trigger] c.job_children(oid).contains(ch) implies a.job_children(
            oid,
        ).contains(ch) by {
            assert(b.is_job(oid));
            assert(b.job_children(oid).contains(ch));
        }
        assert forall|oid: KoID, p: KoID|
            a.is_job(oid) && #[trigger] c.job_processes(oid).contains(p) implies a.job_processes(
            oid,
        ).contains(p) by {
            assert(b.is_job(oid));
            assert(b.job_processes(oid).contains(p));
        }
        assert forall|oid: KoID| a.is_process(oid) implies (#[trigger] c.proc_data(oid)).job
            == a.proc_data(oid).job && c.proc_data(oid).policy == a.proc_data(oid).policy by {
            assert(b.is_process(oid));
            assert(b.proc_data(oid).job == a.proc_data(oid).job);
        }
        assert forall|oid: KoID|
            a.is_process(oid) && a.proc_exited(oid) implies #[trigger] c.proc_status(oid)
            == a.proc_status(oid) by {
            assert(b.is_process(oid));
            assert(b.proc_status(oid) == a.proc_status(oid));
            assert(b.proc_exited(oid));
        }
        assert forall|oid: KoID, t: KoID|
            a.is_process(oid) && #[trigger] c.proc_threads(oid).contains(t) implies a.proc_threads(
            oid,
        ).contains(t) by {
            assert(b.is_process(oid));
            assert(b.proc_threads(oid).contains(t));
        }
        assert forall|oid: KoID| a.is_thread(oid) implies (#[trigger] c.thread_data(oid)).proc
            == a.thread_data(oid).proc by {
            assert(b.is_thread(oid));
            assert(b.thread_data(oid).proc == a.thread_data(oid).proc);
        }
        assert forall|oid: KoID|
            a.is_thread(oid) && a.thread_data(oid).state == ThreadState::Dying implies (
        #[trigger] c.thread_data(oid)).state == ThreadState::Dying || c.thread_data(oid).state
            == ThreadState::Dead by {
            assert(b.is_thread(oid));
            assert(b.thread_data(oid).state == ThreadState::Dying || b.thread_data(oid).state
                == ThreadState::Dead);
        }
        assert forall|oid: KoID|
            a.is_thread(oid) && a.thread_data(oid).state == ThreadState::Dead implies (
        #[trigger] c.thread_data(oid)).state == ThreadState::Dead by {
            assert(b.is_thread(oid));
            assert(b.thread_data(oid).state == ThreadState::Dead);
        }
        assert forall|oid: KoID| a.is_channel(oid) implies #[trigger] c.chan_data(oid)
            == a.chan_data(oid) by {
            assert(b.is_channel(oid));
            assert(b.chan_data(oid) == a.chan_data(oid));
        }
    }

    /// A fresh kernel: no objects, the id counter at its seed.
    pub fn new() -> (k: Kernel)
        ensures
            k.wf(),
            k.objs().len() == 0,
            k.spec_next_koid() == FIRST_KOID,
    {
        Kernel { objects: Vec::new(), next_koid: FIRST_KOID }
    }

    /// The arena position of the object with this id, if present.
    pub(crate) fn find(&self, id: KoID) -> (r: Option<usize>)
        requires
            self.ids_ok(),
        ensures
            match r {
                Some(i) => self.has_obj(id) && i == self.idx_of(id),
                None => !self.has_obj(id),
            },
    {
        let n = self.objects.len();
        let mut i: usize = 0;
        while i < n
            invariant
                n == self.objs().len(),
                0 <= i <= n,
                forall|j: int| 0 <= j < i ==> (#[trigger] self.objs()[j]).base.id != id,
                self.ids_ok(),
            decreases n - i,
        {
            if self.objects[i].base.id == id {
                proof {
                    self.lemma_idx_of(id);
                }
                return Some(i);
            }
            i = i + 1;
        }
        None
    }

    /// What stays the same when only the object `id` is touched: the id
    /// counter, which objects exist, their positions, and every other
    /// object's whole state.
    pub open spec fn objects_frame(pre: Kernel, post: Kernel, id: KoID) -> bool {
        &&& post.spec_next_koid() == pre.spec_next_koid()
        &&& post.objs().len() == pre.objs().len()
        &&& forall|oid: KoID| #[trigger] post.has_obj(oid) <==> #[trigger] pre.has_obj(oid)
        &&& forall|oid: KoID|
            pre.has_obj(oid) ==> #[trigger] post.idx_of(oid) == pre.idx_of(oid)
        &&& forall|oid: KoID|
            pre.has_obj(oid) && oid != id ==> #[trigger] post.obj_of(oid) == pre.obj_of(oid)
    }

    /// Replacing the entry at `id`'s position with one that carries the same
    /// id leaves the arena's id structure intact and every other object
    /// unchanged.
    pub proof fn lemma_update_frame(pre: Kernel, post: Kernel, id: KoID)
        requires
            pre.ids_ok(),
            pre.has_obj(id),
            post.spec_next_koid() == pre.spec_next_koid(),
            post.objs().len() == pre.objs().len(),
            forall|j: int|
                0 <= j < pre.objs().len() && j != pre.idx_of(id) ==> #[trigger] post.objs()[j]
                    == pre.objs()[j],
            post.objs()[pre.idx_of(id)].base.id == id,
        ensures
            post.ids_ok(),
            Kernel::objects_frame(pre, post, id),
            post.obj_of(id) == post.objs()[pre.idx_of(id)],
    {
        pre.lemma_idx_of(id);
        let w = pre.idx_of(id);
        assert forall|i: int| 0 <= i < post.objs().len() implies (#[trigger] post.objs()[i]).base.id
            == pre.objs()[i].base.id by {
            if i != w {
                assert(post.objs()[i] == pre.objs()[i]);
            }
        }
        assert forall|oid: KoID| #[trigger] post.has_obj(oid) <==> #[trigger] pre.has_obj(
            oid,
        ) by {
            if pre.has_obj(oid) {
                let i = pre.idx_of(oid);
                assert(post.objs()[i].base.id == oid);
            }
            if post.has_obj(oid) {
                let i = choose|i: int|
                    0 <= i < post.objs().len() && (#[trigger] post.objs()[i]).base.id == oid;
                assert(pre.objs()[i].base.id == oid);
            }
        }
        assert forall|oid: KoID| pre.has_obj(oid) implies #[trigger] post.idx_of(oid)
            == pre.idx_of(oid) by {
            pre.lemma_idx_of(oid);
            let i = pre.idx_of(oid);
            assert(post.objs()[i].base.id == oid);
            post.lemma_idx_of(oid);
        }
        assert forall|oid: KoID| pre.has_obj(oid) && oid != id implies #[trigger] post.obj_of(oid)
            == pre.obj_of(oid) by {
            pre.lemma_idx_of(oid);
            assert(pre.idx_of(oid) != w);
        }
        post.lemma_idx_of(id);
    }

    /// Where no link field of any object changed, the link structure stays
    /// sound.
    pub proof fn lemma_links_preserved(pre: Kernel, post: Kernel)
        requires
            pre.links_ok(),
            forall|id: KoID| #[trigger] post.has_obj(id) <==> #[trigger] pre.has_obj(id),
            forall|id: KoID|
                post.has_obj(id) ==> #[trigger] post.kind_of(id) == #[trigger] pre.kind_of(id),
            forall|id: KoID|
                pre.is_job(id) ==> #[trigger] post.job_data(id).parent == pre.job_data(id).parent
                    && post.job_data(id).children == pre.job_data(id).children
                    && post.job_data(id).processes == pre.job_data(id).processes,
            forall|id: KoID|
                pre.is_process(id) ==> #[trigger] post.proc_data(id).job == pre.proc_data(id).job
                    && post.proc_data(id).threads == pre.proc_data(id).threads,
            forall|id: KoID|
                pre.is_thread(id) ==> #[trigger] post.thread_data(id).proc == pre.thread_data(
                    id,
                ).proc,
            forall|id: KoID|
                pre.is_channel(id) ==> #[trigger] post.chan_data(id).peer == pre.chan_data(
                    id,
                ).peer,
        ensures
            post.links_ok(),
    {
        assert forall|id: KoID| #[trigger] post.is_job(id) implies (post.job_parent(id)
            matches Some(p) ==> post.is_job(p) && p < id) by {
            assert(pre.kind_of(id) == post.kind_of(id));
            assert(pre.is_job(id));
            assert(post.job_data(id).parent == pre.job_data(id).parent);
            if post.job_parent(id) is Some {
                let p = post.job_parent(id)->Some_0;
                assert(pre.is_job(p) && p < id);
                assert(pre.kind_of(p) == post.kind_of(p));
            }
        }
        assert forall|id: KoID, i: int|
            #![trigger post.job_children(id)[i]]
            post.is_job(id) && 0 <= i < post.job_children(id).len() implies {
            let c = post.job_children(id)[i];
            post.is_job(c) && id < c
        } by {
            assert(pre.kind_of(id) == post.kind_of(id));
            assert(pre.is_job(id));
            assert(post.job_data(id).children == pre.job_data(id).children);
            let c = pre.job_children(id)[i];
            assert(pre.is_job(c) && id < c);
            assert(pre.kind_of(c) == post.kind_of(c));
        }
        assert forall|id: KoID, i: int|
            #![trigger post.job_processes(id)[i]]
            post.is_job(id) && 0 <= i < post.job_processes(id).len() implies {
            let p = post.job_processes(id)[i];
            post.is_process(p) && id < p
        } by {
            assert(pre.kind_of(id) == post.kind_of(id));
            assert(pre.is_job(id));
            assert(post.job_data(id).processes == pre.job_data(id).processes);
            let p = pre.job_processes(id)[i];
            assert(pre.is_process(p) && id < p);
            assert(pre.kind_of(p) == post.kind_of(p));
        }
        assert forall|id: KoID| #[trigger] post.is_process(id) implies post.is_job(
            post.proc_job(id),
        ) && post.proc_job(id) < id by {
            assert(pre.kind_of(id) == post.kind_of(id));
            assert(pre.is_process(id));
            assert(post.proc_data(id).job == pre.proc_data(id).job);
            assert(pre.is_job(pre.proc_job(id)));
            assert(pre.kind_of(pre.proc_job(id)) == post.kind_of(pre.proc_job(id)));
        }
        assert forall|id: KoID, i: int|
            #![trigger post.proc_threads(id)[i]]
            post.is_process(id) && 0 <= i < post.proc_threads(id).len() implies {
            let t = post.proc_threads(id)[i];
            post.is_thread(t) && id < t && post.thread_proc(t) == id
        } by {
            assert(pre.kind_of(id) == post.kind_of(id));
            assert(pre.is_process(id));
            assert(post.proc_data(id).threads == pre.proc_data(id).threads);
            let t = pre.proc_threads(id)[i];
            assert(pre.is_thread(t) && id < t && pre.thread_proc(t) == id);
            assert(pre.kind_of(t) == post.kind_of(t));
            assert(post.thread_data(t).proc == pre.thread_data(t).proc);
        }
        assert forall|id: KoID| #[trigger] post.is_thread(id) implies post.is_process(
            post.thread_proc(id),
        ) && post.thread_proc(id) < id by {
            assert(pre.kind_of(id) == post.kind_of(id));
            assert(pre.is_thread(id));
            assert(post.thread_data(id).proc == pre.thread_data(id).proc);
            assert(pre.is_process(pre.thread_proc(id)));
            assert(pre.kind_of(pre.thread_proc(id)) == post.kind_of(pre.thread_proc(id)));
        }
        assert forall|id: KoID| #[trigger] post.is_channel(id) implies {
            let p = post.chan_peer(id);
            post.is_channel(p) && p != id && post.chan_peer(p) == id
        } by {
            assert(pre.kind_of(id) == post.kind_of(id));
            assert(pre.is_channel(id));
            assert(post.chan_data(id).peer == pre.chan_data(id).peer);
            let p = pre.chan_peer(id);
            assert(pre.is_channel(p) && p != id && pre.chan_peer(p) == id);
            assert(pre.kind_of(p) == post.kind_of(p));
            assert(post.chan_data(p).peer == pre.chan_data(p).peer);
        }
    }

    /// Where which jobs are killed and which processes have exited does not
    /// regress, and no list gains members, stickiness of kill is kept.
    pub proof fn lemma_killed_ok_preserved(pre: Kernel, post: Kernel)
        requires
            pre.links_ok(),
            pre.killed_ok(),
            forall|id: KoID| #[trigger] post.has_obj(id) <==> #[trigger] pre.has_obj(id),
            forall|id: KoID|
                pre.has_obj(id) ==> #[trigger] post.kind_of(id) == pre.kind_of(id),
            forall|id: KoID|
                pre.is_job(id) ==> #[trigger] post.job_killed(id) == pre.job_killed(id),
            forall|id: KoID, c: KoID|
                pre.is_job(id) && #[trigger] post.job_children(id).contains(c)
                    ==> pre.job_children(id).contains(c),
            forall|id: KoID, p: KoID|
                pre.is_job(id) && #[trigger] post.job_processes(id).contains(p)
                    ==> pre.job_processes(id).contains(p),
            forall|id: KoID|
                pre.is_process(id) && pre.proc_exited(id) ==> #[trigger] post.proc_exited(id),
        ensures
            post.killed_ok(),
    {
        assert forall|id: KoID, i: int|
            #![trigger post.job_children(id)[i]]
            post.is_job(id) && post.job_killed(id) && 0 <= i < post.job_children(id).len()
            implies post.job_killed(post.job_children(id)[i]) by {
            assert(pre.has_obj(id));
            assert(post.kind_of(id) == pre.kind_of(id));
            assert(pre.is_job(id));
            assert(post.job_killed(id) == pre.job_killed(id));
            let c = post.job_children(id)[i];
            assert(post.job_children(id).contains(c));
            assert(pre.job_children(id).contains(c));
            let j = choose|j: int|
                0 <= j < pre.job_children(id).len() && pre.job_children(id)[j] == c;
            assert(pre.job_killed(#[trigger] pre.job_children(id)[j]));
            assert(pre.is_job(c));
            assert(post.job_killed(c) == pre.job_killed(c));
        }
        assert forall|id: KoID, i: int|
            #![trigger post.job_processes(id)[i]]
            post.is_job(id) && post.job_killed(id) && 0 <= i < post.job_processes(id).len()
            implies post.proc_exited(post.job_processes(id)[i]) by {
            assert(pre.has_obj(id));
            assert(post.kind_of(id) == pre.kind_of(id));
            assert(pre.is_job(id));
            assert(post.job_killed(id) == pre.job_killed(id));
            let p = post.job_processes(id)[i];
            assert(post.job_processes(id).contains(p));
            assert(pre.job_processes(id).contains(p));
            let j = choose|j: int|
                0 <= j < pre.job_processes(id).len() && pre.job_processes(id)[j] == p;
            assert(pre.proc_exited(#[trigger] pre.job_processes(id)[j]));
            assert(pre.is_process(p));
            assert(post.proc_exited(p));
        }
    }

    /// The arena position of the object with this id.
    pub(crate) fn index_of_obj(&self, id: KoID) -> (i: usize)
        requires
            self.ids_ok(),
            self.has_obj(id),
        ensures
            i == self.idx_of(id),
            i < self.objs().len(),
            self.objs()[i as int].base.id == id,
    {
        proof {
            self.lemma_idx_of(id);
        }
        let r = self.find(id);
        match r {
            Some(i) => i,
            None => unreached(),
        }
    }

    /// The name of object `id`; shared state, read through any handle.
    pub fn object_name(&self, id: KoID) -> (r: String)
        requires
            self.ids_ok(),
            self.has_obj(id),
        ensures
            r@ == self.name_of(id),
    {
        let i = self.index_of_obj(id);
        proof {
            self.lemma_idx_of(id);
        }
        self.objects[i].base.name.clone()
    }

    /// Set the name of object `id`. The change is visible to every holder
    /// of any handle to the same object.
    pub fn set_object_name(&mut self, id: KoID, name: &str)
        requires
            old(self).wf(),
            old(self).has_obj(id),
        ensures
            final(self).wf(),
            Kernel::objects_frame(*old(self), *final(self), id),
            final(self).name_of(id) == name@,
            final(self).body_of(id) == old(self).body_of(id),
            final(self).obj_of(id).base.id == id,
    {
        let ghost pre = *self;
        let i = self.index_of_obj(id);
        proof {
            self.lemma_idx_of(id);
        }
        let e = &mut self.objects[i];
        e.base.name = name.to_owned();
        proof {
            Kernel::lemma_update_frame(pre, *self, id);
            Kernel::lemma_links_preserved(pre, *self);
            Kernel::lemma_killed_ok_preserved(pre, *self);
        }
    }

    /// Naming is shared state, not copied: any two handles to the same
    /// object read the same name, and a name set through one is visible
    /// through every other, because a handle refers to its object by id
    /// and the name lives with the object alone.
    pub proof fn lemma_name_aliases(self, a: Handle, b: Handle)
        requires
            a.object == b.object,
        ensures
            self.name_of(a.object) == self.name_of(b.object),
    {
    }

    /// The kind of object `id`, or `None` where no such object exists.
    pub fn object_type(&self, id: KoID) -> (r: Option<ObjectType>)
        requires
            self.ids_ok(),
        ensures
            match r {
                Some(t) => self.has_obj(id) && t == self.kind_of(id),
                None => !self.has_obj(id),
            },
    {
        let r = self.find(id);
        match r {
            Some(i) => {
                proof {
                    self.lemma_idx_of(id);
                }
                Some(
                    match &self.objects[i].body {
                        ObjectBody::Dummy => ObjectType::Dummy,
                        ObjectBody::Job(_) => ObjectType::Job,
                        ObjectBody::Process(_) => ObjectType::Process,
                        ObjectBody::Thread(_) => ObjectType::Thread,
                        ObjectBody::Channel(_) => ObjectType::Channel,
                        ObjectBody::Resource(_) => ObjectType::Resource,
                    },
                )
            },
            None => None,
        }
    }

    /// How the arena changes when one object is created: the new object gets
    /// the counter's id, the counter moves past it, and everything that
    /// existed stays.
    pub open spec fn grows_by(pre: Kernel, post: Kernel, id: KoID) -> bool {
        &&& id == pre.spec_next_koid()
        &&& post.spec_next_koid() == pre.spec_next_koid() + 1
        &&& !pre.has_obj(id)
        &&& post.has_obj(id)
        &&& forall|oid: KoID| pre.has_obj(oid) ==> #[trigger] post.has_obj(oid)
        &&& forall|oid: KoID| #[trigger] post.has_obj(oid) ==> oid == id || pre.has_obj(oid)
        &&& forall|oid: KoID|
            pre.has_obj(oid) ==> #[trigger] post.obj_of(oid) == pre.obj_of(oid)
    }

    /// How the arena changes when one object is created and one existing
    /// object is edited to register it: like `grows_by`, except that the
    /// object `touched` may change.
    pub open spec fn grows_by_touching(pre: Kernel, post: Kernel, id: KoID, touched: KoID) -> bool {
        &&& id == pre.spec_next_koid()
        &&& post.spec_next_koid() == pre.spec_next_koid() + 1
        &&& !pre.has_obj(id)
        &&& post.has_obj(id)
        &&& forall|oid: KoID| pre.has_obj(oid) ==> #[trigger] post.has_obj(oid)
        &&& forall|oid: KoID| #[trigger] post.has_obj(oid) ==> oid == id || pre.has_obj(oid)
        &&& forall|oid: KoID|
            pre.has_obj(oid) && oid != touched ==> #[trigger] post.obj_of(oid) == pre.obj_of(oid)
    }

    /// Every object's id lies below the id counter.
    pub proof fn lemma_id_bound(self, id: KoID)
        requires
            self.ids_ok(),
            self.has_obj(id),
        ensures
            id < self.spec_next_koid(),
    {
        self.lemma_idx_of(id);
    }

    /// Inserting a fresh object whose own links point to suitable existing
    /// objects keeps the link structure and kill stickiness sound.
    pub proof fn lemma_insert_preserves(pre: Kernel, post: Kernel, id: KoID)
        requires
            pre.links_ok(),
            pre.killed_ok(),
            Kernel::grows_by(pre, post, id),
            match post.body_of(id) {
                ObjectBody::Dummy => true,
                ObjectBody::Job(j) => {
                    &&& (j.parent matches Some(p) ==> pre.is_job(p) && p < id)
                    &&& j.children@.len() == 0
                    &&& j.processes@.len() == 0
                },
                ObjectBody::Process(p) => {
                    &&& pre.is_job(p.job) && p.job < id
                    &&& p.threads@.len() == 0
                },
                ObjectBody::Thread(t) => pre.is_process(t.proc) && t.proc < id,
                ObjectBody::Channel(_) => false,
                ObjectBody::Resource(_) => true,
            },
        ensures
            post.links_ok(),
            post.killed_ok(),
    {
        assert forall|oid: KoID| #[trigger] post.is_job(oid) implies (post.job_parent(oid)
            matches Some(p) ==> post.is_job(p) && p < oid) by {
            if oid != id {
                assert(pre.has_obj(oid));
                assert(post.obj_of(oid) == pre.obj_of(oid));
                assert(pre.is_job(oid));
                if pre.job_parent(oid) is Some {
                    let p = pre.job_parent(oid)->Some_0;
                    assert(pre.is_job(p));
                    assert(post.obj_of(p) == pre.obj_of(p));
                }
            } else {
                if post.job_parent(id) is Some {
                    let p = post.job_parent(id)->Some_0;
                    assert(pre.is_job(p));
                    assert(post.obj_of(p) == pre.obj_of(p));
                }
            }
        }
        assert forall|oid: KoID, i: int|
            #![trigger post.job_children(oid)[i]]
            post.is_job(oid) && 0 <= i < post.job_children(oid).len() implies {
            let c = post.job_children(oid)[i];
            post.is_job(c) && oid < c
        } by {
            assert(oid == id || pre.has_obj(oid));
            if oid != id {
                assert(post.obj_of(oid) == pre.obj_of(oid));
                assert(pre.is_job(oid));
                let c = pre.job_children(oid)[i];
                assert(pre.is_job(c));
                assert(post.obj_of(c) == pre.obj_of(c));
            }
        }
        assert forall|oid: KoID, i: int|
            #![trigger post.job_processes(oid)[i]]
            post.is_job(oid) && 0 <= i < post.job_processes(oid).len() implies {
            let p = post.job_processes(oid)[i];
            post.is_process(p) && oid < p
        } by {
            assert(oid == id || pre.has_obj(oid));
            if oid != id {
                assert(post.obj_of(oid) == pre.obj_of(oid));
                assert(pre.is_job(oid));
                let p = pre.job_processes(oid)[i];
                assert(pre.is_process(p));
                assert(post.obj_of(p) == pre.obj_of(p));
            }
        }
        assert forall|oid: KoID| #[trigger] post.is_process(oid) implies post.is_job(
            post.proc_job(oid),
        ) && post.proc_job(oid) < oid by {
            if oid != id {
                assert(post.obj_of(oid) == pre.obj_of(oid));
                assert(pre.is_process(oid));
                assert(pre.is_job(pre.proc_job(oid)));
                assert(post.obj_of(pre.proc_job(oid)) == pre.obj_of(pre.proc_job(oid)));
            } else {
                let j = post.proc_job(id);
                assert(pre.is_job(j));
                assert(post.obj_of(j) == pre.obj_of(j));
            }
        }
        assert forall|oid: KoID, i: int|
            #![trigger post.proc_threads(oid)[i]]
            post.is_process(oid) && 0 <= i < post.proc_threads(oid).len() implies {
            let t = post.proc_threads(oid)[i];
            post.is_thread(t) && oid < t && post.thread_proc(t) == oid
        } by {
            assert(oid == id || pre.has_obj(oid));
            if oid != id {
                assert(post.obj_of(oid) == pre.obj_of(oid));
                assert(pre.is_process(oid));
                let t = pre.proc_threads(oid)[i];
                assert(pre.is_thread(t));
                assert(post.obj_of(t) == pre.obj_of(t));
            }
        }
        assert forall|oid: KoID| #[trigger] post.is_thread(oid) implies post.is_process(
            post.thread_proc(oid),
        ) && post.thread_proc(oid) < oid by {
            if oid != id {
                assert(post.obj_of(oid) == pre.obj_of(oid));
                assert(pre.is_thread(oid));
                assert(pre.is_process(pre.thread_proc(oid)));
                assert(post.obj_of(pre.thread_proc(oid)) == pre.obj_of(pre.thread_proc(oid)));
            } else {
                let p = post.thread_data(id).proc;
                assert(pre.is_process(p));
                assert(post.obj_of(p) == pre.obj_of(p));
            }
        }
        assert forall|oid: KoID| #[trigger] post.is_channel(oid) implies {
            let p = post.chan_peer(oid);
            post.is_channel(p) && p != oid && post.chan_peer(p) == oid
        } by {
            assert(oid != id);
            assert(post.obj_of(oid) == pre.obj_of(oid));
            assert(pre.is_channel(oid));
            let p = pre.chan_peer(oid);
            assert(pre.is_channel(p));
            assert(post.obj_of(p) == pre.obj_of(p));
        }
        assert forall|oid: KoID, i: int|
            #![trigger post.job_children(oid)[i]]
            post.is_job(oid) && post.job_killed(oid) && 0 <= i < post.job_children(oid).len()
            implies post.job_killed(post.job_children(oid)[i]) by {
            if oid != id {
                assert(post.obj_of(oid) == pre.obj_of(oid));
                assert(pre.is_job(oid));
                let c = pre.job_children(oid)[i];
                assert(pre.job_killed(c));
                assert(pre.is_job(c));
                assert(post.obj_of(c) == pre.obj_of(c));
            }
        }
        assert forall|oid: KoID, i: int|
            #![trigger post.job_processes(oid)[i]]
            post.is_job(oid) && post.job_killed(oid) && 0 <= i < post.job_processes(oid).len()
            implies post.proc_exited(post.job_processes(oid)[i]) by {
            if oid != id {
                assert(post.obj_of(oid) == pre.obj_of(oid));
                assert(pre.is_job(oid));
                let p = pre.job_processes(oid)[i];
                assert(pre.proc_exited(p));
                assert(pre.is_process(p));
                assert(post.obj_of(p) == pre.obj_of(p));
            }
        }
    }

    /// Registering a fresh child job with an unkilled parent keeps the link
    /// structure and kill stickiness sound.
    pub proof fn lemma_push_child_preserves(pre: Kernel, post: Kernel, parent: KoID, c: KoID)
        requires
            pre.links_ok(),
            pre.killed_ok(),
            pre.is_job(parent),
            post.is_job(c),
            parent < c,
            !pre.job_killed(parent),
            Kernel::objects_frame(pre, post, parent),
            post.kind_of(parent) == pre.kind_of(parent),
            post.job_data(parent) == (JobData {
                children: post.job_data(parent).children,
                ..pre.job_data(parent)
            }),
            post.job_children(parent) == pre.job_children(parent).push(c),
        ensures
            post.links_ok(),
            post.killed_ok(),
    {
        assert forall|id: KoID|
            pre.has_obj(id) && id != parent implies #[trigger] post.body_of(id) == pre.body_of(
            id,
        ) by {
            assert(post.obj_of(id) == pre.obj_of(id));
        }
        assert forall|id: KoID| #[trigger] post.is_job(id) implies (post.job_parent(id)
            matches Some(p) ==> post.is_job(p) && p < id) by {
            assert(pre.is_job(id));
            if pre.job_parent(id) is Some {
                let p = pre.job_parent(id)->Some_0;
                assert(pre.is_job(p));
            }
        }
        assert forall|id: KoID, i: int|
            #![trigger post.job_children(id)[i]]
            post.is_job(id) && 0 <= i < post.job_children(id).len() implies {
            let ch = post.job_children(id)[i];
            post.is_job(ch) && id < ch
        } by {
            assert(pre.is_job(id));
            if id != parent {
                assert(post.body_of(id) == pre.body_of(id));
                let ch = pre.job_children(id)[i];
                assert(pre.is_job(ch));
            } else {
                if i < pre.job_children(parent).len() {
                    let ch = pre.job_children(parent)[i];
                    assert(post.job_children(parent)[i] == ch);
                    assert(pre.is_job(ch));
                } else {
                    assert(post.job_children(parent)[i] == c);
                }
            }
        }
        assert forall|id: KoID, i: int|
            #![trigger post.job_processes(id)[i]]
            post.is_job(id) && 0 <= i < post.job_processes(id).len() implies {
            let p = post.job_processes(id)[i];
            post.is_process(p) && id < p
        } by {
            assert(pre.is_job(id));
            assert(post.job_processes(id) == pre.job_processes(id));
            let p = pre.job_processes(id)[i];
            assert(pre.is_process(p));
        }
        assert forall|id: KoID| #[trigger] post.is_process(id) implies post.is_job(
            post.proc_job(id),
        ) && post.proc_job(id) < id by {
            assert(pre.is_process(id));
            assert(post.body_of(id) == pre.body_of(id));
            assert(pre.is_job(pre.proc_job(id)));
        }
        assert forall|id: KoID, i: int|
            #![trigger post.proc_threads(id)[i]]
            post.is_process(id) && 0 <= i < post.proc_threads(id).len() implies {
            let t = post.proc_threads(id)[i];
            post.is_thread(t) && id < t && post.thread_proc(t) == id
        } by {
            assert(pre.is_process(id));
            assert(post.body_of(id) == pre.body_of(id));
            let t = pre.proc_threads(id)[i];
            assert(pre.is_thread(t));
            assert(post.body_of(t) == pre.body_of(t));
        }
        assert forall|id: KoID| #[trigger] post.is_thread(id) implies post.is_process(
            post.thread_proc(id),
        ) && post.thread_proc(id) < id by {
            assert(pre.is_thread(id));
            assert(post.body_of(id) == pre.body_of(id));
            assert(pre.is_process(pre.thread_proc(id)));
        }
        assert forall|id: KoID| #[trigger] post.is_channel(id) implies {
            let p = post.chan_peer(id);
            post.is_channel(p) && p != id && post.chan_peer(p) == id
        } by {
            assert(pre.is_channel(id));
            assert(post.body_of(id) == pre.body_of(id));
            let p = pre.chan_peer(id);
            assert(pre.is_channel(p));
            assert(post.body_of(p) == pre.body_of(p));
        }
        assert forall|id: KoID, i: int|
            #![trigger post.job_children(id)[i]]
            post.is_job(id) && post.job_killed(id) && 0 <= i < post.job_children(id).len()
            implies post.job_killed(post.job_children(id)[i]) by {
            assert(pre.is_job(id));
            if id != parent {
                assert(post.body_of(id) == pre.body_of(id));
                let ch = pre.job_children(id)[i];
                assert(pre.job_killed(ch));
                assert(pre.is_job(ch));
                if ch != parent {
                    assert(post.body_of(ch) == pre.body_of(ch));
                } else {
                    assert(post.job_data(ch).killed == pre.job_data(ch).killed);
                }
            } else {
                assert(post.job_data(parent).killed == pre.job_data(parent).killed);
                assert(!post.job_killed(parent));
            }
        }
        assert forall|id: KoID, i: int|
            #![trigger post.job_processes(id)[i]]
            post.is_job(id) && post.job_killed(id) && 0 <= i < post.job_processes(id).len()
            implies post.proc_exited(post.job_processes(id)[i]) by {
            assert(pre.is_job(id));
            if id != parent {
                assert(post.body_of(id) == pre.body_of(id));
                let p = pre.job_processes(id)[i];
                assert(pre.proc_exited(p));
                assert(pre.is_process(p));
                assert(post.body_of(p) == pre.body_of(p));
            } else {
                assert(!post.job_killed(parent));
            }
        }
    }

    /// What a change local to object `id` may do without disturbing the
    /// link structure: keep the object's kind and every field that carries
    /// a link, and only drop members from its lists.
    pub open spec fn local_change_ok(pre: Kernel, post: Kernel, id: KoID) -> bool {
        &&& post.kind_of(id) == pre.kind_of(id)
        &&& (pre.is_job(id) ==> {
            &&& post.job_data(id).parent == pre.job_data(id).parent
            &&& post.job_data(id).parent_policy == pre.job_data(id).parent_policy
            &&& post.job_data(id).policy == pre.job_data(id).policy
            &&& forall|c: KoID| #[trigger]
                post.job_children(id).contains(c) ==> pre.job_children(id).contains(c)
            &&& forall|p: KoID| #[trigger]
                post.job_processes(id).contains(p) ==> pre.job_processes(id).contains(p)
        })
        &&& (pre.is_process(id) ==> {
            &&& post.proc_data(id).job == pre.proc_data(id).job
            &&& post.proc_data(id).policy == pre.proc_data(id).policy
            &&& forall|t: KoID| #[trigger]
                post.proc_threads(id).contains(t) ==> pre.proc_threads(id).contains(t)
            &&& (pre.proc_exited(id) ==> post.proc_status(id) == pre.proc_status(id))
        })
        &&& (pre.is_thread(id) ==> post.thread_data(id).proc == pre.thread_data(id).proc)
        &&& (pre.is_channel(id) ==> post.chan_data(id).peer == pre.chan_data(id).peer)
    }

    /// A change local to one object that keeps its kind and link fields and
    /// only shrinks its lists preserves the link structure; where it also
    /// keeps the kill flag, kill stickiness is preserved too.
    pub proof fn lemma_local_change_preserves(pre: Kernel, post: Kernel, id: KoID)
        requires
            pre.links_ok(),
            pre.killed_ok(),
            pre.has_obj(id),
            Kernel::objects_frame(pre, post, id),
            Kernel::local_change_ok(pre, post, id),
            pre.is_job(id) ==> post.job_data(id).killed == pre.job_data(id).killed,
        ensures
            post.links_ok(),
            post.killed_ok(),
    {
        assert forall|oid: KoID|
            pre.has_obj(oid) && oid != id implies #[trigger] post.body_of(oid) == pre.body_of(
            oid,
        ) by {
            assert(post.obj_of(oid) == pre.obj_of(oid));
        }
        assert forall|oid: KoID|
            pre.has_obj(oid) implies #[trigger] post.kind_of(oid) == pre.kind_of(oid) by {
            if oid != id {
                assert(post.body_of(oid) == pre.body_of(oid));
            }
        }
        assert forall|oid: KoID| #[trigger] post.is_job(oid) implies (post.job_parent(oid)
            matches Some(q) ==> post.is_job(q) && q < oid) by {
            assert(pre.is_job(oid));
            if post.job_parent(oid) is Some {
                let q = post.job_parent(oid)->Some_0;
                assert(pre.job_parent(oid) == post.job_parent(oid));
                assert(pre.is_job(q));
            }
        }
        assert forall|oid: KoID, i: int|
            #![trigger post.job_children(oid)[i]]
            post.is_job(oid) && 0 <= i < post.job_children(oid).len() implies {
            let ch = post.job_children(oid)[i];
            post.is_job(ch) && oid < ch
        } by {
            assert(pre.is_job(oid));
            let ch = post.job_children(oid)[i];
            assert(post.job_children(oid).contains(ch));
            assert(pre.job_children(oid).contains(ch));
            let w = choose|w: int|
                0 <= w < pre.job_children(oid).len() && pre.job_children(oid)[w] == ch;
            assert(pre.is_job(#[trigger] pre.job_children(oid)[w]) && oid < ch);
        }
        assert forall|oid: KoID, i: int|
            #![trigger post.job_processes(oid)[i]]
            post.is_job(oid) && 0 <= i < post.job_processes(oid).len() implies {
            let p = post.job_processes(oid)[i];
            post.is_process(p) && oid < p
        } by {
            assert(pre.is_job(oid));
            let p = post.job_processes(oid)[i];
            assert(post.job_processes(oid).contains(p));
            assert(pre.job_processes(oid).contains(p));
            let w = choose|w: int|
                0 <= w < pre.job_processes(oid).len() && pre.job_processes(oid)[w] == p;
            assert(pre.is_process(#[trigger] pre.job_processes(oid)[w]) && oid < p);
        }
        assert forall|oid: KoID| #[trigger] post.is_process(oid) implies post.is_job(
            post.proc_job(oid),
        ) && post.proc_job(oid) < oid by {
            assert(pre.is_process(oid));
            assert(post.proc_data(oid).job == pre.proc_data(oid).job);
            assert(pre.is_job(pre.proc_job(oid)));
        }
        assert forall|oid: KoID, i: int|
            #![trigger post.proc_threads(oid)[i]]
            post.is_process(oid) && 0 <= i < post.proc_threads(oid).len() implies {
            let t = post.proc_threads(oid)[i];
            post.is_thread(t) && oid < t && post.thread_proc(t) == oid
        } by {
            assert(pre.is_process(oid));
            let t = post.proc_threads(oid)[i];
            assert(post.proc_threads(oid).contains(t));
            assert(pre.proc_threads(oid).contains(t));
            let w = choose|w: int|
                0 <= w < pre.proc_threads(oid).len() && pre.proc_threads(oid)[w] == t;
            assert(pre.is_thread(#[trigger] pre.proc_threads(oid)[w]) && oid < t
                && pre.thread_proc(t) == oid);
            assert(post.thread_data(t).proc == pre.thread_data(t).proc);
        }
        assert forall|oid: KoID| #[trigger] post.is_thread(oid) implies post.is_process(
            post.thread_proc(oid),
        ) && post.thread_proc(oid) < oid by {
            assert(pre.is_thread(oid));
            assert(post.thread_data(oid).proc == pre.thread_data(oid).proc);
            assert(pre.is_process(pre.thread_proc(oid)));
        }
        assert forall|oid: KoID| #[trigger] post.is_channel(oid) implies {
            let q = post.chan_peer(oid);
            post.is_channel(q) && q != oid && post.chan_peer(q) == oid
        } by {
            assert(pre.is_channel(oid));
            assert(post.chan_data(oid).peer == pre.chan_data(oid).peer);
            let q = pre.chan_peer(oid);
            assert(pre.is_channel(q));
            assert(post.chan_data(q).peer == pre.chan_data(q).peer);
        }
        assert forall|oid: KoID, i: int|
            #![trigger post.job_children(oid)[i]]
            post.is_job(oid) && post.job_killed(oid) && 0 <= i < post.job_children(oid).len()
            implies post.job_killed(post.job_children(oid)[i]) by {
            assert(pre.is_job(oid));
            assert(pre.job_killed(oid) == post.job_killed(oid));
            let ch = post.job_children(oid)[i];
            assert(post.job_children(oid).contains(ch));
            assert(pre.job_children(oid).contains(ch));
            let w = choose|w: int|
                0 <= w < pre.job_children(oid).len() && pre.job_children(oid)[w] == ch;
            assert(pre.job_killed(#[trigger] pre.job_children(oid)[w]));
            assert(pre.is_job(ch));
            assert(post.job_data(ch).killed == pre.job_data(ch).killed);
        }
        assert forall|oid: KoID, i: int|
            #![trigger post.job_processes(oid)[i]]
            post.is_job(oid) && post.job_killed(oid) && 0 <= i < post.job_processes(oid).len()
            implies post.proc_exited(post.job_processes(oid)[i]) by {
            assert(pre.is_job(oid));
            assert(pre.job_killed(oid) == post.job_killed(oid));
            let p = post.job_processes(oid)[i];
            assert(post.job_processes(oid).contains(p));
            assert(pre.job_processes(oid).contains(p));
            let w = choose|w: int|
                0 <= w < pre.job_processes(oid).len() && pre.job_processes(oid)[w] == p;
            assert(pre.proc_exited(#[trigger] pre.job_processes(oid)[w]));
            assert(pre.is_process(p));
            assert(post.proc_status(p) == pre.proc_status(p));
        }
    }

    /// A change local to one object that keeps the cascade frame's
    /// per-object conditions yields the cascade frame for the whole step.
    pub proof fn lemma_cascade_frame_local(pre: Kernel, post: Kernel, id: KoID)
        requires
            pre.has_obj(id),
            Kernel::objects_frame(pre, post, id),
            Kernel::local_change_ok(pre, post, id),
            post.obj_of(id).base == pre.obj_of(id).base,
            pre.is_job(id) && pre.job_killed(id) ==> post.job_killed(id),
            pre.is_thread(id) && pre.thread_data(id).state == ThreadState::Dying
                ==> post.thread_data(id).state == ThreadState::Dying || post.thread_data(
                id,
            ).state == ThreadState::Dead,
            pre.is_thread(id) && pre.thread_data(id).state == ThreadState::Dead
                ==> post.thread_data(id).state == ThreadState::Dead,
            pre.is_channel(id) ==> post.chan_data(id) == pre.chan_data(id),
        ensures
            Kernel::cascade_frame(pre, post),
    {
        assert forall|oid: KoID|
            pre.has_obj(oid) && oid != id implies #[trigger] post.obj_of(oid) == pre.obj_of(
            oid,
        ) by {}
        assert forall|oid: KoID|
            pre.has_obj(oid) implies #[trigger] post.kind_of(oid) == pre.kind_of(oid) by {
            if oid != id {
                assert(post.obj_of(oid) == pre.obj_of(oid));
            }
        }
        assert forall|oid: KoID|
            pre.has_obj(oid) implies (#[trigger] post.obj_of(oid)).base == pre.obj_of(
            oid,
        ).base by {
            if oid != id {
                assert(post.obj_of(oid) == pre.obj_of(oid));
            }
        }
    }

    /// Setting the kill flag on a job whose listed children are all killed
    /// and whose listed processes have all exited keeps the link structure
    /// and kill stickiness sound.
    pub proof fn lemma_kill_flag_preserves(pre: Kernel, post: Kernel, j: KoID)
        requires
            pre.links_ok(),
            pre.killed_ok(),
            pre.is_job(j),
            Kernel::objects_frame(pre, post, j),
            post.kind_of(j) == pre.kind_of(j),
            post.job_data(j) == (JobData { killed: true, ..pre.job_data(j) }),
            forall|c: KoID| #[trigger] pre.job_children(j).contains(c) ==> pre.job_killed(c),
            forall|p: KoID| #[trigger] pre.job_processes(j).contains(p) ==> pre.proc_exited(p),
        ensures
            post.links_ok(),
            post.killed_ok(),
    {
        assert(Kernel::local_change_ok(pre, post, j));
        assert forall|oid: KoID|
            pre.has_obj(oid) && oid != j implies #[trigger] post.body_of(oid) == pre.body_of(
            oid,
        ) by {
            assert(post.obj_of(oid) == pre.obj_of(oid));
        }
        assert forall|id: KoID| #[trigger] post.is_job(id) implies (post.job_parent(id)
            matches Some(q) ==> post.is_job(q) && q < id) by {
            assert(pre.is_job(id));
            if post.job_parent(id) is Some {
                let q = post.job_parent(id)->Some_0;
                assert(pre.job_parent(id) == post.job_parent(id));
                assert(pre.is_job(q));
            }
        }
        assert forall|id: KoID, i: int|
            #![trigger post.job_children(id)[i]]
            post.is_job(id) && 0 <= i < post.job_children(id).len() implies {
            let ch = post.job_children(id)[i];
            post.is_job(ch) && id < ch
        } by {
            assert(pre.is_job(id));
            assert(post.job_children(id) == pre.job_children(id));
            let ch = pre.job_children(id)[i];
            assert(pre.is_job(ch) && id < ch);
        }
        assert forall|id: KoID, i: int|
            #![trigger post.job_processes(id)[i]]
            post.is_job(id) && 0 <= i < post.job_processes(id).len() implies {
            let p = post.job_processes(id)[i];
            post.is_process(p) && id < p
        } by {
            assert(pre.is_job(id));
            assert(post.job_processes(id) == pre.job_processes(id));
            let p = pre.job_processes(id)[i];
            assert(pre.is_process(p) && id < p);
        }
        assert forall|id: KoID| #[trigger] post.is_process(id) implies post.is_job(
            post.proc_job(id),
        ) && post.proc_job(id) < id by {
            assert(pre.is_process(id));
            assert(post.body_of(id) == pre.body_of(id));
            assert(pre.is_job(pre.proc_job(id)));
        }
        assert forall|id: KoID, i: int|
            #![trigger post.proc_threads(id)[i]]
            post.is_process(id) && 0 <= i < post.proc_threads(id).len() implies {
            let t = post.proc_threads(id)[i];
            post.is_thread(t) && id < t && post.thread_proc(t) == id
        } by {
            assert(pre.is_process(id));
            assert(post.body_of(id) == pre.body_of(id));
            let t = pre.proc_threads(id)[i];
            assert(pre.is_thread(t));
            assert(post.body_of(t) == pre.body_of(t));
        }
        assert forall|id: KoID| #[trigger] post.is_thread(id) implies post.is_process(
            post.thread_proc(id),
        ) && post.thread_proc(id) < id by {
            assert(pre.is_thread(id));
            assert(post.body_of(id) == pre.body_of(id));
            assert(pre.is_process(pre.thread_proc(id)));
        }
        assert forall|id: KoID| #[trigger] post.is_channel(id) implies {
            let q = post.chan_peer(id);
            post.is_channel(q) && q != id && post.chan_peer(q) == id
        } by {
            assert(pre.is_channel(id));
            assert(post.body_of(id) == pre.body_of(id));
            let q = pre.chan_peer(id);
            assert(pre.is_channel(q));
            assert(post.body_of(q) == pre.body_of(q));
        }
        assert forall|id: KoID, i: int|
            #![trigger post.job_children(id)[i]]
            post.is_job(id) && post.job_killed(id) && 0 <= i < post.job_children(id).len()
            implies post.job_killed(post.job_children(id)[i]) by {
            assert(pre.is_job(id));
            assert(post.job_children(id) == pre.job_children(id));
            let ch = pre.job_children(id)[i];
            assert(pre.job_children(id).contains(ch));
            assert(pre.is_job(ch));
            if id == j {
                assert(pre.job_killed(ch));
            } else {
                assert(post.body_of(id) == pre.body_of(id));
                assert(pre.job_killed(id));
                assert(pre.job_killed(ch));
            }
            if ch != j {
                assert(post.body_of(ch) == pre.body_of(ch));
            } else {
                assert(post.job_data(ch).killed);
            }
        }
        assert forall|id: KoID, i: int|
            #![trigger post.job_processes(id)[i]]
            post.is_job(id) && post.job_killed(id) && 0 <= i < post.job_processes(id).len()
            implies post.proc_exited(post.job_processes(id)[i]) by {
            assert(pre.is_job(id));
            assert(post.job_processes(id) == pre.job_processes(id));
            let p = pre.job_processes(id)[i];
            assert(pre.job_processes(id).contains(p));
            assert(pre.is_process(p));
            if id == j {
                assert(pre.proc_exited(p));
            } else {
                assert(post.body_of(id) == pre.body_of(id));
                assert(pre.job_killed(id));
                assert(pre.proc_exited(p));
            }
            assert(post.body_of(p) == pre.body_of(p));
        }
    }

    /// Registering a fresh process with an unkilled job keeps the link
    /// structure and kill stickiness sound.
    pub proof fn lemma_push_process_preserves(pre: Kernel, post: Kernel, parent: KoID, p: KoID)
        requires
            pre.links_ok(),
            pre.killed_ok(),
            pre.is_job(parent),
            post.is_process(p),
            parent < p,
            !pre.job_killed(parent),
            Kernel::objects_frame(pre, post, parent),
            post.kind_of(parent) == pre.kind_of(parent),
            post.job_data(parent) == (JobData {
                processes: post.job_data(parent).processes,
                ..pre.job_data(parent)
            }),
            post.job_processes(parent) == pre.job_processes(parent).push(p),
        ensures
            post.links_ok(),
            post.killed_ok(),
    {
        assert forall|id: KoID|
            pre.has_obj(id) && id != parent implies #[trigger] post.body_of(id) == pre.body_of(
            id,
        ) by {
            assert(post.obj_of(id) == pre.obj_of(id));
        }
        assert forall|id: KoID| #[trigger] post.is_job(id) implies (post.job_parent(id)
            matches Some(q) ==> post.is_job(q) && q < id) by {
            assert(pre.is_job(id));
            if pre.job_parent(id) is Some {
                let q = pre.job_parent(id)->Some_0;
                assert(pre.is_job(q));
            }
        }
        assert forall|id: KoID, i: int|
            #![trigger post.job_children(id)[i]]
            post.is_job(id) && 0 <= i < post.job_children(id).len() implies {
            let ch = post.job_children(id)[i];
            post.is_job(ch) && id < ch
        } by {
            assert(pre.is_job(id));
            assert(post.job_children(id) == pre.job_children(id));
            let ch = pre.job_children(id)[i];
            assert(pre.is_job(ch));
        }
        assert forall|id: KoID, i: int|
            #![trigger post.job_processes(id)[i]]
            post.is_job(id) && 0 <= i < post.job_processes(id).len() implies {
            let q = post.job_processes(id)[i];
            post.is_process(q) && id < q
        } by {
            assert(pre.is_job(id));
            if id != parent {
                assert(post.body_of(id) == pre.body_of(id));
                let q = pre.job_processes(id)[i];
                assert(pre.is_process(q));
            } else {
                if i < pre.job_processes(parent).len() {
                    let q = pre.job_processes(parent)[i];
                    assert(post.job_processes(parent)[i] == q);
                    assert(pre.is_process(q));
                } else {
                    assert(post.job_processes(parent)[i] == p);
                }
            }
        }
        assert forall|id: KoID| #[trigger] post.is_process(id) implies post.is_job(
            post.proc_job(id),
        ) && post.proc_job(id) < id by {
            assert(pre.is_process(id));
            assert(post.body_of(id) == pre.body_of(id));
            assert(pre.is_job(pre.proc_job(id)));
        }
        assert forall|id: KoID, i: int|
            #![trigger post.proc_threads(id)[i]]
            post.is_process(id) && 0 <= i < post.proc_threads(id).len() implies {
            let t = post.proc_threads(id)[i];
            post.is_thread(t) && id < t && post.thread_proc(t) == id
        } by {
            assert(pre.is_process(id));
            assert(post.body_of(id) == pre.body_of(id));
            let t = pre.proc_threads(id)[i];
            assert(pre.is_thread(t));
            assert(post.body_of(t) == pre.body_of(t));
        }
        assert forall|id: KoID| #[trigger] post.is_thread(id) implies post.is_process(
            post.thread_proc(id),
        ) && post.thread_proc(id) < id by {
            assert(pre.is_thread(id));
            assert(post.body_of(id) == pre.body_of(id));
            assert(pre.is_process(pre.thread_proc(id)));
        }
        assert forall|id: KoID| #[trigger] post.is_channel(id) implies {
            let q = post.chan_peer(id);
            post.is_channel(q) && q != id && post.chan_peer(q) == id
        } by {
            assert(pre.is_channel(id));
            assert(post.body_of(id) == pre.body_of(id));
            let q = pre.chan_peer(id);
            assert(pre.is_channel(q));
            assert(post.body_of(q) == pre.body_of(q));
        }
        assert forall|id: KoID, i: int|
            #![trigger post.job_children(id)[i]]
            post.is_job(id) && post.job_killed(id) && 0 <= i < post.job_children(id).len()
            implies post.job_killed(post.job_children(id)[i]) by {
            assert(pre.is_job(id));
            assert(post.job_children(id) == pre.job_children(id));
            assert(post.job_data(id).killed == pre.job_data(id).killed);
            let ch = pre.job_children(id)[i];
            assert(pre.job_killed(ch));
            assert(pre.is_job(ch));
            if ch != parent {
                assert(post.body_of(ch) == pre.body_of(ch));
            } else {
                assert(post.job_data(ch).killed == pre.job_data(ch).killed);
            }
        }
        assert forall|id: KoID, i: int|
            #![trigger post.job_processes(id)[i]]
            post.is_job(id) && post.job_killed(id) && 0 <= i < post.job_processes(id).len()
            implies post.proc_exited(post.job_processes(id)[i]) by {
            assert(pre.is_job(id));
            assert(post.job_data(id).killed == pre.job_data(id).killed);
            if id != parent {
                assert(post.body_of(id) == pre.body_of(id));
                let q = pre.job_processes(id)[i];
                assert(pre.proc_exited(q));
                assert(pre.is_process(q));
                assert(post.body_of(q) == pre.body_of(q));
            } else {
                assert(!post.job_killed(parent));
            }
        }
    }

    /// Registering a fresh thread with a process keeps the link structure
    /// and kill stickiness sound.
    pub proof fn lemma_push_thread_preserves(pre: Kernel, post: Kernel, parent: KoID, t: KoID)
        requires
            pre.links_ok(),
            pre.killed_ok(),
            pre.is_process(parent),
            post.is_thread(t),
            parent < t,
            post.thread_data(t).proc == parent,
            Kernel::objects_frame(pre, post, parent),
            post.kind_of(parent) == pre.kind_of(parent),
            post.proc_data(parent) == (ProcessData {
                threads: post.proc_data(parent).threads,
                ..pre.proc_data(parent)
            }),
            post.proc_threads(parent) == pre.proc_threads(parent).push(t),
        ensures
            post.links_ok(),
            post.killed_ok(),
    {
        assert forall|id: KoID|
            pre.has_obj(id) && id != parent implies #[trigger] post.body_of(id) == pre.body_of(
            id,
        ) by {
            assert(post.obj_of(id) == pre.obj_of(id));
        }
        assert forall|id: KoID| #[trigger] post.is_job(id) implies (post.job_parent(id)
            matches Some(q) ==> post.is_job(q) && q < id) by {
            assert(pre.is_job(id));
            if pre.job_parent(id) is Some {
                let q = pre.job_parent(id)->Some_0;
                assert(pre.is_job(q));
            }
        }
        assert forall|id: KoID, i: int|
            #![trigger post.job_children(id)[i]]
            post.is_job(id) && 0 <= i < post.job_children(id).len() implies {
            let ch = post.job_children(id)[i];
            post.is_job(ch) && id < ch
        } by {
            assert(pre.is_job(id));
            assert(post.body_of(id) == pre.body_of(id));
            let ch = pre.job_children(id)[i];
            assert(pre.is_job(ch));
        }
        assert forall|id: KoID, i: int|
            #![trigger post.job_processes(id)[i]]
            post.is_job(id) && 0 <= i < post.job_processes(id).len() implies {
            let q = post.job_processes(id)[i];
            post.is_process(q) && id < q
        } by {
            assert(pre.is_job(id));
            assert(post.body_of(id) == pre.body_of(id));
            let q = pre.job_processes(id)[i];
            assert(pre.is_process(q));
        }
        assert forall|id: KoID| #[trigger] post.is_process(id) implies post.is_job(
            post.proc_job(id),
        ) && post.proc_job(id) < id by {
            assert(pre.is_process(id));
            if id != parent {
                assert(post.body_of(id) == pre.body_of(id));
            } else {
                assert(post.proc_data(id).job == pre.proc_data(id).job);
            }
            assert(pre.is_job(pre.proc_job(id)));
        }
        assert forall|id: KoID, i: int|
            #![trigger post.proc_threads(id)[i]]
            post.is_process(id) && 0 <= i < post.proc_threads(id).len() implies {
            let th = post.proc_threads(id)[i];
            post.is_thread(th) && id < th && post.thread_proc(th) == id
        } by {
            assert(pre.is_process(id));
            if id != parent {
                assert(post.body_of(id) == pre.body_of(id));
                let th = pre.proc_threads(id)[i];
                assert(pre.is_thread(th));
                assert(post.body_of(th) == pre.body_of(th));
            } else {
                if i < pre.proc_threads(parent).len() {
                    let th = pre.proc_threads(parent)[i];
                    assert(post.proc_threads(parent)[i] == th);
                    assert(pre.is_thread(th));
                    assert(post.body_of(th) == pre.body_of(th));
                } else {
                    assert(post.proc_threads(parent)[i] == t);
                }
            }
        }
        assert forall|id: KoID| #[trigger] post.is_thread(id) implies post.is_process(
            post.thread_proc(id),
        ) && post.thread_proc(id) < id by {
            if id != t {
                assert(pre.is_thread(id));
                assert(post.body_of(id) == pre.body_of(id));
                assert(pre.is_process(pre.thread_proc(id)));
                if pre.thread_proc(id) != parent {
                    assert(post.body_of(pre.thread_proc(id)) == pre.body_of(pre.thread_proc(id)));
                } else {
                    assert(post.kind_of(parent) == pre.kind_of(parent));
                }
            }
        }
        assert forall|id: KoID| #[trigger] post.is_channel(id) implies {
            let q = post.chan_peer(id);
            post.is_channel(q) && q != id && post.chan_peer(q) == id
        } by {
            assert(pre.is_channel(id));
            assert(post.body_of(id) == pre.body_of(id));
            let q = pre.chan_peer(id);
            assert(pre.is_channel(q));
            assert(post.body_of(q) == pre.body_of(q));
        }
        assert forall|id: KoID, i: int|
            #![trigger post.job_children(id)[i]]
            post.is_job(id) && post.job_killed(id) && 0 <= i < post.job_children(id).len()
            implies post.job_killed(post.job_children(id)[i]) by {
            assert(pre.is_job(id));
            assert(post.body_of(id) == pre.body_of(id));
            let ch = pre.job_children(id)[i];
            assert(pre.job_killed(ch));
            assert(pre.is_job(ch));
            assert(post.body_of(ch) == pre.body_of(ch));
        }
        assert forall|id: KoID, i: int|
            #![trigger post.job_processes(id)[i]]
            post.is_job(id) && post.job_killed(id) && 0 <= i < post.job_processes(id).len()
            implies post.proc_exited(post.job_processes(id)[i]) by {
            assert(pre.is_job(id));
            assert(post.body_of(id) == pre.body_of(id));
            let q = pre.job_processes(id)[i];
            assert(pre.proc_exited(q));
            assert(pre.is_process(q));
            if q != parent {
                assert(post.body_of(q) == pre.body_of(q));
            } else {
                assert(post.proc_data(q).status == pre.proc_data(q).status);
            }
        }
    }

    /// Append a fresh object with the given body; gives it the next id and
    /// an empty name.
    pub(crate) fn insert_object(&mut self, body: ObjectBody, name: &str) -> (id: KoID)
        requires
            old(self).ids_ok(),
            old(self).spec_next_koid() < KoID::MAX,
        ensures
            final(self).ids_ok(),
            id == old(self).spec_next_koid(),
            final(self).spec_next_koid() == old(self).spec_next_koid() + 1,
            !old(self).has_obj(id),
            final(self).has_obj(id),
            final(self).idx_of(id) == old(self).objs().len(),
            final(self).objs().len() == old(self).objs().len() + 1,
            forall|oid: KoID| old(self).has_obj(oid) ==> #[trigger] final(self).has_obj(oid),
            forall|oid: KoID|
                #[trigger] final(self).has_obj(oid) ==> oid == id || old(self).has_obj(oid),
            forall|oid: KoID|
                old(self).has_obj(oid) ==> #[trigger] final(self).obj_of(oid) == old(
                    self,
                ).obj_of(oid),
            forall|oid: KoID|
                old(self).has_obj(oid) ==> #[trigger] final(self).idx_of(oid) == old(
                    self,
                ).idx_of(oid),
            final(self).obj_of(id).body == body,
            final(self).obj_of(id).base.id == id,
            final(self).obj_of(id).base.name@ == name@,
    {
        let id = self.next_koid;
        let ghost pre = *self;
        self.objects.push(KObject { base: KObjectBase { id, name: name.to_owned() }, body });
        self.next_koid = self.next_koid + 1;
        proof {
            let n = pre.objs().len();
            assert forall|oid: KoID| pre.has_obj(oid) implies #[trigger] self.has_obj(oid) by {
                let i = pre.idx_of(oid);
                pre.lemma_idx_of(oid);
                assert(self.objs()[i].base.id == oid);
            }
            assert(self.objs()[n as int].base.id == id);
            assert(self.has_obj(id));
            self.lemma_idx_of(id);
            assert forall|oid: KoID| pre.has_obj(oid) implies #[trigger] self.obj_of(oid)
                == pre.obj_of(oid) by {
                pre.lemma_idx_of(oid);
                self.lemma_idx_of(oid);
                let i = pre.idx_of(oid);
                assert(self.objs()[i].base.id == oid);
                assert(self.idx_of(oid) == i);
            }
            assert forall|oid: KoID| pre.has_obj(oid) implies #[trigger] self.idx_of(oid)
                == pre.idx_of(oid) by {
                pre.lemma_idx_of(oid);
                let i = pre.idx_of(oid);
                assert(self.objs()[i].base.id == oid);
                assert(self.has_obj(oid));
                self.lemma_idx_of(oid);
            }
            assert(!pre.has_obj(id));
        }
        id
    }
}

/// A placeholder kernel object: nothing but identity and a name. It is the
/// simplest concrete kind and shows the common object surface on its own.
#[derive(Debug, Clone, Copy, PartialEq, Eq, Structural)]
pub struct DummyObject {
    /// The id of the object this reference points at.
    pub koid: KoID,
}

impl DummyObject {
    /// The id this reference points at.
    pub open spec fn spec_id(self) -> KoID {
        self.koid
    }

    /// Whether this reference points at a placeholder object of `k`.
    pub open spec fn valid(self, k: Kernel) -> bool {
        k.is_dummy(self.koid)
    }

    /// Create a fresh placeholder object.
    pub fn new(k: &mut Kernel) -> (r: DummyObject)
        requires
            old(k).wf(),
            old(k).spec_next_koid() < KoID::MAX,
        ensures
            final(k).wf(),
            Kernel::grows_by(*old(k), *final(k), r.spec_id()),
            r.valid(*final(k)),
            final(k).name_of(r.spec_id()) == Seq::<char>::empty(),
    {
        let ghost pre = *k;
        let id = k.insert_object(ObjectBody::Dummy, "");
        proof {
            reveal_strlit("");
            Kernel::lemma_insert_preserves(pre, *k, id);
        }
        DummyObject { koid: id }
    }

    /// The object's id.
    pub fn id(&self) -> (r: KoID)
        ensures
            r == self.spec_id(),
    {
        self.koid
    }

    /// The tag naming this object's kind.
    pub fn kind_name(&self) -> (r: &'static str)
        ensures
            r@ == "DummyObject"@,
    {
        "DummyObject"
    }

    /// The object's current name.
    pub fn name(&self, k: &Kernel) -> (r: String)
        requires
            k.wf(),
            self.valid(*k),
        ensures
            r@ == k.name_of(self.spec_id()),
    {
        k.object_name(self.koid)
    }

    /// Set the object's name; visible through any handle to it.
    pub fn set_name(&self, k: &mut Kernel, name: &str)
        requires
            old(k).wf(),
            self.valid(*old(k)),
        ensures
            final(k).wf(),
            Kernel::objects_frame(*old(k), *final(k), self.spec_id()),
            final(k).name_of(self.spec_id()) == name@,
            final(k).body_of(self.spec_id()) == old(k).body_of(self.spec_id()),
    {
        k.set_object_name(self.koid, name);
    }

    /// The id of a related object; a placeholder has none, so 0.
    pub fn related_koid(&self) -> (r: KoID)
        ensures
            r == 0u64,
    {
        0
    }

    /// The peer object; a placeholder has none, so `NOT_SUPPORTED`.
    pub fn peer(&self) -> (r: crate::error::ZxResult<KoID>)
        ensures
            r == Err::<KoID, crate::error::ZxError>(crate::error::ZxError::NOT_SUPPORTED),
    {
        Err(crate::error::ZxError::NOT_SUPPORTED)
    }
}

} // verus!
