//! Resources: address-range grants validated by kind and range.

use vstd::prelude::*;
use crate::error::ZxError;
use crate::error::ZxResult;
use crate::object::KoID;
use crate::object::Kernel;
use crate::object::ObjectBody;

verus! {

/// The kind of authority a resource grants.
#[derive(Debug, Clone, Copy, PartialEq, Eq, Structural)]
pub enum ResourceKind {
    /// Memory-mapped input/output ranges.
    MMIO,
    /// Interrupt lines.
    IRQ,
    /// Legacy port input/output.
    IOPORT,
    /// Hypervisor services.
    HYPERVISOR,
    /// The root resource, which validates as any kind.
    ROOT,
    /// Making memory executable.
    VMEX,
    /// Secure monitor calls.
    SMC,
}

/// Flag bits of a resource.
#[derive(Debug, Clone, Copy, PartialEq, Eq, Structural)]
pub struct ResourceFlags {
    /// The raw flag bits.
    pub bits: u32,
}

/// The flag marking a resource as exclusively granted.
pub const RESOURCE_FLAG_EXCLUSIVE: u32 = 1u32 << 16;

impl ResourceFlags {
    /// The empty flag set.
    pub fn empty() -> (r: ResourceFlags)
        ensures
            r.bits == 0,
    {
        ResourceFlags { bits: 0 }
    }

    /// The flag set with the given raw bits.
    pub fn from_bits(bits: u32) -> (r: ResourceFlags)
        ensures
            r.bits == bits,
    {
        ResourceFlags { bits }
    }

    /// Whether every flag of `other` is set in `self`.
    pub open spec fn spec_contains(self, other: ResourceFlags) -> bool {
        self.bits & other.bits == other.bits
    }

    /// Whether every flag of `other` is set in `self`.
    pub fn contains(&self, other: ResourceFlags) -> (r: bool)
        ensures
            r == self.spec_contains(other),
    {
        self.bits & other.bits == other.bits
    }
}

/// The state of one resource.
pub struct ResourceData {
    /// The kind of authority granted.
    pub kind: ResourceKind,
    /// The start of the granted range.
    pub addr: usize,
    /// The length of the granted range.
    pub len: usize,
    /// The resource flags.
    pub flags: ResourceFlags,
}

impl Kernel {
    /// The state of resource `id`.
    pub open spec fn resource_data(self, id: KoID) -> ResourceData {
        match self.body_of(id) {
            ObjectBody::Resource(r) => r,
            _ => arbitrary(),
        }
    }
}


/// A reference to a resource: an address-range grant of one kind.
#[derive(Debug, Clone, Copy, PartialEq, Eq, Structural)]
pub struct Resource {
    /// The id of the resource this reference points at.
    pub koid: KoID,
}

impl Resource {
    /// The id this reference points at.
    pub open spec fn spec_id(self) -> KoID {
        self.koid
    }

    /// Whether this reference points at a resource of `k`.
    pub open spec fn valid(self, k: Kernel) -> bool {
        k.is_resource(self.koid)
    }

    /// Create a new resource granting `kind` over `[addr, addr + len)`.
    pub fn create(
        k: &mut Kernel,
        name: &str,
        kind: ResourceKind,
        addr: usize,
        len: usize,
        flags: ResourceFlags,
    ) -> (r: Resource)
        requires
            old(k).wf(),
            old(k).spec_next_koid() < KoID::MAX,
            addr + len <= usize::MAX,
        ensures
            final(k).wf(),
            Kernel::grows_by(*old(k), *final(k), r.spec_id()),
            r.valid(*final(k)),
            final(k).resource_data(r.spec_id()) == (ResourceData { kind, addr, len, flags }),
            final(k).name_of(r.spec_id()) == name@,
    {
        let ghost pre = *k;
        let id = k.insert_object(
            ObjectBody::Resource(ResourceData { kind, addr, len, flags }),
            name,
        );
        proof {
            Kernel::lemma_insert_preserves(pre, *k, id);
        }
        Resource { koid: id }
    }

    /// Validate that this resource is of `kind`, or is the root resource,
    /// which validates as any kind; `WRONG_TYPE` otherwise.
    pub fn validate(&self, k: &Kernel, kind: ResourceKind) -> (r: ZxResult)
        requires
            k.wf(),
            self.valid(*k),
        ensures
            r == if k.resource_data(self.spec_id()).kind == kind || k.resource_data(
                self.spec_id(),
            ).kind == ResourceKind::ROOT {
                Ok::<(), ZxError>(())
            } else {
                Err::<(), ZxError>(ZxError::WRONG_TYPE)
            },
    {
        let i = k.index_of_obj(self.koid);
        proof {
            k.lemma_idx_of(self.koid);
            assert(k.body_of(self.spec_id()) == k.objs()[i as int].body);
        }
        match &k.objects[i].body {
            ObjectBody::Resource(d) => {
                if d.kind == kind || d.kind == ResourceKind::ROOT {
                    Ok(())
                } else {
                    Err(ZxError::WRONG_TYPE)
                }
            },
            _ => unreached(),
        }
    }

    /// Validate the kind as `validate` does, and additionally that
    /// `[addr, addr + len)` lies within the granted range;
    /// `OUT_OF_RANGE` otherwise.
    pub fn validate_ranged_resource(
        &self,
        k: &Kernel,
        kind: ResourceKind,
        addr: usize,
        len: usize,
    ) -> (r: ZxResult)
        requires
            k.wf(),
            self.valid(*k),
            addr + len <= usize::MAX,
        ensures
            ({
                let d = k.resource_data(self.spec_id());
                r == if !(d.kind == kind || d.kind == ResourceKind::ROOT) {
                    Err::<(), ZxError>(ZxError::WRONG_TYPE)
                } else if d.addr <= addr && addr + len <= d.addr + d.len {
                    Ok::<(), ZxError>(())
                } else {
                    Err::<(), ZxError>(ZxError::OUT_OF_RANGE)
                }
            }),
    {
        let got = self.validate(k, kind);
        match got {
            Err(e) => Err(e),
            Ok(_) => {
                let i = k.index_of_obj(self.koid);
                proof {
                    k.lemma_idx_of(self.koid);
                    assert(k.body_of(self.spec_id()) == k.objs()[i as int].body);
                }
                match &k.objects[i].body {
                    ObjectBody::Resource(d) => {
                        if addr >= d.addr && len <= d.len && addr - d.addr <= d.len - len {
                            Ok(())
                        } else {
                            Err(ZxError::OUT_OF_RANGE)
                        }
                    },
                    _ => unreached(),
                }
            },
        }
    }

    /// Refuse, with `INVALID_ARGS`, an exclusive grant on anything but the
    /// root resource: fail where this resource is not root and either its
    /// own flags or the given `flags` claim exclusivity.
    pub fn check_exclusive(&self, k: &Kernel, flags: ResourceFlags) -> (r: ZxResult)
        requires
            k.wf(),
            self.valid(*k),
        ensures
            ({
                let d = k.resource_data(self.spec_id());
                r == if d.kind != ResourceKind::ROOT && (d.flags.spec_contains(
                    ResourceFlags { bits: RESOURCE_FLAG_EXCLUSIVE },
                ) || flags.spec_contains(ResourceFlags { bits: RESOURCE_FLAG_EXCLUSIVE })) {
                    Err::<(), ZxError>(ZxError::INVALID_ARGS)
                } else {
                    Ok::<(), ZxError>(())
                }
            }),
    {
        let i = k.index_of_obj(self.koid);
        proof {
            k.lemma_idx_of(self.koid);
            assert(k.body_of(self.spec_id()) == k.objs()[i as int].body);
        }
        match &k.objects[i].body {
            ObjectBody::Resource(d) => {
                let excl = ResourceFlags { bits: RESOURCE_FLAG_EXCLUSIVE };
                if !matches!(d.kind, ResourceKind::ROOT) && (d.flags.contains(excl)
                    || flags.contains(excl)) {
                    Err(ZxError::INVALID_ARGS)
                } else {
                    Ok(())
                }
            },
            _ => unreached(),
        }
    }

    /// The object's id.
    pub fn id(&self) -> (r: KoID)
        ensures
            r == self.spec_id(),
    {
        self.koid
    }

    /// The tag naming this object's kind.
    pub fn kind_name(&self) -> (r: &'static str)
        ensures
            r@ == "Resource"@,
    {
        "Resource"
    }

    /// The object's current name.
    pub fn name(&self, k: &Kernel) -> (r: String)
        requires
            k.wf(),
            self.valid(*k),
        ensures
            r@ == k.name_of(self.spec_id()),
    {
        k.object_name(self.koid)
    }
}


} // verus!
