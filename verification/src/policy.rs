//! Job policy: a rule set mapping policy conditions to actions, with
//! parent/child merge and absolute/relative update semantics.

use vstd::prelude::*;
use crate::error::ZxError;
use crate::error::ZxResult;

verus! {

/// A kernel operation class that a job policy can rule on.
#[derive(Debug, Clone, Copy, PartialEq, Eq, Structural)]
pub enum PolicyCondition {
    /// A process under this job used a bad handle value.
    BadHandle,
    /// A handle resolved to an object of the wrong kind.
    WrongObject,
    /// A mapping was requested both writable and executable.
    VmarWx,
    /// Any object creation not covered by a more specific condition.
    NewAny,
    /// Creation of a memory object.
    NewVmo,
    /// Creation of a channel.
    NewChannel,
    /// Creation of an event.
    NewEvent,
    /// Creation of an event pair.
    NewEventPair,
    /// Creation of a port.
    NewPort,
    /// Creation of a socket.
    NewSocket,
    /// Creation of a fifo.
    NewFifo,
    /// Creation of a timer.
    NewTimer,
    /// Creation of a process.
    NewProcess,
    /// Creation of a profile.
    NewProfile,
    /// Marking a memory object executable through the ambient authority.
    AmbientMarkVmoExec,
}

/// What a job policy prescribes for a condition.
#[derive(Debug, Clone, Copy, PartialEq, Eq, Structural)]
pub enum PolicyAction {
    /// Let the operation proceed.
    Allow,
    /// Refuse the operation.
    Deny,
    /// Let it proceed and raise an exception.
    AllowException,
    /// Refuse it and raise an exception.
    DenyException,
    /// Kill the offending process.
    Kill,
}

/// One rule: a condition and the action to take for it.
#[derive(Debug, Clone, Copy, PartialEq, Eq, Structural)]
pub struct BasicPolicy {
    /// The condition the rule is about.
    pub condition: PolicyCondition,
    /// The action prescribed for it.
    pub action: PolicyAction,
}

/// How a batch of rules is applied to a job's policy.
#[derive(Debug, Clone, Copy, PartialEq, Eq, Structural)]
pub enum SetPolicyOptions {
    /// Fail with `ALREADY_EXISTS` on a condition that is already decided.
    Absolute,
    /// Silently keep the existing setting for a decided condition.
    Relative,
}

/// A condition-to-action rule set: for each condition, either an explicit
/// action or unset.
#[derive(Debug, Clone, Copy, PartialEq, Eq, Structural)]
pub struct JobPolicy {
    /// Action for `PolicyCondition::BadHandle`, if set.
    pub bad_handle: Option<PolicyAction>,
    /// Action for `PolicyCondition::WrongObject`, if set.
    pub wrong_object: Option<PolicyAction>,
    /// Action for `PolicyCondition::VmarWx`, if set.
    pub vmar_wx: Option<PolicyAction>,
    /// Action for `PolicyCondition::NewAny`, if set.
    pub new_any: Option<PolicyAction>,
    /// Action for `PolicyCondition::NewVmo`, if set.
    pub new_vmo: Option<PolicyAction>,
    /// Action for `PolicyCondition::NewChannel`, if set.
    pub new_channel: Option<PolicyAction>,
    /// Action for `PolicyCondition::NewEvent`, if set.
    pub new_event: Option<PolicyAction>,
    /// Action for `PolicyCondition::NewEventPair`, if set.
    pub new_event_pair: Option<PolicyAction>,
    /// Action for `PolicyCondition::NewPort`, if set.
    pub new_port: Option<PolicyAction>,
    /// Action for `PolicyCondition::NewSocket`, if set.
    pub new_socket: Option<PolicyAction>,
    /// Action for `PolicyCondition::NewFifo`, if set.
    pub new_fifo: Option<PolicyAction>,
    /// Action for `PolicyCondition::NewTimer`, if set.
    pub new_timer: Option<PolicyAction>,
    /// Action for `PolicyCondition::NewProcess`, if set.
    pub new_process: Option<PolicyAction>,
    /// Action for `PolicyCondition::NewProfile`, if set.
    pub new_profile: Option<PolicyAction>,
    /// Action for `PolicyCondition::AmbientMarkVmoExec`, if set.
    pub ambient_mark_vmo_exec: Option<PolicyAction>,
}

impl JobPolicy {
    /// The rule set with no condition decided.
    pub open spec fn spec_empty() -> JobPolicy {
        JobPolicy {
            bad_handle: None,
            wrong_object: None,
            vmar_wx: None,
            new_any: None,
            new_vmo: None,
            new_channel: None,
            new_event: None,
            new_event_pair: None,
            new_port: None,
            new_socket: None,
            new_fifo: None,
            new_timer: None,
            new_process: None,
            new_profile: None,
            ambient_mark_vmo_exec: None,
        }
    }

    /// The rule set with no condition decided.
    pub fn empty() -> (r: JobPolicy)
        ensures
            r == JobPolicy::spec_empty(),
    {
        JobPolicy {
            bad_handle: None,
            wrong_object: None,
            vmar_wx: None,
            new_any: None,
            new_vmo: None,
            new_channel: None,
            new_event: None,
            new_event_pair: None,
            new_port: None,
            new_socket: None,
            new_fifo: None,
            new_timer: None,
            new_process: None,
            new_profile: None,
            ambient_mark_vmo_exec: None,
        }
    }

    /// The entry this rule set holds for `condition`.
    pub open spec fn spec_get_action(self, condition: PolicyCondition) -> Option<PolicyAction> {
        match condition {
            PolicyCondition::BadHandle => self.bad_handle,
            PolicyCondition::WrongObject => self.wrong_object,
            PolicyCondition::VmarWx => self.vmar_wx,
            PolicyCondition::NewAny => self.new_any,
            PolicyCondition::NewVmo => self.new_vmo,
            PolicyCondition::NewChannel => self.new_channel,
            PolicyCondition::NewEvent => self.new_event,
            PolicyCondition::NewEventPair => self.new_event_pair,
            PolicyCondition::NewPort => self.new_port,
            PolicyCondition::NewSocket => self.new_socket,
            PolicyCondition::NewFifo => self.new_fifo,
            PolicyCondition::NewTimer => self.new_timer,
            PolicyCondition::NewProcess => self.new_process,
            PolicyCondition::NewProfile => self.new_profile,
            PolicyCondition::AmbientMarkVmoExec => self.ambient_mark_vmo_exec,
        }
    }

    /// Get the action this rule set holds for `condition`, or `None` where
    /// the condition is not decided.
    pub fn get_action(&self, condition: PolicyCondition) -> (r: Option<PolicyAction>)
        ensures
            r == self.spec_get_action(condition),
    {
        match condition {
            PolicyCondition::BadHandle => self.bad_handle,
            PolicyCondition::WrongObject => self.wrong_object,
            PolicyCondition::VmarWx => self.vmar_wx,
            PolicyCondition::NewAny => self.new_any,
            PolicyCondition::NewVmo => self.new_vmo,
            PolicyCondition::NewChannel => self.new_channel,
            PolicyCondition::NewEvent => self.new_event,
            PolicyCondition::NewEventPair => self.new_event_pair,
            PolicyCondition::NewPort => self.new_port,
            PolicyCondition::NewSocket => self.new_socket,
            PolicyCondition::NewFifo => self.new_fifo,
            PolicyCondition::NewTimer => self.new_timer,
            PolicyCondition::NewProcess => self.new_process,
            PolicyCondition::NewProfile => self.new_profile,
            PolicyCondition::AmbientMarkVmoExec => self.ambient_mark_vmo_exec,
        }
    }

    /// The rule set equal to `self` except that `policy.condition` maps to
    /// `policy.action`.
    pub open spec fn spec_apply(self, policy: BasicPolicy) -> JobPolicy {
        match policy.condition {
            PolicyCondition::BadHandle => JobPolicy { bad_handle: Some(policy.action), ..self },
            PolicyCondition::WrongObject => JobPolicy { wrong_object: Some(policy.action), ..self },
            PolicyCondition::VmarWx => JobPolicy { vmar_wx: Some(policy.action), ..self },
            PolicyCondition::NewAny => JobPolicy { new_any: Some(policy.action), ..self },
            PolicyCondition::NewVmo => JobPolicy { new_vmo: Some(policy.action), ..self },
            PolicyCondition::NewChannel => JobPolicy { new_channel: Some(policy.action), ..self },
            PolicyCondition::NewEvent => JobPolicy { new_event: Some(policy.action), ..self },
            PolicyCondition::NewEventPair => JobPolicy {
                new_event_pair: Some(policy.action),
                ..self
            },
            PolicyCondition::NewPort => JobPolicy { new_port: Some(policy.action), ..self },
            PolicyCondition::NewSocket => JobPolicy { new_socket: Some(policy.action), ..self },
            PolicyCondition::NewFifo => JobPolicy { new_fifo: Some(policy.action), ..self },
            PolicyCondition::NewTimer => JobPolicy { new_timer: Some(policy.action), ..self },
            PolicyCondition::NewProcess => JobPolicy { new_process: Some(policy.action), ..self },
            PolicyCondition::NewProfile => JobPolicy { new_profile: Some(policy.action), ..self },
            PolicyCondition::AmbientMarkVmoExec => JobPolicy {
                ambient_mark_vmo_exec: Some(policy.action),
                ..self
            },
        }
    }

    /// Set the entry for `policy.condition` to `policy.action`, replacing
    /// whatever was there.
    pub fn apply(&mut self, policy: BasicPolicy)
        ensures
            *final(self) == old(self).spec_apply(policy),
            final(self).spec_get_action(policy.condition) == Some::<PolicyAction>(policy.action),
    {
        match policy.condition {
            PolicyCondition::BadHandle => self.bad_handle = Some(policy.action),
            PolicyCondition::WrongObject => self.wrong_object = Some(policy.action),
            PolicyCondition::VmarWx => self.vmar_wx = Some(policy.action),
            PolicyCondition::NewAny => self.new_any = Some(policy.action),
            PolicyCondition::NewVmo => self.new_vmo = Some(policy.action),
            PolicyCondition::NewChannel => self.new_channel = Some(policy.action),
            PolicyCondition::NewEvent => self.new_event = Some(policy.action),
            PolicyCondition::NewEventPair => self.new_event_pair = Some(policy.action),
            PolicyCondition::NewPort => self.new_port = Some(policy.action),
            PolicyCondition::NewSocket => self.new_socket = Some(policy.action),
            PolicyCondition::NewFifo => self.new_fifo = Some(policy.action),
            PolicyCondition::NewTimer => self.new_timer = Some(policy.action),
            PolicyCondition::NewProcess => self.new_process = Some(policy.action),
            PolicyCondition::NewProfile => self.new_profile = Some(policy.action),
            PolicyCondition::AmbientMarkVmoExec => self.ambient_mark_vmo_exec = Some(policy.action),
        }
    }

    /// The first of two optional actions that is set, if any.
    pub open spec fn spec_first_set(
        a: Option<PolicyAction>,
        b: Option<PolicyAction>,
    ) -> Option<PolicyAction> {
        if a is Some {
            a
        } else {
            b
        }
    }

    /// The merge of a child rule set with its parent's: the child's explicit
    /// entries, falling back to the parent's for unset conditions.
    pub open spec fn spec_merge(self, parent: JobPolicy) -> JobPolicy {
        JobPolicy {
            bad_handle: Self::spec_first_set(self.bad_handle, parent.bad_handle),
            wrong_object: Self::spec_first_set(self.wrong_object, parent.wrong_object),
            vmar_wx: Self::spec_first_set(self.vmar_wx, parent.vmar_wx),
            new_any: Self::spec_first_set(self.new_any, parent.new_any),
            new_vmo: Self::spec_first_set(self.new_vmo, parent.new_vmo),
            new_channel: Self::spec_first_set(self.new_channel, parent.new_channel),
            new_event: Self::spec_first_set(self.new_event, parent.new_event),
            new_event_pair: Self::spec_first_set(self.new_event_pair, parent.new_event_pair),
            new_port: Self::spec_first_set(self.new_port, parent.new_port),
            new_socket: Self::spec_first_set(self.new_socket, parent.new_socket),
            new_fifo: Self::spec_first_set(self.new_fifo, parent.new_fifo),
            new_timer: Self::spec_first_set(self.new_timer, parent.new_timer),
            new_process: Self::spec_first_set(self.new_process, parent.new_process),
            new_profile: Self::spec_first_set(self.new_profile, parent.new_profile),
            ambient_mark_vmo_exec: Self::spec_first_set(
                self.ambient_mark_vmo_exec,
                parent.ambient_mark_vmo_exec,
            ),
        }
    }

    /// Merge this rule set, taken as a child's, with a parent's: the child's
    /// explicit entries win; the parent's fill the unset conditions.
    pub fn merge(&self, parent: &JobPolicy) -> (r: JobPolicy)
        ensures
            r == self.spec_merge(*parent),
    {
        JobPolicy {
            bad_handle: Self::first_set(self.bad_handle, parent.bad_handle),
            wrong_object: Self::first_set(self.wrong_object, parent.wrong_object),
            vmar_wx: Self::first_set(self.vmar_wx, parent.vmar_wx),
            new_any: Self::first_set(self.new_any, parent.new_any),
            new_vmo: Self::first_set(self.new_vmo, parent.new_vmo),
            new_channel: Self::first_set(self.new_channel, parent.new_channel),
            new_event: Self::first_set(self.new_event, parent.new_event),
            new_event_pair: Self::first_set(self.new_event_pair, parent.new_event_pair),
            new_port: Self::first_set(self.new_port, parent.new_port),
            new_socket: Self::first_set(self.new_socket, parent.new_socket),
            new_fifo: Self::first_set(self.new_fifo, parent.new_fifo),
            new_timer: Self::first_set(self.new_timer, parent.new_timer),
            new_process: Self::first_set(self.new_process, parent.new_process),
            new_profile: Self::first_set(self.new_profile, parent.new_profile),
            ambient_mark_vmo_exec: Self::first_set(
                self.ambient_mark_vmo_exec,
                parent.ambient_mark_vmo_exec,
            ),
        }
    }

    /// The first of two optional actions that is set, if any.
    fn first_set(a: Option<PolicyAction>, b: Option<PolicyAction>) -> (r: Option<PolicyAction>)
        ensures
            r == Self::spec_first_set(a, b),
    {
        if a.is_some() {
            a
        } else {
            b
        }
    }
}

/// The merge of a child rule set with its parent's answers every condition
/// with the child's explicit entry where the child has one, and with the
/// parent's entry everywhere else.
pub proof fn lemma_merge_prefers_child(child: JobPolicy, parent: JobPolicy, c: PolicyCondition)
    ensures
        child.spec_get_action(c) is Some ==> child.spec_merge(parent).spec_get_action(c)
            == child.spec_get_action(c),
        child.spec_get_action(c) is None ==> child.spec_merge(parent).spec_get_action(c)
            == parent.spec_get_action(c),
{
}

} // verus!
