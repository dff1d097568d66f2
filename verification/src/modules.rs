use vstd::prelude::*;
use crate::error::LoaderError;

verus! {

/// The lifecycle of a module record.
#[derive(Clone, Copy, Debug, PartialEq, Eq, Structural)]
pub enum LifecycleState {
    Unlinked,
    Linking,
    Linked,
    Evaluating,
    Evaluated,
    Errored,
}

impl LifecycleState {
    /// The forward transitions: each state has one successor, but for
    /// `Evaluating`, which ends in `Evaluated` or `Errored`.
    pub open spec fn steps_to(self, next: LifecycleState) -> bool {
        match (self, next) {
            (LifecycleState::Unlinked, LifecycleState::Linking) => true,
            (LifecycleState::Linking, LifecycleState::Linked) => true,
            (LifecycleState::Linked, LifecycleState::Evaluating) => true,
            (LifecycleState::Evaluating, LifecycleState::Evaluated) => true,
            (LifecycleState::Evaluating, LifecycleState::Errored) => true,
            _ => false,
        }
    }

    /// How far along its lifecycle a module in this state is.
    pub open spec fn rank(self) -> nat {
        match self {
            LifecycleState::Unlinked => 0,
            LifecycleState::Linking => 1,
            LifecycleState::Linked => 2,
            LifecycleState::Evaluating => 3,
            LifecycleState::Evaluated => 4,
            LifecycleState::Errored => 4,
        }
    }

    /// The two states that nothing follows.
    pub open spec fn is_terminal(self) -> bool {
        self == LifecycleState::Evaluated || self == LifecycleState::Errored
    }

    /// Whether `next` may follow this state.
    pub fn can_step_to(self, next: LifecycleState) -> (r: bool)
        ensures
            r == self.steps_to(next),
            r ==> !self.is_terminal(),
    {
        match (self, next) {
            (LifecycleState::Unlinked, LifecycleState::Linking) => true,
            (LifecycleState::Linking, LifecycleState::Linked) => true,
            (LifecycleState::Linked, LifecycleState::Evaluating) => true,
            (LifecycleState::Evaluating, LifecycleState::Evaluated) => true,
            (LifecycleState::Evaluating, LifecycleState::Errored) => true,
            _ => false,
        }
    }

    /// Whether the namespace of a module in this state may be read.
    pub fn is_readable(self) -> (r: bool)
        ensures
            r == (self == LifecycleState::Evaluated),
    {
        match self {
            LifecycleState::Evaluated => true,
            _ => false,
        }
    }
}

/// Transitions only go forward: each one raises the rank of the state, so
/// no state is ever entered twice, and nothing follows a terminal state.
pub proof fn transitions_go_forward(from: LifecycleState, to: LifecycleState)
    requires
        from.steps_to(to),
    ensures
        from.rank() < to.rank(),
        !from.is_terminal(),
        from != to,
        !to.steps_to(from),
{
}

/// The exported bindings of an evaluated module.
pub struct Namespace {
    pub exports: Vec<String>,
}

/// What the registry layer reads of a loaded module.
pub struct ModuleRecord {
    pub state: LifecycleState,
    pub requests: Vec<String>,
    pub namespace: Namespace,
}

/// The loaded modules of one session. A module's handle is its position in
/// the table; records are never removed, so a handle is never reused.
pub struct ModuleTable {
    records: Vec<ModuleRecord>,
}

/// Whether the namespace of `handle` may be read: the handle is known and
/// its module has been evaluated.
pub open spec fn readable(records: Seq<ModuleRecord>, handle: usize) -> bool {
    handle < records.len() && records[handle as int].state == LifecycleState::Evaluated
}

impl ModuleTable {
    /// The records, by handle.
    pub closed spec fn view(&self) -> Seq<ModuleRecord> {
        self.records@
    }

    /// An empty table.
    pub fn new() -> (r: Self)
        ensures
            r@.len() == 0,
    {
        ModuleTable { records: Vec::new() }
    }

    /// Records a freshly loaded module in state `Unlinked` and gives it the
    /// next handle. Every earlier handle keeps its record.
    pub fn load(&mut self, requests: Vec<String>, namespace: Namespace) -> (handle: usize)
        ensures
            handle == old(self)@.len(),
            final(self)@ == old(self)@.push(
                (ModuleRecord { state: LifecycleState::Unlinked, requests, namespace }),
            ),
    {
        let handle = self.records.len();
        self.records.push(ModuleRecord { state: LifecycleState::Unlinked, requests, namespace });
        handle
    }

    /// The lifecycle state of a known handle.
    pub fn state(&self, handle: usize) -> (r: Option<LifecycleState>)
        ensures
            r == (if handle < self@.len() {
                Some(self@[handle as int].state)
            } else {
                None
            }),
    {
        if handle < self.records.len() {
            Some(self.records[handle].state)
        } else {
            None
        }
    }

    /// Moves a module to `next` where that is a forward transition from its
    /// state; reports whether it did. Otherwise nothing changes.
    pub fn advance(&mut self, handle: usize, next: LifecycleState) -> (r: bool)
        ensures
            r == (handle < old(self)@.len() && old(self)@[handle as int].state.steps_to(next)),
            final(self)@.len() == old(self)@.len(),
            forall|i: int|
                0 <= i < old(self)@.len() && !(r && i == handle) ==> final(self)@[i] == old(self)@[i],
            r ==> final(self)@[handle as int].state == next && final(self)@[handle as int].requests == old(self)@[handle as int].requests && final(self)@[handle as int].namespace == old(self)@[handle as int].namespace,
    {
        if handle >= self.records.len() {
            return false;
        }
        if !self.records[handle].state.can_step_to(next) {
            return false;
        }
        self.records[handle].state = next;
        true
    }

    /// The namespace of an evaluated module. An unknown handle and a module
    /// in any other state are both `NotFound`.
    pub fn namespace(&self, handle: usize) -> (r: Result<&Namespace, LoaderError>)
        ensures
            match r {
                Ok(n) => readable(self@, handle) && *n == self@[handle as int].namespace,
                Err(e) => e == LoaderError::NotFound && !readable(self@, handle),
            },
    {
        if handle >= self.records.len() {
            return Err(LoaderError::NotFound);
        }
        if !self.records[handle].state.is_readable() {
            return Err(LoaderError::NotFound);
        }
        Ok(&self.records[handle].namespace)
    }

    /// The identifiers that a module statically requested, in declaration
    /// order and as written. An unknown handle is `NotFound`.
    pub fn requests(&self, handle: usize) -> (r: Result<Vec<String>, LoaderError>)
        ensures
            match r {
                Ok(out) => handle < self@.len() && out@.len() == self@[handle as int].requests@.len()
                    && forall|i: int|
                    0 <= i < out@.len() ==> (#[trigger] out@[i])@
                        == self@[handle as int].requests@[i]@,
                Err(e) => e == LoaderError::NotFound && handle >= self@.len(),
            },
    {
        if handle >= self.records.len() {
            return Err(LoaderError::NotFound);
        }
        let declared = &self.records[handle].requests;
        let mut out: Vec<String> = Vec::new();
        let mut i: usize = 0;
        while i < declared.len()
            invariant
                i <= declared@.len(),
                out@.len() == i,
                forall|j: int| 0 <= j < i ==> (#[trigger] out@[j])@ == declared@[j]@,
            decreases declared@.len() - i,
        {
            out.push(declared[i].clone());
            i += 1;
        }
        Ok(out)
    }
}

} // verus!
