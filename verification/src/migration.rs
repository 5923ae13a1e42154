//! The schema migration executor.
//!
//! Before any epoch is processed the store is brought from the version it
//! persists to the version the code expects. The step registered under
//! version `v` brings a store from `v` to `v + 1`. The executor decides which
//! step is next; the caller runs it in one atomic transaction of the store
//! that also writes the new version, and reports how it went.

use vstd::prelude::*;

verus! {

/// Version of the persisted record layout.
#[derive(Clone, Copy, Debug, PartialEq, Eq, Structural)]
pub struct DatabaseVersion(pub u64);

/// The versions for which a migration step is registered.
pub struct MigrationMap {
    versions: Vec<u64>,
}

impl View for MigrationMap {
    type V = Set<u64>;

    closed spec fn view(&self) -> Set<u64> {
        self.versions@.to_set()
    }
}

impl MigrationMap {
    /// A registry without steps.
    pub fn new() -> (m: MigrationMap)
        ensures
            m@ == Set::<u64>::empty(),
    {
        let m = MigrationMap { versions: Vec::new() };
        assert(m.versions@.to_set() =~= Set::<u64>::empty());
        m
    }

    /// Registers the step that leaves version `from`.
    pub fn register(&mut self, from: DatabaseVersion)
        ensures
            final(self)@ == old(self)@.insert(from.0),
    {
        proof {
            self.versions@.lemma_push_to_set_commute(from.0);
        }
        self.versions.push(from.0);
    }

    /// Whether a step that leaves version `from` is registered.
    pub fn contains(&self, from: DatabaseVersion) -> (found: bool)
        ensures
            found == self@.contains(from.0),
    {
        let mut i: usize = 0;
        while i < self.versions.len()
            invariant
                i <= self.versions@.len(),
                forall|j: int| 0 <= j < i ==> self.versions@[j] != from.0,
            decreases self.versions@.len() - i,
        {
            if self.versions[i] == from.0 {
                return true;
            }
            i += 1;
        }
        false
    }
}

/// Why the executor stopped before the target version.
#[derive(Clone, Copy, Debug, PartialEq, Eq, Structural)]
pub enum MigrationFault {
    /// No step is registered that leaves this version.
    MissingStep { version: DatabaseVersion },
    /// The step that leaves this version failed for good.
    StepFailed { version: DatabaseVersion },
}

/// What the caller does next.
#[derive(Clone, Copy, Debug, PartialEq, Eq, Structural)]
pub enum MigrationAction {
    /// Run the step registered under `from` and write version `to`, both in
    /// one transaction.
    Apply { from: DatabaseVersion, to: DatabaseVersion },
    /// The store is at the target version: epochs may be processed.
    Finished,
    /// Stop and call the operator.
    Halt { fault: MigrationFault },
}

/// Brings a store from its persisted version to the target version, one
/// registered step after the other.
pub struct MigrationExecutor {
    version: u64,
    target: u64,
    steps: MigrationMap,
    attempts: u32,
    max_attempts: u32,
    fault: Option<MigrationFault>,
}

impl MigrationExecutor {
    /// The version that the store holds.
    pub closed spec fn spec_version(&self) -> DatabaseVersion {
        DatabaseVersion(self.version)
    }

    pub closed spec fn spec_target(&self) -> DatabaseVersion {
        DatabaseVersion(self.target)
    }

    pub closed spec fn spec_steps(&self) -> Set<u64> {
        self.steps@
    }

    /// Failed attempts at the step that is next.
    pub closed spec fn spec_attempts(&self) -> u32 {
        self.attempts
    }

    pub closed spec fn spec_max_attempts(&self) -> u32 {
        self.max_attempts
    }

    pub closed spec fn spec_fault(&self) -> Option<MigrationFault> {
        self.fault
    }

    /// A recorded fault is the failure of the step that leaves the version
    /// the store holds.
    pub closed spec fn wf(&self) -> bool {
        match self.fault {
            Some(MigrationFault::StepFailed { version }) => version.0 == self.version
                && self.version < self.target && self.steps@.contains(self.version),
            Some(MigrationFault::MissingStep { .. }) => false,
            None => true,
        }
    }

    /// The step that is next, the end, or the fault.
    pub open spec fn spec_next_action(&self) -> MigrationAction {
        let version = self.spec_version();
        if let Some(fault) = self.spec_fault() {
            MigrationAction::Halt { fault }
        } else if version.0 >= self.spec_target().0 {
            MigrationAction::Finished
        } else if self.spec_steps().contains(version.0) {
            MigrationAction::Apply { from: version, to: DatabaseVersion((version.0 + 1) as u64) }
        } else {
            MigrationAction::Halt { fault: MigrationFault::MissingStep { version } }
        }
    }

    /// An executor for a store that persists `persisted`. A step that fails
    /// on a transient error is tried `max_attempts` times in all.
    pub fn new(
        persisted: DatabaseVersion,
        target: DatabaseVersion,
        steps: MigrationMap,
        max_attempts: u32,
    ) -> (e: MigrationExecutor)
        ensures
            e.wf(),
            e.spec_version() == persisted,
            e.spec_target() == target,
            e.spec_steps() == steps@,
            e.spec_attempts() == 0,
            e.spec_max_attempts() == max_attempts,
            e.spec_fault() is None,
    {
        MigrationExecutor {
            version: persisted.0,
            target: target.0,
            steps,
            attempts: 0,
            max_attempts,
            fault: None,
        }
    }

    pub fn version(&self) -> (v: DatabaseVersion)
        ensures
            v == self.spec_version(),
    {
        DatabaseVersion(self.version)
    }

    pub fn target(&self) -> (v: DatabaseVersion)
        ensures
            v == self.spec_target(),
    {
        DatabaseVersion(self.target)
    }

    pub fn fault(&self) -> (f: Option<MigrationFault>)
        ensures
            f == self.spec_fault(),
    {
        self.fault
    }

    /// The step that is next, the end, or the fault.
    pub fn next_action(&self) -> (a: MigrationAction)
        ensures
            a == self.spec_next_action(),
    {
        if let Some(fault) = self.fault {
            MigrationAction::Halt { fault }
        } else if self.version >= self.target {
            MigrationAction::Finished
        } else if self.steps.contains(DatabaseVersion(self.version)) {
            MigrationAction::Apply {
                from: DatabaseVersion(self.version),
                to: DatabaseVersion(self.version + 1),
            }
        } else {
            MigrationAction::Halt {
                fault: MigrationFault::MissingStep { version: DatabaseVersion(self.version) },
            }
        }
    }

    /// The transaction of the step that was next has been committed. The
    /// version advances by one; nothing changes where no step was next.
    /// Returns the action that follows.
    pub fn step_applied(&mut self) -> (a: MigrationAction)
        requires
            old(self).wf(),
        ensures
            final(self).wf(),
            final(self).spec_target() == old(self).spec_target(),
            final(self).spec_steps() == old(self).spec_steps(),
            final(self).spec_max_attempts() == old(self).spec_max_attempts(),
            final(self).spec_fault() == old(self).spec_fault(),
            match old(self).spec_next_action() {
                MigrationAction::Apply { from, to } => final(self).spec_version() == to
                    && final(self).spec_attempts() == 0,
                _ => final(self).spec_version() == old(self).spec_version()
                    && final(self).spec_attempts() == old(self).spec_attempts(),
            },
            a == final(self).spec_next_action(),
    {
        match self.next_action() {
            MigrationAction::Apply { from, to } => {
                self.version = to.0;
                self.attempts = 0;
            },
            _ => {},
        }
        self.next_action()
    }

    /// The transaction of the step that was next has been rolled back. A
    /// transient failure is tried again until the attempts are used up; any
    /// other failure, and the last transient one, stops the executor for
    /// good. The version stays as it is. Returns the action that follows.
    pub fn step_failed(&mut self, transient: bool) -> (a: MigrationAction)
        requires
            old(self).wf(),
        ensures
            final(self).wf(),
            final(self).spec_version() == old(self).spec_version(),
            final(self).spec_target() == old(self).spec_target(),
            final(self).spec_steps() == old(self).spec_steps(),
            final(self).spec_max_attempts() == old(self).spec_max_attempts(),
            match old(self).spec_next_action() {
                MigrationAction::Apply { from, to } => if transient && old(self).spec_attempts()
                    + 1 < old(self).spec_max_attempts() {
                    final(self).spec_attempts() == old(self).spec_attempts() + 1
                        && final(self).spec_fault() is None
                } else {
                    final(self).spec_attempts() == old(self).spec_attempts()
                        && final(self).spec_fault() == Some(
                        MigrationFault::StepFailed { version: from },
                    )
                },
                _ => final(self).spec_attempts() == old(self).spec_attempts()
                    && final(self).spec_fault() == old(self).spec_fault(),
            },
            a == final(self).spec_next_action(),
    {
        match self.next_action() {
            MigrationAction::Apply { from, to } => {
                if transient && self.attempts < self.max_attempts && self.attempts + 1
                    < self.max_attempts {
                    self.attempts = self.attempts + 1;
                } else {
                    self.fault = Some(MigrationFault::StepFailed { version: from });
                }
            },
            _ => {},
        }
        self.next_action()
    }
}

/// The executor neither repeats nor skips a step: the step it asks for
/// always leaves the version that the store holds, and arrives one above it.
pub proof fn lemma_next_step_leaves_current_version(e: MigrationExecutor)
    ensures
        match e.spec_next_action() {
            MigrationAction::Apply { from, to } => from == e.spec_version() && to.0 == from.0 + 1
                && from.0 < e.spec_target().0 && e.spec_steps().contains(from.0),
            MigrationAction::Finished => e.spec_version().0 >= e.spec_target().0,
            MigrationAction::Halt { fault } => e.spec_fault() == Some(fault) || fault
                == (MigrationFault::MissingStep { version: e.spec_version() }),
        },
{
}

/// A restart resumes where a failed run left off: an executor that starts
/// at the version a failed one holds asks for the very step that failed.
pub proof fn lemma_restart_resumes(stopped: MigrationExecutor, restarted: MigrationExecutor)
    requires
        stopped.wf(),
        stopped.spec_fault() is Some,
        restarted.spec_version() == stopped.spec_version(),
        restarted.spec_target() == stopped.spec_target(),
        restarted.spec_steps() == stopped.spec_steps(),
        restarted.spec_fault() is None,
    ensures
        stopped.spec_fault() == Some(
            MigrationFault::StepFailed { version: stopped.spec_version() },
        ),
        restarted.spec_next_action() == (MigrationAction::Apply {
            from: stopped.spec_version(),
            to: DatabaseVersion((stopped.spec_version().0 + 1) as u64),
        }),
{
}

} // verus!
