//! The atomic file channel: the order of the steps by which one file is read
//! or replaced so that no reader ever sees it half written.
//!
//! The steps themselves touch the file system and are taken by the caller.
//! A [`Transfer`] says which step comes next, is told how each one went, and
//! keeps the first failure.

use vstd::prelude::*;
use crate::error::{Error, ErrorView};

verus! {

/// One step on the way to reading or replacing a file.
#[derive(Clone, Copy, Debug, PartialEq, Eq, Structural)]
pub enum Step {
    /// Open the file for reading, creating it empty if it is not there.
    Open,
    /// Take the shared lock on the file.
    LockShared,
    /// Read the whole file.
    ReadAll,
    /// Open the file, creating it if it is not there, and take the exclusive
    /// lock on it, waiting for as long as another holds it.
    LockExclusive,
    /// Create a fresh temporary file in the directory of the file.
    CreateTemp,
    /// Write the new contents to the temporary file.
    WriteTemp,
    /// Flush the temporary file.
    FlushTemp,
    /// Force the temporary file to disk.
    SyncTemp,
    /// Put the temporary file in the place of the file, by a rename.
    Rename,
    /// Delete the temporary file.
    DiscardTemp,
    /// Release the lock.
    Unlock,
}

/// What a transfer is for.
#[derive(Clone, Copy, Debug, PartialEq, Eq, Structural)]
pub enum Direction {
    Read,
    Write,
}

/// The steps of a transfer, in their order, as long as none fails.
pub open spec fn plan(direction: Direction) -> Seq<Step> {
    match direction {
        Direction::Read => seq![Step::Open, Step::LockShared, Step::ReadAll],
        Direction::Write => seq![
            Step::LockExclusive,
            Step::CreateTemp,
            Step::WriteTemp,
            Step::FlushTemp,
            Step::SyncTemp,
            Step::Rename,
        ],
    }
}

/// Whether a lock is held once `done` steps of the plan have succeeded.
pub open spec fn holds_lock(direction: Direction, done: nat) -> bool {
    match direction {
        Direction::Read => done >= 2,
        Direction::Write => done >= 1,
    }
}

/// Whether a temporary file exists once `done` steps of the plan have
/// succeeded: from its creation until the rename.
pub open spec fn holds_temp(direction: Direction, done: nat) -> bool {
    direction == Direction::Write && 2 <= done < 6
}

/// The steps that tidy up after `done` steps of the plan have succeeded and
/// no further one will be taken: the temporary file goes, then the lock.
pub open spec fn cleanup(direction: Direction, done: nat) -> Seq<Step> {
    let discard = if holds_temp(direction, done) {
        seq![Step::DiscardTemp]
    } else {
        Seq::<Step>::empty()
    };
    let unlock = if holds_lock(direction, done) {
        seq![Step::Unlock]
    } else {
        Seq::<Step>::empty()
    };
    discard + unlock
}

/// Where a transfer stands.
pub struct TransferView {
    /// What the transfer is for.
    pub direction: Direction,
    /// How many steps of the plan have succeeded.
    pub done: nat,
    /// The failure of the step that failed, if one did.
    pub failure: Option<ErrorView>,
    /// How many steps of the cleanup have been taken.
    pub cleaned: nat,
}

impl TransferView {
    /// Whether the plan is over: all of it succeeded, or a step failed.
    pub open spec fn settled(self) -> bool {
        self.failure is Some || self.done >= plan(self.direction).len()
    }

    /// The step to take next, if any is left.
    pub open spec fn next(self) -> Option<Step> {
        if !self.settled() {
            Some(plan(self.direction)[self.done as int])
        } else if self.cleaned < cleanup(self.direction, self.done).len() {
            Some(cleanup(self.direction, self.done)[self.cleaned as int])
        } else {
            None
        }
    }

    /// Where the transfer stands after the step that `next` named went as
    /// `result` says. A step of the plan that fails ends the plan with its
    /// failure. How a step of the cleanup went changes nothing.
    pub open spec fn after(self, result: Result<(), Seq<char>>) -> TransferView {
        if !self.settled() {
            match result {
                Ok(()) => TransferView { done: self.done + 1, ..self },
                Err(message) => TransferView { failure: Some(ErrorView::Io(message)), ..self },
            }
        } else if self.cleaned < cleanup(self.direction, self.done).len() {
            TransferView { cleaned: self.cleaned + 1, ..self }
        } else {
            self
        }
    }

    /// Whether the transfer can have come about: it counts no more steps
    /// than there are.
    pub open spec fn wf(self) -> bool {
        &&& self.done <= plan(self.direction).len()
        &&& self.cleaned <= cleanup(self.direction, self.done).len()
        &&& self.cleaned > 0 ==> self.settled()
    }
}

/// The path of one file that is read and replaced as a whole.
pub struct AtomicFile {
    path: String,
}

/// A transfer under way.
pub struct Transfer {
    direction: Direction,
    done: u8,
    failure: Option<Error>,
    cleaned: u8,
}

impl View for Transfer {
    type V = TransferView;

    closed spec fn view(&self) -> TransferView {
        TransferView {
            direction: self.direction,
            done: self.done as nat,
            failure: match self.failure {
                Some(e) => Some(e@),
                None => None,
            },
            cleaned: self.cleaned as nat,
        }
    }
}

impl AtomicFile {
    /// The path.
    pub closed spec fn view(&self) -> Seq<char> {
        self.path@
    }

    /// The channel for the file at `path`.
    pub fn new(path: String) -> (file: Self)
        ensures
            file@ == path@,
    {
        AtomicFile { path }
    }

    /// The path of the file.
    pub fn path(&self) -> (path: &String)
        ensures
            path@ == self@,
    {
        &self.path
    }

    /// Begins to read the file.
    pub fn read(&self) -> (transfer: Transfer)
        ensures
            transfer@ == (TransferView {
                direction: Direction::Read,
                done: 0,
                failure: None,
                cleaned: 0,
            }),
            transfer.wf(),
    {
        Transfer { direction: Direction::Read, done: 0, failure: None, cleaned: 0 }
    }

    /// Begins to replace the file.
    pub fn write(&self) -> (transfer: Transfer)
        ensures
            transfer@ == (TransferView {
                direction: Direction::Write,
                done: 0,
                failure: None,
                cleaned: 0,
            }),
            transfer.wf(),
    {
        Transfer { direction: Direction::Write, done: 0, failure: None, cleaned: 0 }
    }
}

impl Transfer {
    #[verifier::type_invariant]
    spec fn counts_in_range(&self) -> bool {
        self@.wf()
    }

    /// Whether the transfer counts no more steps than there are. Every
    /// transfer does.
    pub open spec fn wf(&self) -> bool {
        self@.wf()
    }

    /// The step to take next, or `None` when the transfer is over.
    pub fn next(&self) -> (step: Option<Step>)
        ensures
            step == self@.next(),
            self.wf(),
    {
        proof {
            use_type_invariant(self);
        }
        let planned: u8 = match self.direction {
            Direction::Read => 3,
            Direction::Write => 6,
        };
        if self.failure.is_none() && self.done < planned {
            let step = match self.direction {
                Direction::Read => if self.done == 0 {
                    Step::Open
                } else if self.done == 1 {
                    Step::LockShared
                } else {
                    Step::ReadAll
                },
                Direction::Write => if self.done == 0 {
                    Step::LockExclusive
                } else if self.done == 1 {
                    Step::CreateTemp
                } else if self.done == 2 {
                    Step::WriteTemp
                } else if self.done == 3 {
                    Step::FlushTemp
                } else if self.done == 4 {
                    Step::SyncTemp
                } else {
                    Step::Rename
                },
            };
            Some(step)
        } else {
            let temp = match self.direction {
                Direction::Read => false,
                Direction::Write => 2 <= self.done && self.done < 6,
            };
            let lock = match self.direction {
                Direction::Read => self.done >= 2,
                Direction::Write => self.done >= 1,
            };
            if temp && self.cleaned == 0 {
                Some(Step::DiscardTemp)
            } else if lock && ((temp && self.cleaned == 1) || (!temp && self.cleaned == 0)) {
                Some(Step::Unlock)
            } else {
                None
            }
        }
    }

    /// Takes note of how the step that `next` named went: `Ok`, or `Err`
    /// with the message of the failure. Once `next` names no step, nothing
    /// changes.
    pub fn report(&mut self, result: Result<(), String>)
        ensures
            final(self)@ == old(self)@.after(
                match result {
                    Ok(()) => Ok(()),
                    Err(message) => Err(message@),
                },
            ),
            final(self).wf(),
    {
        proof {
            use_type_invariant(&*self);
        }
        let planned: u8 = match self.direction {
            Direction::Read => 3,
            Direction::Write => 6,
        };
        if self.failure.is_none() && self.done < planned {
            match result {
                Ok(()) => {
                    self.done = self.done + 1;
                },
                Err(message) => {
                    self.failure = Some(Error::Io(message));
                },
            }
        } else {
            let ghost steps = cleanup(self.direction, self.done as nat);
            let temp = match self.direction {
                Direction::Read => false,
                Direction::Write => 2 <= self.done && self.done < 6,
            };
            let lock = match self.direction {
                Direction::Read => self.done >= 2,
                Direction::Write => self.done >= 1,
            };
            let total: u8 = if temp && lock {
                2
            } else if temp || lock {
                1
            } else {
                0
            };
            if self.cleaned < total {
                self.cleaned = self.cleaned + 1;
            }
        }
    }

    /// Whether the transfer is over: no step is left to take.
    pub fn is_over(&self) -> (over: bool)
        ensures
            over == (self@.next() is None),
    {
        self.next().is_none()
    }

    /// How the transfer ended: the failure of the step that failed, if one
    /// did.
    pub fn result(&self) -> (r: Result<(), Error>)
        ensures
            match r {
                Ok(()) => self@.failure is None,
                Err(e) => self@.failure == Some(e@),
            },
    {
        match &self.failure {
            Some(e) => Err(e.clone()),
            None => Ok(()),
        }
    }
}

/// The rename is asked for only after the lock was taken and the temporary
/// file was created, written, flushed and forced to disk, each with
/// success.
pub proof fn lemma_rename_comes_last(t: TransferView)
    requires
        t.wf(),
        t.next() == Some(Step::Rename),
    ensures
        t.direction == Direction::Write,
        t.failure is None,
        t.done == 5,
{
}

/// Once a step has failed, no step of the plan is taken any more: the file
/// is not written to and not replaced. The failure stays the one it was.
pub proof fn lemma_failure_ends_plan(t: TransferView, result: Result<(), Seq<char>>)
    requires
        t.wf(),
        t.failure is Some,
    ensures
        t.next() is None || t.next() == Some(Step::DiscardTemp) || t.next() == Some(Step::Unlock),
        t.after(result).failure == t.failure,
        t.after(result).done == t.done,
        t.after(result).wf(),
{
}

/// Every report leaves a transfer that can have come about, and until the
/// transfer is over every report gets it one step further.
pub proof fn lemma_report_advances(t: TransferView, result: Result<(), Seq<char>>)
    requires
        t.wf(),
    ensures
        t.after(result).wf(),
        t.next() is Some ==> remaining(t.after(result)) < remaining(t),
        t.next() is None ==> t.after(result) == t,
{
}

/// An upper bound on the number of steps that a transfer has left.
pub open spec fn remaining(t: TransferView) -> int {
    (if t.failure is Some {
        0
    } else {
        2 * (plan(t.direction).len() - t.done)
    }) + 2 - t.cleaned
}

/// When a transfer is over, no temporary file is left and no lock is held:
/// whatever was created or taken on the way was renamed, deleted or
/// released.
pub proof fn lemma_over_leaves_nothing(t: TransferView)
    requires
        t.wf(),
        t.next() is None,
    ensures
        t.settled(),
        holds_temp(t.direction, t.done) ==> cleanup(t.direction, t.done).contains(Step::DiscardTemp),
        holds_lock(t.direction, t.done) ==> cleanup(t.direction, t.done).contains(Step::Unlock),
        t.cleaned == cleanup(t.direction, t.done).len(),
{
    let steps = cleanup(t.direction, t.done);
    if holds_temp(t.direction, t.done) {
        assert(steps[0] == Step::DiscardTemp);
    }
    if holds_lock(t.direction, t.done) {
        assert(steps[steps.len() - 1] == Step::Unlock);
    }
}

} // verus!
