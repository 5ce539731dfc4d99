//! The order in which a prune run verifies its backups and deletes from them.
//!
//! First every annotation, comment and email backup is verified against the
//! manifest; only when all of them have passed does deletion start, comment
//! backups first, then email backups. The first failure ends the run. The
//! caller performs each step and reports whether it succeeded.

use vstd::prelude::*;
use crate::commands::prune::Manifest;

verus! {

/// One step of the verify-then-delete pass, naming a manifest entry by its
/// index in its list.
#[derive(PartialEq, Eq, Structural, Debug)]
pub enum Step {
    /// Check the count and checksum of an annotation backup.
    VerifyAnnotationBackup(usize),
    /// Check a comment backup: every line parses, count and checksum match.
    VerifyCommentBackup(usize),
    /// Check an email backup: every line parses, count and checksum match.
    VerifyEmailBackup(usize),
    /// Delete the comments listed in a comment backup.
    DeleteFromCommentBackup(usize),
    /// Delete the emails listed in an email backup.
    DeleteFromEmailBackup(usize),
}

/// Whether a step only reads a backup.
pub open spec fn is_verification(step: Step) -> bool {
    match step {
        Step::VerifyAnnotationBackup(_) => true,
        Step::VerifyCommentBackup(_) => true,
        Step::VerifyEmailBackup(_) => true,
        _ => false,
    }
}

/// Number of steps for `a` annotation, `c` comment and `e` email backups.
pub open spec fn plan_len(a: nat, c: nat, e: nat) -> nat {
    a + c + e + c + e
}

/// The step at position `p` of the plan.
pub open spec fn step_at(a: nat, c: nat, e: nat, p: int) -> Step {
    if p < a {
        Step::VerifyAnnotationBackup(p as usize)
    } else if p < a + c {
        Step::VerifyCommentBackup((p - a) as usize)
    } else if p < a + c + e {
        Step::VerifyEmailBackup((p - a - c) as usize)
    } else if p < a + c + e + c {
        Step::DeleteFromCommentBackup((p - a - c - e) as usize)
    } else {
        Step::DeleteFromEmailBackup((p - a - c - e - c) as usize)
    }
}

/// The whole pass: verify every annotation, comment and email backup, then
/// delete from every comment backup, then from every email backup.
pub open spec fn plan(a: nat, c: nat, e: nat) -> Seq<Step> {
    Seq::new(plan_len(a, c, e), |p: int| step_at(a, c, e, p))
}

/// No deletion comes before every backup has been verified: each delete
/// step of the plan comes after all of its verification steps, and those
/// name every annotation, comment and email backup of the manifest.
pub proof fn lemma_every_backup_verified_before_any_delete(a: nat, c: nat, e: nat, p: int)
    requires
        0 <= p < plan_len(a, c, e),
        !is_verification(plan(a, c, e)[p]),
    ensures
        p >= a + c + e,
        forall|q: int| 0 <= q < a + c + e ==> #[trigger] is_verification(plan(a, c, e)[q]),
        forall|i: int|
            0 <= i < a ==> #[trigger] plan(a, c, e)[i] == Step::VerifyAnnotationBackup(i as usize),
        forall|i: int|
            0 <= i < c ==> #[trigger] plan(a, c, e)[a + i] == Step::VerifyCommentBackup(i as usize),
        forall|i: int|
            0 <= i < e ==> #[trigger] plan(a, c, e)[a + c + i] == Step::VerifyEmailBackup(
                i as usize,
            ),
{
}

/// Which part of the plan the pass is in.
enum Phase {
    VerifyAnnotations,
    VerifyComments,
    VerifyEmails,
    DeleteComments,
    DeleteEmails,
    Finished,
}

/// Drives the verify-then-delete pass over the backups of a manifest.
pub struct VerifyThenDelete {
    annotations: usize,
    comments: usize,
    emails: usize,
    phase: Phase,
    index: usize,
    aborted: bool,
}

impl VerifyThenDelete {
    spec fn phase_start(&self, phase: Phase) -> nat {
        let (a, c, e) = (self.annotations as nat, self.comments as nat, self.emails as nat);
        match phase {
            Phase::VerifyAnnotations => 0,
            Phase::VerifyComments => a,
            Phase::VerifyEmails => a + c,
            Phase::DeleteComments => a + c + e,
            Phase::DeleteEmails => a + c + e + c,
            Phase::Finished => plan_len(a, c, e),
        }
    }

    spec fn phase_len(&self, phase: Phase) -> nat {
        match phase {
            Phase::VerifyAnnotations => self.annotations as nat,
            Phase::VerifyComments => self.comments as nat,
            Phase::VerifyEmails => self.emails as nat,
            Phase::DeleteComments => self.comments as nat,
            Phase::DeleteEmails => self.emails as nat,
            Phase::Finished => 0,
        }
    }

    /// The plan this pass follows.
    pub closed spec fn steps(&self) -> Seq<Step> {
        plan(self.annotations as nat, self.comments as nat, self.emails as nat)
    }

    /// How many steps of the plan have been carried out, all successfully.
    pub closed spec fn position(&self) -> nat {
        self.phase_start(self.phase) + self.index as nat
    }

    /// Whether a step failed, which ends the pass.
    pub closed spec fn aborted(&self) -> bool {
        self.aborted
    }

    pub closed spec fn wf(&self) -> bool {
        ||| self.index < self.phase_len(self.phase)
        ||| (self.phase is Finished && self.index == 0)
    }

    /// The first phase at or after `phase` that has a step.
    fn settle(&self, phase: Phase) -> (settled: Phase)
        ensures
            self.phase_start(settled) == self.phase_start(phase),
            settled is Finished || self.phase_len(settled) > 0,
    {
        let mut current = phase;
        loop
            invariant
                self.phase_start(current) == self.phase_start(phase),
            decreases self.phase_rank(current),
        {
            let length: usize = match current {
                Phase::VerifyAnnotations => self.annotations,
                Phase::VerifyComments => self.comments,
                Phase::VerifyEmails => self.emails,
                Phase::DeleteComments => self.comments,
                Phase::DeleteEmails => self.emails,
                Phase::Finished => {
                    return current;
                },
            };
            if length > 0 {
                return current;
            }
            current = match current {
                Phase::VerifyAnnotations => Phase::VerifyComments,
                Phase::VerifyComments => Phase::VerifyEmails,
                Phase::VerifyEmails => Phase::DeleteComments,
                Phase::DeleteComments => Phase::DeleteEmails,
                _ => Phase::Finished,
            };
        }
    }

    spec fn phase_rank(&self, phase: Phase) -> nat {
        match phase {
            Phase::VerifyAnnotations => 5,
            Phase::VerifyComments => 4,
            Phase::VerifyEmails => 3,
            Phase::DeleteComments => 2,
            Phase::DeleteEmails => 1,
            Phase::Finished => 0,
        }
    }

    /// A pass over the backups listed in `manifest`, with no step done.
    pub fn new(manifest: &Manifest) -> (pass: VerifyThenDelete)
        ensures
            pass.wf(),
            pass.steps() == plan(
                manifest.annotation_backups@.len(),
                manifest.comment_backups@.len(),
                manifest.email_backups@.len(),
            ),
            pass.position() == 0,
            !pass.aborted(),
    {
        let mut pass = VerifyThenDelete {
            annotations: manifest.annotation_backups.len(),
            comments: manifest.comment_backups.len(),
            emails: manifest.email_backups.len(),
            phase: Phase::VerifyAnnotations,
            index: 0,
            aborted: false,
        };
        pass.phase = pass.settle(Phase::VerifyAnnotations);
        pass
    }

    /// The step to carry out next, or `None` once the pass is over: after
    /// the last step, or after a failure.
    pub fn next_step(&self) -> (step: Option<Step>)
        requires
            self.wf(),
        ensures
            self.position() <= self.steps().len(),
            step matches Some(s) ==> !self.aborted() && self.position() < self.steps().len() && s
                == self.steps()[self.position() as int],
            step is None ==> self.aborted() || self.position() == self.steps().len(),
    {
        if self.aborted {
            return None;
        }
        match self.phase {
            Phase::VerifyAnnotations => Some(Step::VerifyAnnotationBackup(self.index)),
            Phase::VerifyComments => Some(Step::VerifyCommentBackup(self.index)),
            Phase::VerifyEmails => Some(Step::VerifyEmailBackup(self.index)),
            Phase::DeleteComments => Some(Step::DeleteFromCommentBackup(self.index)),
            Phase::DeleteEmails => Some(Step::DeleteFromEmailBackup(self.index)),
            Phase::Finished => None,
        }
    }

    /// Records the outcome of the step `next_step` named: success moves on
    /// to the following step, failure ends the pass.
    pub fn record(&mut self, succeeded: bool)
        requires
            old(self).wf(),
            !old(self).aborted(),
            old(self).position() < old(self).steps().len(),
        ensures
            final(self).wf(),
            final(self).steps() == old(self).steps(),
            succeeded ==> !final(self).aborted() && final(self).position() == old(self).position()
                + 1,
            !succeeded ==> final(self).aborted() && final(self).position() == old(self).position(),
    {
        if !succeeded {
            self.aborted = true;
            return;
        }
        let length: usize = match self.phase {
            Phase::VerifyAnnotations => self.annotations,
            Phase::VerifyComments => self.comments,
            Phase::VerifyEmails => self.emails,
            Phase::DeleteComments => self.comments,
            Phase::DeleteEmails => self.emails,
            Phase::Finished => 0,
        };
        if self.index + 1 < length {
            self.index = self.index + 1;
        } else {
            let following = match self.phase {
                Phase::VerifyAnnotations => Phase::VerifyComments,
                Phase::VerifyComments => Phase::VerifyEmails,
                Phase::VerifyEmails => Phase::DeleteComments,
                Phase::DeleteComments => Phase::DeleteEmails,
                _ => Phase::Finished,
            };
            self.phase = self.settle(following);
            self.index = 0;
        }
    }
}

/// A pass reaches a deletion only after every verification step of the plan
/// has been carried out and reported successful.
pub proof fn lemma_pass_deletes_only_after_verifying(pass: VerifyThenDelete)
    requires
        pass.wf(),
        !pass.aborted(),
        pass.position() < pass.steps().len(),
        !is_verification(pass.steps()[pass.position() as int]),
    ensures
        forall|q: int|
            0 <= q < pass.steps().len() && #[trigger] is_verification(pass.steps()[q]) ==> q
                < pass.position(),
{
    let (a, c, e) = (pass.annotations as nat, pass.comments as nat, pass.emails as nat);
    lemma_every_backup_verified_before_any_delete(a, c, e, pass.position() as int);
}

} // verus!
