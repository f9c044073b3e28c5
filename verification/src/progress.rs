//! Tally of the records a run has dealt with.

use crate::text::{decimal, to_decimal};
use vstd::prelude::*;
use vstd::string::*;

verus! {

/// Counts of the records of one run, by how each ended.
///
/// `total` is the number of records of the run when it is known beforehand,
/// and zero when it is not.
#[derive(Debug)]
pub struct Progress {
    completed: usize,
    skipped: usize,
    failed: usize,
    total: usize,
}

/// The line that reports a tally.
///
/// With a known total it names how many of the records still to be done are
/// completed, then the skipped and the failed, then `percentage`: the share
/// of the records not skipped that are dealt with, as its writer wrote it.
/// Without a known total it names the three counts alone.
pub open spec fn summary_line(
    completed: nat,
    skipped: nat,
    failed: nat,
    total: nat,
    percentage: Seq<char>,
) -> Seq<char> {
    if total > 0 {
        decimal(completed) + " of "@ + decimal((total - skipped - failed) as nat)
            + " completed. ("@ + decimal(skipped) + " skipped, "@ + decimal(failed)
            + " failed) ("@ + percentage + "%)"@
    } else {
        decimal(completed) + " completed. ("@ + decimal(skipped) + " skipped, "@ + decimal(failed)
            + " failed)"@
    }
}

impl Progress {
    pub closed spec fn completed_count(&self) -> nat {
        self.completed as nat
    }

    pub closed spec fn skipped_count(&self) -> nat {
        self.skipped as nat
    }

    pub closed spec fn failed_count(&self) -> nat {
        self.failed as nat
    }

    pub closed spec fn total_count(&self) -> nat {
        self.total as nat
    }

    /// A tally for a run of `total` records of which `skipped` are already
    /// set aside.
    pub fn with_total(total: usize, skipped: usize) -> (progress: Progress)
        ensures
            progress.total_count() == total,
            progress.skipped_count() == skipped,
            progress.completed_count() == 0,
            progress.failed_count() == 0,
    {
        Progress { completed: 0, skipped, failed: 0, total }
    }

    /// A tally that stands at these counts.
    pub fn of_counts(completed: usize, skipped: usize, failed: usize, total: usize) -> (progress:
        Progress)
        ensures
            progress.completed_count() == completed,
            progress.skipped_count() == skipped,
            progress.failed_count() == failed,
            progress.total_count() == total,
    {
        Progress { completed, skipped, failed, total }
    }

    pub fn completed(&self) -> (count: usize)
        ensures
            count == self.completed_count(),
    {
        self.completed
    }

    pub fn skipped(&self) -> (count: usize)
        ensures
            count == self.skipped_count(),
    {
        self.skipped
    }

    pub fn failed(&self) -> (count: usize)
        ensures
            count == self.failed_count(),
    {
        self.failed
    }

    pub fn total(&self) -> (count: usize)
        ensures
            count == self.total_count(),
    {
        self.total
    }

    pub fn add_skipped(&mut self)
        requires
            old(self).skipped_count() < usize::MAX,
        ensures
            final(self).skipped_count() == old(self).skipped_count() + 1,
            final(self).completed_count() == old(self).completed_count(),
            final(self).failed_count() == old(self).failed_count(),
            final(self).total_count() == old(self).total_count(),
    {
        self.skipped += 1;
    }

    pub fn add_completed(&mut self)
        requires
            old(self).completed_count() < usize::MAX,
        ensures
            final(self).completed_count() == old(self).completed_count() + 1,
            final(self).skipped_count() == old(self).skipped_count(),
            final(self).failed_count() == old(self).failed_count(),
            final(self).total_count() == old(self).total_count(),
    {
        self.completed += 1;
    }

    pub fn add_failed(&mut self)
        requires
            old(self).failed_count() < usize::MAX,
        ensures
            final(self).failed_count() == old(self).failed_count() + 1,
            final(self).completed_count() == old(self).completed_count(),
            final(self).skipped_count() == old(self).skipped_count(),
            final(self).total_count() == old(self).total_count(),
    {
        self.failed += 1;
    }

    /// Writes the line that reports this tally.
    ///
    /// `percentage` is the text of the share of the records not skipped that
    /// are completed or failed, as a percentage. The quotient is the caller's
    /// to work out and to write; it is taken as it comes, and left out where
    /// the total is not known. With a known total the skipped and the failed
    /// must not outnumber it.
    pub fn summary(&self, percentage: &str) -> (line: String)
        requires
            self.total_count() > 0 ==> self.skipped_count() + self.failed_count()
                <= self.total_count(),
        ensures
            line@ == summary_line(
                self.completed_count(),
                self.skipped_count(),
                self.failed_count(),
                self.total_count(),
                percentage@,
            ),
    {
        let line = to_decimal(self.completed as u128);
        if self.total > 0 {
            let remaining = self.total - self.skipped;
            let line = line.concat(" of ");
            let line = line.concat(to_decimal((remaining - self.failed) as u128).as_str());
            let line = line.concat(" completed. (");
            let line = line.concat(to_decimal(self.skipped as u128).as_str());
            let line = line.concat(" skipped, ");
            let line = line.concat(to_decimal(self.failed as u128).as_str());
            let line = line.concat(" failed) (");
            let line = line.concat(percentage);
            line.concat("%)")
        } else {
            let line = line.concat(" completed. (");
            let line = line.concat(to_decimal(self.skipped as u128).as_str());
            let line = line.concat(" skipped, ");
            let line = line.concat(to_decimal(self.failed as u128).as_str());
            line.concat(" failed)")
        }
    }
}

impl Default for Progress {
    /// A tally of nothing, for a run whose total is not known.
    fn default() -> (progress: Progress)
        ensures
            progress.total_count() == 0,
            progress.skipped_count() == 0,
            progress.completed_count() == 0,
            progress.failed_count() == 0,
    {
        Progress { completed: 0, skipped: 0, failed: 0, total: 0 }
    }
}

} // verus!
