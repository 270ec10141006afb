//! A verified core for an enhanced directory-listing tool.
//!
//! The library models one listing pass: filesystem entries (with their
//! metadata) are built from plain values, optionally annotated with a
//! version-control status, sorted under a configurable multi-key policy,
//! and rendered through one of several layout strategies (grid,
//! single-column, long-format table, recursive tree).  All I/O stays with
//! the caller; every function here is verified.

pub mod orchestrator;
pub mod entry;
pub mod grid;
pub mod longfmt;
pub mod providers;
pub mod sort;
pub mod style;
pub mod tree;
pub mod vcs;
pub mod width;

use vstd::prelude::*;

verus! {

/// Overall outcome of a listing run, ordered by severity.
///
/// `MajorIssue` dominates `MinorIssue`, which dominates `OK`.
#[derive(PartialEq, Eq, Structural, Copy, Clone, Debug)]
pub enum ExitCode {
    OK,
    MinorIssue,
    MajorIssue,
}

impl ExitCode {
    /// Numeric severity: `OK` < `MinorIssue` < `MajorIssue`.
    pub open spec fn severity(self) -> int {
        match self {
            ExitCode::OK => 0,
            ExitCode::MinorIssue => 1,
            ExitCode::MajorIssue => 2,
        }
    }

    /// Raises `self` to `code` when `code` is more severe; the result is
    /// always the worse of the two outcomes.
    pub fn set_if_greater(&mut self, code: ExitCode)
        ensures
            final(self).severity() == if old(self).severity() >= code.severity() {
                old(self).severity()
            } else {
                code.severity()
            },
            *final(self) == if old(self).severity() >= code.severity() {
                *old(self)
            } else {
                code
            },
    {
        let self_rank = self.rank();
        let code_rank = code.rank();
        if self_rank < code_rank {
            *self = code;
        }
    }

    /// Executable severity rank, equal to [`ExitCode::severity`].
    pub fn rank(&self) -> (r: u8)
        ensures
            r as int == self.severity(),
    {
        match self {
            ExitCode::OK => 0,
            ExitCode::MinorIssue => 1,
            ExitCode::MajorIssue => 2,
        }
    }
}

} // verus!
