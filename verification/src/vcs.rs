//! Version-control status: priorities and worst-status aggregation.
//!
//! A directory's status, when status is requested recursively, is the
//! worst (highest-priority) status among its descendants.

use vstd::prelude::*;
use crate::entry::VcsStatus;

verus! {

/// One row of the status table an external provider hands over:
/// a repository-relative path and its status code.
pub struct StatusRow {
    pub path: String,
    pub status: VcsStatus,
}

/// The status the table assigns to `path` from row `i` on: the first
/// matching row wins.
pub open spec fn table_lookup(rows: Seq<StatusRow>, path: Seq<char>, i: int) -> Option<VcsStatus>
    decreases rows.len() - i,
{
    if i < 0 || i >= rows.len() {
        None
    } else if rows[i].path@ == path {
        Some(rows[i].status)
    } else {
        table_lookup(rows, path, i + 1)
    }
}

/// Looks a path up in the provider's table, exactly [`table_lookup`];
/// `None` means no status is available for it.
pub fn lookup_status(rows: &Vec<StatusRow>, path: &String) -> (r: Option<VcsStatus>)
    ensures
        r == table_lookup(rows@, path@, 0),
{
    let mut i: usize = 0;
    while i < rows.len()
        invariant
            0 <= i <= rows@.len(),
            table_lookup(rows@, path@, 0) == table_lookup(rows@, path@, i as int),
        decreases rows@.len() - i,
    {
        if rows[i].path.eq(path) {
            return Some(rows[i].status);
        }
        i = i + 1;
    }
    None
}

/// Aggregation priority: conflicts dominate deletions, which dominate
/// content changes (modification, type change, rename), then additions,
/// then ignored paths, then unmodified ones.
pub open spec fn status_priority(s: VcsStatus) -> int {
    match s {
        VcsStatus::Conflicted => 6,
        VcsStatus::Deleted => 5,
        VcsStatus::Modified => 4,
        VcsStatus::TypeChanged => 4,
        VcsStatus::Renamed => 4,
        VcsStatus::New => 3,
        VcsStatus::Ignored => 2,
        VcsStatus::Unmodified => 1,
    }
}

/// Executable priority, equal to [`status_priority`].
pub fn priority(s: VcsStatus) -> (p: u8)
    ensures
        p as int == status_priority(s),
{
    match s {
        VcsStatus::Conflicted => 6,
        VcsStatus::Deleted => 5,
        VcsStatus::Modified => 4,
        VcsStatus::TypeChanged => 4,
        VcsStatus::Renamed => 4,
        VcsStatus::New => 3,
        VcsStatus::Ignored => 2,
        VcsStatus::Unmodified => 1,
    }
}

/// The one-character listing marker of a status.
pub open spec fn marker_char(s: VcsStatus) -> char {
    match s {
        VcsStatus::Conflicted => 'C',
        VcsStatus::Deleted => 'D',
        VcsStatus::Modified => 'M',
        VcsStatus::TypeChanged => 'T',
        VcsStatus::Renamed => 'R',
        VcsStatus::New => 'N',
        VcsStatus::Ignored => 'I',
        VcsStatus::Unmodified => '-',
    }
}

/// The marker shown next to an entry carrying a status, exactly
/// [`marker_char`]; a dot where no status is attached.
pub fn status_marker(s: Option<VcsStatus>) -> (m: &'static str)
    ensures
        match s {
            Some(st) => m@ == seq![marker_char(st)],
            None => m@ == seq!['.'],
        },
{
    let r: &'static str = match s {
        Some(VcsStatus::Conflicted) => "C",
        Some(VcsStatus::Deleted) => "D",
        Some(VcsStatus::Modified) => "M",
        Some(VcsStatus::TypeChanged) => "T",
        Some(VcsStatus::Renamed) => "R",
        Some(VcsStatus::New) => "N",
        Some(VcsStatus::Ignored) => "I",
        Some(VcsStatus::Unmodified) => "-",
        None => ".",
    };
    proof {
        reveal_strlit("C");
        reveal_strlit("D");
        reveal_strlit("M");
        reveal_strlit("T");
        reveal_strlit("R");
        reveal_strlit("N");
        reveal_strlit("I");
        reveal_strlit("-");
        reveal_strlit(".");
        match s {
            Some(st) => {
                assert(r@ =~= seq![marker_char(st)]);
            },
            None => {
                assert(r@ =~= seq!['.']);
            },
        }
    }
    r
}

/// The worst status among the given ones: `None` only for an empty
/// list; otherwise one of the listed statuses, of maximal priority.
pub fn worst_status(list: &Vec<VcsStatus>) -> (r: Option<VcsStatus>)
    ensures
        r is None <==> list@.len() == 0,
        r matches Some(w) ==> list@.contains(w) && forall|i: int|
            0 <= i < list@.len() ==> status_priority(#[trigger] list@[i]) <= status_priority(w),
{
    if list.len() == 0 {
        return None;
    }
    let mut best = list[0];
    let mut bp = priority(best);
    proof {
        assert(list@.contains(list@[0]));
    }
    let mut i: usize = 1;
    while i < list.len()
        invariant
            1 <= i <= list@.len(),
            bp as int == status_priority(best),
            list@.contains(best),
            forall|k: int| 0 <= k < i ==> status_priority(#[trigger] list@[k]) <= bp as int,
        decreases list@.len() - i,
    {
        let p = priority(list[i]);
        if p > bp {
            best = list[i];
            bp = p;
            proof {
                assert(list@.contains(list@[i as int]));
            }
        }
        i = i + 1;
    }
    Some(best)
}

} // verus!
