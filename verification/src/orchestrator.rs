//! Orchestrator decisions: filtering, severity aggregation, and the
//! simplest layout.
//!
//! The caller walks the filesystem and hands entries in; everything
//! that decides -- which entries reach the sort engine, how failures
//! escalate the run's outcome, how deep recursion may go -- is decided
//! here, on plain values.

use vstd::prelude::*;
use crate::ExitCode;
use crate::entry::Entry;

verus! {

/// A dotfile: hidden unless hidden entries were requested.
pub open spec fn hidden(e: Entry) -> bool {
    e.name@.len() > 0 && e.name@[0] == '.'
}

/// The visible entries, in order.
pub open spec fn keep_visible(s: Seq<Entry>) -> Seq<Entry>
    decreases s.len(),
{
    if s.len() == 0 {
        Seq::empty()
    } else if hidden(s[0]) {
        keep_visible(s.drop_first())
    } else {
        seq![s[0]] + keep_visible(s.drop_first())
    }
}

/// Drops the hidden entries, keeping exactly the visible ones in their
/// order.  Filtering runs after extraction and before sorting, so a
/// filtered-out entry never reaches the sort engine or a renderer.
pub fn filter_hidden(v: Vec<Entry>) -> (r: Vec<Entry>)
    ensures
        r@ == keep_visible(v@),
{
    let ghost v0 = v@;
    let mut v = v;
    let mut r: Vec<Entry> = Vec::new();
    proof {
        assert(keep_visible(v0) =~= r@ + keep_visible(v@));
    }
    while v.len() > 0
        invariant
            keep_visible(v0) == r@ + keep_visible(v@),
        decreases v@.len(),
    {
        let ghost before = v@;
        let ghost racc = r@;
        let e = v.remove(0);
        proof {
            assert(v@ =~= before.drop_first());
            assert(before[0] == e);
        }
        if is_hidden_exec(&e) {
            proof {
                assert(keep_visible(before) == keep_visible(v@));
            }
        } else {
            r.push(e);
            proof {
                assert(keep_visible(before) == seq![e] + keep_visible(v@));
                assert(racc + keep_visible(before) =~= r@ + keep_visible(v@));
            }
        }
    }
    proof {
        assert(keep_visible(v@) =~= Seq::<Entry>::empty());
        assert(keep_visible(v0) =~= r@);
    }
    r
}

/// Whether the entry's name starts with a dot.
fn is_hidden_exec(e: &Entry) -> (b: bool)
    ensures
        b == hidden(*e),
{
    let s = e.name.as_str();
    let n = s.unicode_len();
    if n == 0 {
        false
    } else {
        let c = s.get_char(0) as u32;
        c == 46
    }
}

/// Whether descent below this depth is still allowed.
pub fn depth_allows(depth: u64, limit: u64) -> (b: bool)
    ensures
        b == (depth < limit),
{
    depth < limit
}

/// The severity one listed entry contributes: a denied placeholder is a
/// minor issue; anything else is clean.
pub fn entry_outcome(e: &Entry) -> (c: ExitCode)
    ensures
        c == if e.is_denied() {
            ExitCode::MinorIssue
        } else {
            ExitCode::OK
        },
{
    if e.perms.is_none() {
        ExitCode::MinorIssue
    } else {
        ExitCode::OK
    }
}

/// The severity an unlistable root contributes: always a major issue.
pub fn root_failure_outcome() -> (c: ExitCode)
    ensures
        c == ExitCode::MajorIssue,
{
    ExitCode::MajorIssue
}

/// The diagnostic line for an unlistable root path.
pub open spec fn root_error_prefix() -> Seq<char> {
    ("cannot access ")@
}

/// Builds the diagnostic for an unlistable root: the fixed prefix, then
/// the path.
pub fn root_error_message(path: &str) -> (m: String)
    ensures
        m@ == root_error_prefix() + path@,
{
    let mut m = String::from_str("cannot access ");
    m.append(path);
    m
}

/// The greatest severity among the outcomes.
pub open spec fn max_severity(s: Seq<ExitCode>) -> int
    decreases s.len(),
{
    if s.len() == 0 {
        0
    } else {
        let rest = max_severity(s.drop_first());
        if s[0].severity() >= rest {
            s[0].severity()
        } else {
            rest
        }
    }
}

/// Folds a run's outcomes into the overall one: the maximum severity
/// observed, `OK` when nothing was listed.
pub fn aggregate_outcomes(codes: &Vec<ExitCode>) -> (r: ExitCode)
    ensures
        r.severity() == max_severity(codes@),
{
    let mut r = ExitCode::OK;
    let mut i = codes.len();
    proof {
        assert(codes@.skip(codes@.len() as int) =~= Seq::<ExitCode>::empty());
    }
    while i > 0
        invariant
            0 <= i <= codes@.len(),
            r.severity() == max_severity(codes@.skip(i as int)),
        decreases i,
    {
        i = i - 1;
        proof {
            assert(codes@.skip(i as int)[0] == codes@[i as int]);
            assert(codes@.skip(i as int).drop_first() =~= codes@.skip(i as int + 1));
        }
        r.set_if_greater(codes[i]);
    }
    proof {
        assert(codes@.skip(0) =~= codes@);
    }
    r
}

/// One entry per line, each line exactly its cell.
pub fn render_single_column(cells: &Vec<String>) -> (lines: Vec<String>)
    ensures
        lines@.len() == cells@.len(),
        forall|i: int| 0 <= i < cells@.len() ==> (#[trigger] lines@[i])@ == cells@[i]@,
{
    let mut lines: Vec<String> = Vec::new();
    let mut i: usize = 0;
    while i < cells.len()
        invariant
            0 <= i <= cells@.len(),
            lines@.len() == i,
            forall|q: int| 0 <= q < i ==> (#[trigger] lines@[q])@ == cells@[q]@,
        decreases cells@.len() - i,
    {
        lines.push(String::from_str(cells[i].as_str()));
        i = i + 1;
    }
    lines
}

/// Joins an icon and a name into one display cell, separated by one
/// space.
pub fn compose_cell(icon: &str, name: &str) -> (c: String)
    ensures
        c@ == icon@ + seq![' '] + name@,
{
    let mut c = String::from_str(icon);
    c.append(" ");
    c.append(name);
    proof {
        reveal_strlit(" ");
        assert((" ")@ =~= seq![' ']);
        assert(c@ =~= icon@ + seq![' '] + name@);
    }
    c
}

} // verus!
