//! Outside providers: date formatting, account-name lookup, terminal
//! width.
//!
//! Each outside call sits behind one trusted wrapper; everything that
//! decides on the returned value is an ordinary verified function that
//! takes the value as an argument.

use vstd::prelude::*;
use crate::longfmt::dec_str;

verus! {

/// What the date formatter yields for a timestamp: a function of the
/// seconds alone (a fixed format, rendered in UTC).
pub uninterp spec fn date_text_of(secs: i64) -> Seq<char>;

/// Relies on `chrono::DateTime::<Utc>::from_timestamp` and `format`:
/// within chrono's representable range the conversion succeeds, and the
/// formatted text depends on the seconds alone.
#[verifier::external_body]
fn chrono_date_display(secs: i64) -> (r: String)
    requires
        -8_000_000_000_000 <= secs <= 8_000_000_000_000,
    ensures
        r@ == date_text_of(secs),
{
    match chrono::DateTime::<chrono::Utc>::from_timestamp(secs, 0) {
        Some(d) => d.format("%Y-%m-%d %H:%M").to_string(),
        None => String::new(),
    }
}

/// The date column for a timestamp: the formatted date within the
/// representable range, a question mark outside it.
pub fn date_cell(secs: i64) -> (r: String)
    ensures
        -8_000_000_000_000 <= secs <= 8_000_000_000_000 ==> r@ == date_text_of(secs),
        !(-8_000_000_000_000 <= secs <= 8_000_000_000_000) ==> r@ == seq!['?'],
{
    if -8_000_000_000_000 <= secs && secs <= 8_000_000_000_000 {
        chrono_date_display(secs)
    } else {
        let q = String::from_str("?");
        proof {
            reveal_strlit("?");
            assert(q@ =~= seq!['?']);
        }
        q
    }
}

/// Relies on `users::get_user_by_uid`: the name the system database
/// currently maps the uid to, when any; the database is machine state,
/// so nothing is promised of the outcome.
#[verifier::external_body]
fn lookup_user_name(uid: u32) -> (r: Option<String>) {
    users::get_user_by_uid(uid).map(|u| u.name().to_string_lossy().into_owned())
}

/// Relies on `users::get_group_by_gid`: the name the system database
/// currently maps the gid to, when any; the database is machine state,
/// so nothing is promised of the outcome.
#[verifier::external_body]
fn lookup_group_name(gid: u32) -> (r: Option<String>) {
    users::get_group_by_gid(gid).map(|g| g.name().to_string_lossy().into_owned())
}

/// The display name for an account id: the resolved name when the
/// lookup yielded one, the numeric id otherwise.
pub fn account_display(id: u32, looked_up: Option<String>) -> (r: String)
    ensures
        match looked_up {
            Some(n) => r@ == n@,
            None => r@ == dec_str(id as int),
        },
{
    match looked_up {
        Some(n) => n,
        None => crate::longfmt::dec_string(id as u64),
    }
}

/// The owner column for a uid: whatever name the system yields now,
/// with the numeric fallback of [`account_display`].
pub fn resolve_owner(uid: u32) -> (r: String) {
    let looked = lookup_user_name(uid);
    account_display(uid, looked)
}

/// The group column for a gid, as [`resolve_owner`] for groups.
pub fn resolve_group(gid: u32) -> (r: String) {
    let looked = lookup_group_name(gid);
    account_display(gid, looked)
}

/// Relies on `terminal_size::terminal_size`: the current terminal's
/// width in columns, when standard output is a terminal; terminal state
/// varies, so nothing is promised of the outcome.
#[verifier::external_body]
fn query_terminal_width() -> (r: Option<u16>) {
    terminal_size::terminal_size().map(|(w, _h)| w.0)
}

/// The width the renderers lay out for: the measured width when there
/// is one, a fixed default of 80 cells otherwise.
pub fn effective_width(measured: Option<u16>) -> (r: u64)
    ensures
        match measured {
            Some(w) => r == w as u64,
            None => r == 80,
        },
{
    match measured {
        Some(w) => w as u64,
        None => 80,
    }
}

/// The layout width for this run: the terminal's measure if any, with
/// the default fallback of [`effective_width`]; never beyond a
/// sixteen-bit column count.
pub fn layout_width() -> (r: u64)
    ensures
        r <= 65535,
{
    let measured = query_terminal_width();
    effective_width(measured)
}

} // verus!
