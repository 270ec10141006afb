//! Color and icon resolution: first-match-wins rule evaluation.
//!
//! The color class follows a fixed precedence: permission-denied
//! placeholder, broken symlink, symlink, directory, executable regular
//! file, extension rule, default.  The icon follows the extension table
//! independently, falling back to a per-type icon, so an entry can have
//! a type-based color but an extension-based icon.  Extension matching
//! is case-insensitive on an ASCII fold and the longest matching suffix
//! wins, earliest rule first on ties.

use vstd::prelude::*;
use crate::entry::{Entry, EntryType};
use crate::sort::fold_code;

verus! {

/// One extension rule of the theme: a (dotted) name suffix, the color
/// group it selects, and its icon.
pub struct ThemeRule {
    pub suffix: String,
    pub color_group: u32,
    pub icon: String,
}

/// The resolved theme: the extension table plus per-type fallback
/// icons.  Immutable for the whole run.
pub struct Theme {
    pub rules: Vec<ThemeRule>,
    pub file_icon: String,
    pub dir_icon: String,
    pub link_icon: String,
}

/// Semantic color class of one entry.
#[derive(PartialEq, Eq, Structural, Copy, Clone, Debug)]
pub enum ColorClass {
    PermissionDenied,
    BrokenSymlink,
    Symlink,
    Directory,
    Executable,
    ExtensionGroup(u32),
    Plain,
}

/// What the resolver yields for one entry.
pub struct ResolvedStyle {
    pub color: ColorClass,
    pub icon: String,
}

/// Case-insensitive comparison key of a text.
pub open spec fn fold_seq(s: Seq<char>) -> Seq<int> {
    s.map_values(|c: char| fold_code(c))
}

/// Whether `suf` is a case-insensitive suffix of `name`.
pub open spec fn suffix_matches(name: Seq<char>, suf: Seq<char>) -> bool {
    suf.len() <= name.len() && fold_seq(name.skip(name.len() - suf.len())) == fold_seq(suf)
}

/// The winning extension rule at or after `i`: among the matching
/// rules, one of maximal suffix length, the earliest on ties.
pub open spec fn best_ext(rules: Seq<ThemeRule>, name: Seq<char>, i: int) -> Option<int>
    decreases rules.len() - i,
{
    if i < 0 || i >= rules.len() {
        None
    } else {
        let rest = best_ext(rules, name, i + 1);
        if suffix_matches(name, rules[i].suffix@) && (rest is None || rules[i].suffix@.len()
            >= rules[rest->0].suffix@.len()) {
            Some(i)
        } else {
            rest
        }
    }
}

/// The color class the rules assign to an entry.
pub open spec fn resolve_color(e: Entry, theme: Theme) -> ColorClass {
    if e.is_denied() {
        ColorClass::PermissionDenied
    } else if e.is_broken_link() {
        ColorClass::BrokenSymlink
    } else if e.entry_type == EntryType::Symlink {
        ColorClass::Symlink
    } else if e.is_dir() {
        ColorClass::Directory
    } else if e.entry_type == EntryType::RegularFile && e.is_executable() {
        ColorClass::Executable
    } else {
        match best_ext(theme.rules@, e.name@, 0) {
            Some(i) => ColorClass::ExtensionGroup(theme.rules@[i].color_group),
            None => ColorClass::Plain,
        }
    }
}

/// The icon the rules assign to an entry: the winning extension rule's
/// icon, else the per-type fallback.
pub open spec fn resolve_icon(e: Entry, theme: Theme) -> Seq<char> {
    match best_ext(theme.rules@, e.name@, 0) {
        Some(i) => theme.rules@[i].icon@,
        None => match e.entry_type {
            EntryType::Directory => theme.dir_icon@,
            EntryType::Symlink => theme.link_icon@,
            _ => theme.file_icon@,
        },
    }
}

/// ASCII case fold of one character, in the encoding space of
/// [`fold_code`].
fn fold_char(ch: char) -> (f: u32)
    ensures
        f as int == fold_code(ch),
{
    let c = ch as u32;
    if 65 <= c && c <= 90 {
        c + 32 + 3
    } else {
        c + 3
    }
}

/// Whether `suf` is a case-insensitive suffix of `name`, exactly as
/// [`suffix_matches`] says.
pub fn suffix_matches_exec(name: &str, suf: &str) -> (b: bool)
    ensures
        b == suffix_matches(name@, suf@),
{
    let n = name.unicode_len();
    let m = suf.unicode_len();
    if m > n {
        return false;
    }
    let mut k: usize = 0;
    while k < m
        invariant
            n == name@.len(),
            m == suf@.len(),
            m <= n,
            0 <= k <= m,
            forall|q: int|
                0 <= q < k ==> #[trigger] fold_seq(name@.skip(n as int - m as int))[q]
                    == fold_seq(suf@)[q],
        decreases m - k,
    {
        let a = fold_char(name.get_char(n - m + k));
        let b = fold_char(suf.get_char(k));
        proof {
            assert(name@.skip(n as int - m as int)[k as int] == name@[n - m + k]);
            assert(fold_seq(name@.skip(n as int - m as int))[k as int] == fold_code(
                name@[n - m + k],
            ));
            assert(fold_seq(suf@)[k as int] == fold_code(suf@[k as int]));
        }
        if a != b {
            return false;
        }
        k = k + 1;
    }
    proof {
        assert(fold_seq(name@.skip(n as int - m as int)) =~= fold_seq(suf@));
    }
    true
}

/// Finds the winning extension rule for a name, exactly [`best_ext`]
/// over the whole table.
pub fn find_best_ext(rules: &Vec<ThemeRule>, name: &str) -> (r: Option<usize>)
    ensures
        match r {
            Some(i) => i < rules@.len() && Some(i as int) == best_ext(rules@, name@, 0),
            None => best_ext(rules@, name@, 0) is None,
        },
{
    let mut cur: Option<usize> = None;
    let mut i = rules.len();
    while i > 0
        invariant
            i <= rules@.len(),
            match cur {
                Some(c) => c < rules@.len() && Some(c as int) == best_ext(rules@, name@, i as int),
                None => best_ext(rules@, name@, i as int) is None,
            },
        decreases i,
    {
        i = i - 1;
        if suffix_matches_exec(name, rules[i].suffix.as_str()) {
            match cur {
                Some(c) => {
                    if rules[i].suffix.unicode_len() >= rules[c].suffix.unicode_len() {
                        cur = Some(i);
                    }
                },
                None => {
                    cur = Some(i);
                },
            }
        }
    }
    cur
}

/// Resolves the display style of one entry under the theme, exactly as
/// [`resolve_color`] and [`resolve_icon`] say.
pub fn resolve(e: &Entry, theme: &Theme) -> (st: ResolvedStyle)
    ensures
        st.color == resolve_color(*e, *theme),
        st.icon@ == resolve_icon(*e, *theme),
{
    let best = find_best_ext(&theme.rules, e.name.as_str());
    let icon = match best {
        Some(i) => String::from_str(theme.rules[i].icon.as_str()),
        None => match e.entry_type {
            EntryType::Directory => String::from_str(theme.dir_icon.as_str()),
            EntryType::Symlink => String::from_str(theme.link_icon.as_str()),
            _ => String::from_str(theme.file_icon.as_str()),
        },
    };
    let color = if e.perms.is_none() {
        ColorClass::PermissionDenied
    } else if is_broken_link_exec(e) {
        ColorClass::BrokenSymlink
    } else if e.entry_type == EntryType::Symlink {
        ColorClass::Symlink
    } else if e.entry_type == EntryType::Directory {
        ColorClass::Directory
    } else if e.entry_type == EntryType::RegularFile && is_executable_exec(e) {
        ColorClass::Executable
    } else {
        match best {
            Some(i) => ColorClass::ExtensionGroup(theme.rules[i].color_group),
            None => ColorClass::Plain,
        }
    };
    ResolvedStyle { color, icon }
}

/// Whether the entry is a symlink whose target is missing.
fn is_broken_link_exec(e: &Entry) -> (b: bool)
    ensures
        b == e.is_broken_link(),
{
    if e.entry_type == EntryType::Symlink {
        match &e.symlink_target {
            Some(t) => !t.exists,
            None => true,
        }
    } else {
        false
    }
}

/// Whether any execute bit is set.
fn is_executable_exec(e: &Entry) -> (b: bool)
    ensures
        b == e.is_executable(),
{
    match &e.perms {
        Some(p) => p.user_execute || p.group_execute || p.other_execute,
        None => false,
    }
}

} // verus!
