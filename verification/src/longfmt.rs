//! Long-format rendering: one entry per line, as a table of fixed
//! logical columns (permissions, link count, owner, group, size, date,
//! name).
//!
//! Column widths are the maxima observed across the rows being rendered
//! in one call; sizes and link counts are right-aligned, text columns
//! left-aligned, and the final name column is never padded.  A denied
//! entry keeps its row, with a marker in the permission column.

use vstd::prelude::*;
use crate::entry::{Entry, EntryType, Permissions};
use crate::grid::{spaces, views};
use crate::width::text_width;

verus! {

/// The decimal digit character for `d`.
pub open spec fn digit_char(d: int) -> char {
    if d == 0 {
        '0'
    } else if d == 1 {
        '1'
    } else if d == 2 {
        '2'
    } else if d == 3 {
        '3'
    } else if d == 4 {
        '4'
    } else if d == 5 {
        '5'
    } else if d == 6 {
        '6'
    } else if d == 7 {
        '7'
    } else if d == 8 {
        '8'
    } else {
        '9'
    }
}

/// The decimal numeral of `n`, most significant digit first.
pub open spec fn dec_str(n: int) -> Seq<char>
    decreases n,
{
    if n < 10 {
        seq![digit_char(n)]
    } else {
        dec_str(n / 10).push(digit_char(n % 10))
    }
}

/// One decimal digit as text.
fn digit_str(d: u64) -> (s: &'static str)
    requires
        d < 10,
    ensures
        s@ == seq![digit_char(d as int)],
{
    let r: &'static str = if d == 0 {
        "0"
    } else if d == 1 {
        "1"
    } else if d == 2 {
        "2"
    } else if d == 3 {
        "3"
    } else if d == 4 {
        "4"
    } else if d == 5 {
        "5"
    } else if d == 6 {
        "6"
    } else if d == 7 {
        "7"
    } else if d == 8 {
        "8"
    } else {
        "9"
    };
    proof {
        reveal_strlit("0");
        reveal_strlit("1");
        reveal_strlit("2");
        reveal_strlit("3");
        reveal_strlit("4");
        reveal_strlit("5");
        reveal_strlit("6");
        reveal_strlit("7");
        reveal_strlit("8");
        reveal_strlit("9");
        assert(r@ =~= seq![digit_char(d as int)]);
    }
    r
}

/// Renders `n` in decimal, exactly [`dec_str`].
pub fn dec_string(n: u64) -> (s: String)
    ensures
        s@ == dec_str(n as int),
    decreases n,
{
    if n < 10 {
        String::from_str(digit_str(n))
    } else {
        let mut s = dec_string(n / 10);
        s.append(digit_str(n % 10));
        proof {
            assert(s@ =~= dec_str(n as int / 10).push(digit_char(n as int % 10)));
        }
        s
    }
}

/// A permission flag: its letter when set, a dash when clear.
pub open spec fn flag_char(b: bool, c: char) -> char {
    if b {
        c
    } else {
        '-'
    }
}

/// An execute position, possibly carrying a special bit: the special
/// letter (lower case when executable) when the special bit is set,
/// else the plain execute flag.
pub open spec fn special_char(x: bool, special: bool, on: char, off: char) -> char {
    if special {
        if x {
            on
        } else {
            off
        }
    } else {
        if x {
            'x'
        } else {
            '-'
        }
    }
}

/// The nine-character permission field.
pub open spec fn perm_display(p: Permissions) -> Seq<char> {
    seq![
        flag_char(p.user_read, 'r'),
        flag_char(p.user_write, 'w'),
        special_char(p.user_execute, p.setuid, 's', 'S'),
        flag_char(p.group_read, 'r'),
        flag_char(p.group_write, 'w'),
        special_char(p.group_execute, p.setgid, 's', 'S'),
        flag_char(p.other_read, 'r'),
        flag_char(p.other_write, 'w'),
        special_char(p.other_execute, p.sticky, 't', 'T'),
    ]
}

/// The permission-column marker of an entry whose metadata could not be
/// read.
pub open spec fn denied_marker() -> Seq<char> {
    seq!['d', 'e', 'n', 'i', 'e', 'd']
}

fn suid_str(x: bool, special: bool) -> (r: &'static str)
    ensures
        r@ == seq![special_char(x, special, 's', 'S')],
{
    let r: &'static str = if special {
        if x {
            "s"
        } else {
            "S"
        }
    } else {
        if x {
            "x"
        } else {
            "-"
        }
    };
    proof {
        reveal_strlit("s");
        reveal_strlit("S");
        reveal_strlit("x");
        reveal_strlit("-");
        assert(r@ =~= seq![special_char(x, special, 's', 'S')]);
    }
    r
}

fn sticky_str(x: bool, special: bool) -> (r: &'static str)
    ensures
        r@ == seq![special_char(x, special, 't', 'T')],
{
    let r: &'static str = if special {
        if x {
            "t"
        } else {
            "T"
        }
    } else {
        if x {
            "x"
        } else {
            "-"
        }
    };
    proof {
        reveal_strlit("t");
        reveal_strlit("T");
        reveal_strlit("x");
        reveal_strlit("-");
        assert(r@ =~= seq![special_char(x, special, 't', 'T')]);
    }
    r
}

fn flag_str_r(b: bool) -> (r: &'static str)
    ensures
        r@ == seq![flag_char(b, 'r')],
{
    let r: &'static str = if b {
        "r"
    } else {
        "-"
    };
    proof {
        reveal_strlit("r");
        reveal_strlit("-");
        assert(r@ =~= seq![flag_char(b, 'r')]);
    }
    r
}

fn flag_str_w(b: bool) -> (r: &'static str)
    ensures
        r@ == seq![flag_char(b, 'w')],
{
    let r: &'static str = if b {
        "w"
    } else {
        "-"
    };
    proof {
        reveal_strlit("w");
        reveal_strlit("-");
        assert(r@ =~= seq![flag_char(b, 'w')]);
    }
    r
}

/// The permission field of `p`, exactly [`perm_display`].
#[verifier::rlimit(60)]
pub fn perm_string(p: &Permissions) -> (s: String)
    ensures
        s@ == perm_display(*p),
{
    let mut s = String::new();
    s.append(flag_str_r(p.user_read));
    s.append(flag_str_w(p.user_write));
    s.append(suid_str(p.user_execute, p.setuid));
    s.append(flag_str_r(p.group_read));
    s.append(flag_str_w(p.group_write));
    s.append(suid_str(p.group_execute, p.setgid));
    s.append(flag_str_r(p.other_read));
    s.append(flag_str_w(p.other_write));
    s.append(sticky_str(p.other_execute, p.sticky));
    proof {
        assert(s@ =~= perm_display(*p));
    }
    s
}

/// The permission column of an entry: its permission field, or the
/// denied marker when extraction failed.
pub open spec fn perm_cell(e: Entry) -> Seq<char> {
    match e.perms {
        Some(p) => perm_display(p),
        None => denied_marker(),
    }
}

/// The size column: the byte count, or a dash placeholder for a
/// directory.
pub open spec fn size_cell(e: Entry) -> Seq<char> {
    if e.entry_type == EntryType::Directory {
        seq!['-']
    } else {
        dec_str(e.size as int)
    }
}

/// Builds the seven cells of one long-format row: permissions, link
/// count, owner, group, size, date, name.
pub fn long_cells(e: &Entry, date: String) -> (row: Vec<String>)
    ensures
        views(row@) =~= seq![
            perm_cell(*e),
            dec_str(e.nlink as int),
            e.owner@,
            e.group@,
            size_cell(*e),
            date@,
            e.name@,
        ],
{
    let mut row: Vec<String> = Vec::new();
    let perms = match &e.perms {
        Some(p) => perm_string(p),
        None => {
            let d = String::from_str("denied");
            proof {
                reveal_strlit("denied");
                assert(d@ =~= denied_marker());
            }
            d
        },
    };
    row.push(perms);
    row.push(dec_string(e.nlink));
    row.push(String::from_str(e.owner.as_str()));
    row.push(String::from_str(e.group.as_str()));
    let size = if e.entry_type == EntryType::Directory {
        let d = String::from_str("-");
        proof {
            reveal_strlit("-");
            assert(d@ =~= seq!['-']);
        }
        d
    } else {
        dec_string(e.size)
    };
    row.push(size);
    row.push(date);
    row.push(String::from_str(e.name.as_str()));
    row
}

/// The alignment of the seven long-format columns: link count and size
/// right-aligned, all text columns left-aligned.
pub fn long_aligns() -> (a: Vec<bool>)
    ensures
        a@ =~= seq![false, true, false, false, true, false, false],
{
    let mut a: Vec<bool> = Vec::new();
    a.push(false);
    a.push(true);
    a.push(false);
    a.push(false);
    a.push(true);
    a.push(false);
    a.push(false);
    a
}

/// Deep view of a table: every cell as its characters.
pub open spec fn deep(rows: Seq<Vec<String>>) -> Seq<Seq<Seq<char>>> {
    rows.map_values(|r: Vec<String>| views(r@))
}

/// Greatest width of column `j` over the rows from `i` on.
pub open spec fn tcol_max(rs: Seq<Seq<Seq<char>>>, j: int, i: int) -> int
    decreases rs.len() - i,
{
    if i < 0 || i >= rs.len() {
        0
    } else {
        let w = text_width(rs[i][j]) as int;
        let rest = tcol_max(rs, j, i + 1);
        if w >= rest {
            w
        } else {
            rest
        }
    }
}

/// A cell padded to its column's width, on the left when right-aligned.
pub open spec fn pad_cell(cell: Seq<char>, w: int, right: bool) -> Seq<char> {
    if right {
        spaces(w - text_width(cell)) + cell
    } else {
        cell + spaces(w - text_width(cell))
    }
}

/// One table line from column `j` on: padded cells joined by single
/// spaces, the last column unpadded.
pub open spec fn table_line(
    cells: Seq<Seq<char>>,
    rs: Seq<Seq<Seq<char>>>,
    aligns: Seq<bool>,
    j: int,
) -> Seq<char>
    decreases aligns.len() - j,
{
    if j < 0 || j >= aligns.len() {
        Seq::empty()
    } else if j == aligns.len() - 1 {
        cells[j]
    } else {
        pad_cell(cells[j], tcol_max(rs, j, 0), aligns[j]) + seq![' '] + table_line(
            cells,
            rs,
            aligns,
            j + 1,
        )
    }
}

/// Column maxima bound every member.
proof fn lemma_tcol_bound(rs: Seq<Seq<Seq<char>>>, j: int, i: int, idx: int)
    requires
        i <= idx < rs.len(),
        0 <= i,
    ensures
        text_width(rs[idx][j]) <= tcol_max(rs, j, i),
    decreases rs.len() - i,
{
    if i < idx {
        lemma_tcol_bound(rs, j, i + 1, idx);
    }
}

/// Greatest width of column `j`, measured.
fn tcol_max_exec(rows: &Vec<Vec<String>>, j: usize) -> (w: u128)
    requires
        forall|i: int| 0 <= i < rows@.len() ==> j < (#[trigger] rows@[i])@.len(),
    ensures
        w as int == tcol_max(deep(rows@), j as int, 0),
{
    let ghost rs = deep(rows@);
    let n = rows.len();
    let mut w: u128 = 0;
    let mut i = n;
    while i > 0
        invariant
            n == rows@.len(),
            rs == deep(rows@),
            forall|q: int| 0 <= q < n ==> j < (#[trigger] rows@[q])@.len(),
            0 <= i <= n,
            w as int == tcol_max(rs, j as int, i as int),
        decreases i,
    {
        i = i - 1;
        let cw = crate::width::display_width(rows[i][j].as_str());
        proof {
            assert(rs[i as int] == views(rows@[i as int]@));
            assert(rs[i as int][j as int] == rows@[i as int]@[j as int]@);
        }
        if cw > w {
            w = cw;
        }
    }
    w
}

/// Builds one table line from column `j` on.
fn build_table_line(rows: &Vec<Vec<String>>, i: usize, j: usize, aligns: &Vec<bool>) -> (line:
    String)
    requires
        i < rows@.len(),
        j <= aligns@.len(),
        aligns@.len() >= 1,
        forall|q: int| 0 <= q < rows@.len() ==> (#[trigger] rows@[q])@.len() == aligns@.len(),
    ensures
        line@ == table_line(views(rows@[i as int]@), deep(rows@), aligns@, j as int),
    decreases aligns@.len() - j,
{
    let ghost rs = deep(rows@);
    let ghost cells = views(rows@[i as int]@);
    let m = aligns.len();
    if j >= m {
        return String::new();
    }
    proof {
        assert(cells[j as int] == rows@[i as int]@[j as int]@);
    }
    if j == m - 1 {
        return String::from_str(rows[i][j].as_str());
    }
    let cw = crate::width::display_width(rows[i][j].as_str());
    let colw = tcol_max_exec(rows, j);
    proof {
        lemma_tcol_bound(rs, j as int, 0, i as int);
        assert(rs[i as int][j as int] == cells[j as int]);
        assert(cw <= colw);
    }
    let pad = colw - cw;
    let mut line = String::new();
    if aligns[j] {
        crate::grid::push_spaces(&mut line, pad);
        line.append(rows[i][j].as_str());
    } else {
        line.append(rows[i][j].as_str());
        crate::grid::push_spaces(&mut line, pad);
    }
    line.append(" ");
    let rest = build_table_line(rows, i, j + 1, aligns);
    line.append(rest.as_str());
    proof {
        reveal_strlit(" ");
        assert((" ")@ =~= seq![' ']);
        assert(line@ =~= pad_cell(cells[j as int], tcol_max(rs, j as int, 0), aligns@[j as int])
            + seq![' '] + table_line(cells, rs, aligns@, j as int + 1));
    }
    line
}

/// Renders the rows as an aligned table: each line is exactly
/// [`table_line`] of its row, under per-column maxima taken over all
/// the rows of this call.
pub fn render_table(rows: &Vec<Vec<String>>, aligns: &Vec<bool>) -> (lines: Vec<String>)
    requires
        aligns@.len() >= 1,
        forall|q: int| 0 <= q < rows@.len() ==> (#[trigger] rows@[q])@.len() == aligns@.len(),
    ensures
        lines@.len() == rows@.len(),
        forall|i: int|
            0 <= i < rows@.len() ==> (#[trigger] lines@[i])@ == table_line(
                views(rows@[i]@),
                deep(rows@),
                aligns@,
                0,
            ),
{
    let mut lines: Vec<String> = Vec::new();
    let mut i: usize = 0;
    while i < rows.len()
        invariant
            aligns@.len() >= 1,
            forall|q: int| 0 <= q < rows@.len() ==> (#[trigger] rows@[q])@.len() == aligns@.len(),
            0 <= i <= rows@.len(),
            lines@.len() == i,
            forall|q: int|
                0 <= q < i ==> (#[trigger] lines@[q])@ == table_line(
                    views(rows@[q]@),
                    deep(rows@),
                    aligns@,
                    0,
                ),
        decreases rows@.len() - i,
    {
        let line = build_table_line(rows, i, 0, aligns);
        lines.push(line);
        i = i + 1;
    }
    lines
}

} // verus!
