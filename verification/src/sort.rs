//! The sort engine: a configurable total order over sibling entries.
//!
//! Every comparison is specified through one device: an entry is mapped,
//! under the active policy, to a sequence of integers (its *rank*), and
//! entries compare lexicographically by rank.  The rank starts with the
//! directory-grouping component, then the primary key (name, size, time,
//! extension, or version-aware name), then the two tie-breaks: the
//! case-folded name and the exact name.  Variable-length components end
//! with a terminator smaller than any content symbol, so component-wise
//! comparison and whole-rank comparison agree.

use vstd::prelude::*;
use crate::entry::{Entry, EntryType};

verus! {

/// Result of a comparison.
#[derive(PartialEq, Eq, Structural, Copy, Clone, Debug)]
pub enum Rel {
    Lt,
    Eq,
    Gt,
}

/// Primary sort key.  `Unsorted` keeps filesystem enumeration order:
/// the engine then reorders nothing.
#[derive(PartialEq, Eq, Structural, Copy, Clone, Debug)]
pub enum SortKey {
    Name,
    Size,
    Time,
    Accessed,
    Created,
    Extension,
    Version,
    Unsorted,
}

/// Direction of the order produced by the primary key and tie-breaks.
#[derive(PartialEq, Eq, Structural, Copy, Clone, Debug)]
pub enum SortDir {
    Ascending,
    Descending,
}

/// The full sorting policy.
#[derive(PartialEq, Eq, Structural, Copy, Clone, Debug)]
pub struct SortPolicy {
    pub key: SortKey,
    pub dir: SortDir,
    pub dirs_first: bool,
}

/// Reverses a comparison result.
pub open spec fn flip(r: Rel) -> Rel {
    match r {
        Rel::Lt => Rel::Gt,
        Rel::Eq => Rel::Eq,
        Rel::Gt => Rel::Lt,
    }
}

/// Lexicographic comparison of two integer sequences; a strict prefix is
/// smaller.
pub open spec fn lex_cmp(x: Seq<int>, y: Seq<int>) -> Rel
    decreases x.len(),
{
    if x.len() == 0 && y.len() == 0 {
        Rel::Eq
    } else if x.len() == 0 {
        Rel::Lt
    } else if y.len() == 0 {
        Rel::Gt
    } else if x[0] < y[0] {
        Rel::Lt
    } else if x[0] > y[0] {
        Rel::Gt
    } else {
        lex_cmp(x.drop_first(), y.drop_first())
    }
}

/// Sequences that compare equal are equal.
pub proof fn lemma_lex_eq(x: Seq<int>, y: Seq<int>)
    ensures
        lex_cmp(x, y) == Rel::Eq ==> x == y,
    decreases x.len(),
{
    if x.len() > 0 && y.len() > 0 && x[0] == y[0] {
        lemma_lex_eq(x.drop_first(), y.drop_first());
        if lex_cmp(x, y) == Rel::Eq {
            assert(x =~= y) by {
                assert(x.drop_first() == y.drop_first());
                assert(forall|i: int| 1 <= i < x.len() ==> x[i] == x.drop_first()[i - 1]);
            }
        }
    }
}

/// Swapping the arguments reverses the result.
pub proof fn lemma_lex_flip(x: Seq<int>, y: Seq<int>)
    ensures
        lex_cmp(y, x) == flip(lex_cmp(x, y)),
    decreases x.len(),
{
    if x.len() > 0 && y.len() > 0 && x[0] == y[0] {
        lemma_lex_flip(x.drop_first(), y.drop_first());
    }
}

/// Lexicographic comparison is transitive.
pub proof fn lemma_lex_trans(x: Seq<int>, y: Seq<int>, z: Seq<int>)
    requires
        lex_cmp(x, y) == Rel::Lt,
        lex_cmp(y, z) == Rel::Lt,
    ensures
        lex_cmp(x, z) == Rel::Lt,
    decreases x.len() + y.len() + z.len(),
{
    if x.len() > 0 && y.len() > 0 && z.len() > 0 && x[0] == y[0] && y[0] == z[0] {
        lemma_lex_trans(x.drop_first(), y.drop_first(), z.drop_first());
    }
}

/// A digit character.
pub open spec fn is_digit(c: char) -> bool {
    48 <= c as int && c as int <= 57
}

/// Content encoding of one character: its scalar value shifted above the
/// terminator and the token tags.
pub open spec fn code(c: char) -> int {
    c as int + 3
}

/// ASCII case folding of one character, in code space.
pub open spec fn fold_code(c: char) -> int {
    if 65 <= c as int && c as int <= 90 {
        c as int + 32 + 3
    } else {
        c as int + 3
    }
}

/// Case-sensitive text component: character codes then a terminator.
pub open spec fn enc_text(s: Seq<char>) -> Seq<int> {
    s.map_values(|c: char| code(c)).push(0)
}

/// Case-folded text component.
pub open spec fn enc_text_ci(s: Seq<char>) -> Seq<int> {
    s.map_values(|c: char| fold_code(c)).push(0)
}

/// Length of the digit run at the head of `s`.
pub open spec fn digit_run_len(s: Seq<char>) -> nat
    decreases s.len(),
{
    if s.len() > 0 && is_digit(s[0]) {
        1 + digit_run_len(s.drop_first())
    } else {
        0
    }
}

/// Length of the non-digit run at the head of `s`.
pub open spec fn text_run_len(s: Seq<char>) -> nat
    decreases s.len(),
{
    if s.len() > 0 && !is_digit(s[0]) {
        1 + text_run_len(s.drop_first())
    } else {
        0
    }
}

/// Drops leading zero digits.
pub open spec fn strip_zeros(s: Seq<char>) -> Seq<char>
    decreases s.len(),
{
    if s.len() > 0 && s[0] == '0' {
        strip_zeros(s.drop_first())
    } else {
        s
    }
}

/// Rank component of one numeric run: tag, number of significant digits,
/// the significant digits, terminator.  Two runs with the same integer
/// value (leading zeros ignored) encode identically; a smaller value
/// encodes lexicographically smaller.
pub open spec fn num_token(run: Seq<char>) -> Seq<int> {
    seq![1, strip_zeros(run).len() as int] + strip_zeros(run).map_values(|c: char| code(c))
        + seq![0]
}

/// Rank component of one non-numeric run: tag, the characters,
/// terminator.  The tag places any numeric run before any textual run.
pub open spec fn text_token(run: Seq<char>) -> Seq<int> {
    seq![2] + run.map_values(|c: char| code(c)) + seq![0]
}

/// Version-aware encoding of a name: the name is split into alternating
/// digit and non-digit runs, and each run becomes one token, numeric
/// runs comparing by integer value.
pub open spec fn version_enc(s: Seq<char>) -> Seq<int>
    decreases s.len(),
    via version_enc_decreases
{
    if s.len() == 0 {
        Seq::empty()
    } else if is_digit(s[0]) {
        num_token(s.take(digit_run_len(s) as int)) + version_enc(s.skip(digit_run_len(s) as int))
    } else {
        text_token(s.take(text_run_len(s) as int)) + version_enc(s.skip(text_run_len(s) as int))
    }
}

/// The digit run at the head never runs past the end.
pub proof fn lemma_digit_run_len_le(s: Seq<char>)
    ensures
        digit_run_len(s) <= s.len(),
    decreases s.len(),
{
    if s.len() > 0 && is_digit(s[0]) {
        lemma_digit_run_len_le(s.drop_first());
    }
}

/// The non-digit run at the head never runs past the end.
pub proof fn lemma_text_run_len_le(s: Seq<char>)
    ensures
        text_run_len(s) <= s.len(),
    decreases s.len(),
{
    if s.len() > 0 && !is_digit(s[0]) {
        lemma_text_run_len_le(s.drop_first());
    }
}

#[via_fn]
proof fn version_enc_decreases(s: Seq<char>) {
    lemma_digit_run_len_le(s);
    lemma_text_run_len_le(s);
}

/// The extension of a name, when the name contains a dot: everything
/// after the last dot.
pub open spec fn ext_opt(s: Seq<char>) -> Option<Seq<char>>
    decreases s.len(),
{
    if s.len() == 0 {
        None
    } else if s.last() == '.' {
        Some(Seq::empty())
    } else {
        match ext_opt(s.drop_last()) {
            Some(e) => Some(e.push(s.last())),
            None => None,
        }
    }
}

/// The extension of a name, empty when it has none.
pub open spec fn ext_of(s: Seq<char>) -> Seq<char> {
    match ext_opt(s) {
        Some(e) => e,
        None => Seq::empty(),
    }
}

/// Modification time shifted to a non-negative rank element.
pub open spec fn shifted_time(t: i64) -> int {
    t as int + 0x8000_0000_0000_0000
}

/// Rank component contributed by the primary key.
pub open spec fn primary_rank(key: SortKey, e: Entry) -> Seq<int> {
    match key {
        SortKey::Name => enc_text(e.name@),
        SortKey::Size => seq![e.size as int, 0],
        SortKey::Time => seq![shifted_time(e.modified), 0],
        SortKey::Accessed => seq![shifted_time(e.accessed), 0],
        SortKey::Created => match e.created {
            None => seq![0, 0],
            Some(t) => seq![1, shifted_time(t), 0],
        },
        SortKey::Extension => enc_text_ci(ext_of(e.name@)),
        SortKey::Version => version_enc(e.name@),
        SortKey::Unsorted => Seq::empty(),
    }
}

/// Everything the direction flag applies to: the primary key, then the
/// case-insensitive name tie-break, then the case-sensitive one.
pub open spec fn rest_rank(key: SortKey, e: Entry) -> Seq<int> {
    primary_rank(key, e) + enc_text_ci(e.name@) + enc_text(e.name@)
}

/// Directory-grouping component: with `dirs_first`, directories rank
/// ahead of everything else, untouched by the direction flag.
pub open spec fn group_rank(dirs_first: bool, e: Entry) -> int {
    if dirs_first && e.is_dir() {
        0
    } else {
        1
    }
}

/// Applies the direction flag to a comparison result.
pub open spec fn apply_dir(d: SortDir, r: Rel) -> Rel {
    match d {
        SortDir::Ascending => r,
        SortDir::Descending => flip(r),
    }
}

/// The comparator the engine realises: grouping first, then the
/// direction-adjusted lexicographic comparison of the remaining rank.
/// Under `Unsorted` the engine compares nothing.
pub open spec fn cmp_spec(pol: SortPolicy, a: Entry, b: Entry) -> Rel {
    if pol.key == SortKey::Unsorted {
        Rel::Eq
    } else if group_rank(pol.dirs_first, a) < group_rank(pol.dirs_first, b) {
        Rel::Lt
    } else if group_rank(pol.dirs_first, a) > group_rank(pol.dirs_first, b) {
        Rel::Gt
    } else {
        apply_dir(pol.dir, lex_cmp(rest_rank(pol.key, a), rest_rank(pol.key, b)))
    }
}

/// `a` sorts no later than `b`.
pub open spec fn le(pol: SortPolicy, a: Entry, b: Entry) -> bool {
    cmp_spec(pol, a, b) != Rel::Gt
}

/// A sequence ordered by the comparator.
pub open spec fn sorted_by(pol: SortPolicy, s: Seq<Entry>) -> bool {
    forall|i: int, j: int| 0 <= i < j < s.len() ==> le(pol, s[i], s[j])
}

/// The comparator is antisymmetric: swapping the entries reverses the
/// result, so exactly one of `Lt`/`Gt` holds of a strictly ordered pair,
/// and ties are mutual.
pub proof fn lemma_cmp_antisymmetric(pol: SortPolicy, a: Entry, b: Entry)
    ensures
        cmp_spec(pol, b, a) == flip(cmp_spec(pol, a, b)),
{
    if pol.key != SortKey::Unsorted && group_rank(pol.dirs_first, a) == group_rank(
        pol.dirs_first,
        b,
    ) {
        lemma_lex_flip(rest_rank(pol.key, a), rest_rank(pol.key, b));
    }
}

/// The comparator is transitive in its non-strict form: whatever the
/// policy, `a <= b` and `b <= c` give `a <= c`.
pub proof fn lemma_cmp_transitive(pol: SortPolicy, a: Entry, b: Entry, c: Entry)
    requires
        le(pol, a, b),
        le(pol, b, c),
    ensures
        le(pol, a, c),
{
    if pol.key != SortKey::Unsorted {
        let ga = group_rank(pol.dirs_first, a);
        let gb = group_rank(pol.dirs_first, b);
        let gc = group_rank(pol.dirs_first, c);
        if ga == gb && gb == gc {
            let ra = rest_rank(pol.key, a);
            let rb = rest_rank(pol.key, b);
            let rc = rest_rank(pol.key, c);
            lemma_lex_eq(ra, rb);
            lemma_lex_eq(rb, rc);
            lemma_lex_eq(ra, rc);
            lemma_lex_flip(ra, rb);
            lemma_lex_flip(rb, rc);
            lemma_lex_flip(ra, rc);
            match pol.dir {
                SortDir::Ascending => {
                    if lex_cmp(ra, rb) == Rel::Lt && lex_cmp(rb, rc) == Rel::Lt {
                        lemma_lex_trans(ra, rb, rc);
                    }
                },
                SortDir::Descending => {
                    if lex_cmp(rc, rb) == Rel::Lt && lex_cmp(rb, ra) == Rel::Lt {
                        lemma_lex_trans(rc, rb, ra);
                    }
                },
            }
        }
    }
}

/// The comparator is total: any two entries are mutually comparable, and
/// a strict order one way is the strict order the other way around.
pub proof fn lemma_cmp_total(pol: SortPolicy, a: Entry, b: Entry)
    ensures
        le(pol, a, b) || le(pol, b, a),
        cmp_spec(pol, a, b) == Rel::Lt <==> cmp_spec(pol, b, a) == Rel::Gt,
{
    lemma_cmp_antisymmetric(pol, a, b);
}

/// With `dirs_first` enabled (and the engine active), every directory in
/// an ordered sequence stands before every non-directory, whatever the
/// key and direction.
pub proof fn lemma_dirs_first(pol: SortPolicy, s: Seq<Entry>)
    requires
        pol.dirs_first,
        pol.key != SortKey::Unsorted,
        sorted_by(pol, s),
    ensures
        forall|i: int, j: int|
            0 <= i < j < s.len() && (#[trigger] s[j]).is_dir() ==> (#[trigger] s[i]).is_dir(),
{
    assert forall|i: int, j: int|
        0 <= i < j < s.len() && (#[trigger] s[j]).is_dir() implies (#[trigger] s[i]).is_dir() by {
        if !s[i].is_dir() {
            assert(group_rank(pol.dirs_first, s[i]) == 1);
            assert(group_rank(pol.dirs_first, s[j]) == 0);
            assert(cmp_spec(pol, s[i], s[j]) == Rel::Gt);
            assert(!le(pol, s[i], s[j]));
        }
    }
}

/// View of a built rank vector as the mathematical rank.
pub open spec fn to_ints(v: Seq<u64>) -> Seq<int> {
    v.map_values(|x: u64| x as int)
}

/// Character at `j` is a digit (false past the end).
fn digit_at(s: &str, j: usize, n: usize) -> (r: bool)
    requires
        n == s@.len(),
        j <= n,
    ensures
        r == (j < n && is_digit(s@[j as int])),
{
    if j < n {
        let c = s.get_char(j) as u32;
        48 <= c && c <= 57
    } else {
        false
    }
}

/// Character at `j` is the zero digit (false past the end).
fn zero_at(s: &str, j: usize, n: usize) -> (r: bool)
    requires
        n == s@.len(),
        j <= n,
    ensures
        r == (j < n && s@[j as int] == '0'),
{
    if j < n {
        let c = s.get_char(j) as u32;
        c == 48
    } else {
        false
    }
}

/// A maximal digit run `[i, j)` has exactly the head run length.
proof fn lemma_digit_run_boundary(s: Seq<char>, i: int, j: int)
    requires
        0 <= i <= j <= s.len(),
        forall|k: int| i <= k < j ==> is_digit(#[trigger] s[k]),
        j == s.len() || !is_digit(s[j]),
    ensures
        digit_run_len(s.skip(i)) == j - i,
    decreases j - i,
{
    if i < j {
        assert(s.skip(i)[0] == s[i]);
        assert(s.skip(i).drop_first() =~= s.skip(i + 1));
        lemma_digit_run_boundary(s, i + 1, j);
    } else {
        if i < s.len() {
            assert(s.skip(i)[0] == s[i]);
        }
    }
}

/// A maximal non-digit run `[i, j)` has exactly the head run length.
proof fn lemma_text_run_boundary(s: Seq<char>, i: int, j: int)
    requires
        0 <= i <= j <= s.len(),
        forall|k: int| i <= k < j ==> !is_digit(#[trigger] s[k]),
        j == s.len() || is_digit(s[j]),
    ensures
        text_run_len(s.skip(i)) == j - i,
    decreases j - i,
{
    if i < j {
        assert(s.skip(i)[0] == s[i]);
        assert(s.skip(i).drop_first() =~= s.skip(i + 1));
        lemma_text_run_boundary(s, i + 1, j);
    } else {
        if i < s.len() {
            assert(s.skip(i)[0] == s[i]);
        }
    }
}

/// Stripping the leading zeros of `s[i..j]` leaves `s[k..j]` when the
/// zeros are exactly `[i, k)`.
proof fn lemma_strip_zeros_boundary(s: Seq<char>, i: int, k: int, j: int)
    requires
        0 <= i <= k <= j <= s.len(),
        forall|m: int| i <= m < k ==> #[trigger] s[m] == '0',
        k == j || s[k] != '0',
    ensures
        strip_zeros(s.subrange(i, j)) == s.subrange(k, j),
    decreases k - i,
{
    if i < k {
        assert(s.subrange(i, j)[0] == s[i]);
        assert(s.subrange(i, j).drop_first() =~= s.subrange(i + 1, j));
        lemma_strip_zeros_boundary(s, i + 1, k, j);
    } else {
        if i < j {
            assert(s.subrange(i, j)[0] == s[i]);
        }
    }
}

/// Pushing on the built vector appends one rank element.
proof fn lemma_to_ints_push(v: Seq<u64>, x: u64)
    ensures
        to_ints(v.push(x)) =~= to_ints(v).push(x as int),
{
}

/// Character encoding distributes over `push`.
proof fn lemma_code_push(t: Seq<char>, c: char)
    ensures
        t.push(c).map_values(|c2: char| code(c2)) =~= t.map_values(|c2: char| code(c2)).push(
            code(c),
        ),
{
}

/// Case-folded encoding distributes over `push`.
proof fn lemma_fold_push(t: Seq<char>, c: char)
    ensures
        t.push(c).map_values(|c2: char| fold_code(c2)) =~= t.map_values(
            |c2: char| fold_code(c2),
        ).push(fold_code(c)),
{
}

/// Appends the case-sensitive or case-folded text component of `s`.
fn push_text(s: &str, fold: bool, out: &mut Vec<u64>)
    ensures
        to_ints(final(out)@) == to_ints(old(out)@) + (if fold {
            enc_text_ci(s@)
        } else {
            enc_text(s@)
        }),
{
    let ghost base = out@;
    let n = s.unicode_len();
    let mut i: usize = 0;
    proof {
        assert(s@.take(0).map_values(|c: char| code(c)) =~= Seq::<int>::empty());
        assert(s@.take(0).map_values(|c: char| fold_code(c)) =~= Seq::<int>::empty());
        assert(to_ints(base) + Seq::<int>::empty() =~= to_ints(base));
    }
    while i < n
        invariant
            n == s@.len(),
            0 <= i <= n,
            to_ints(out@) == to_ints(base) + (if fold {
                s@.take(i as int).map_values(|c: char| fold_code(c))
            } else {
                s@.take(i as int).map_values(|c: char| code(c))
            }),
        decreases n - i,
    {
        let ghost prev = out@;
        let mut cc = s.get_char(i) as u32;
        if fold && 65 <= cc && cc <= 90 {
            cc = cc + 32;
        }
        out.push(cc as u64 + 3);
        proof {
            lemma_to_ints_push(prev, ((cc as u64 + 3) as u64));
            assert(s@.take(i + 1) =~= s@.take(i as int).push(s@[i as int]));
            if fold {
                lemma_fold_push(s@.take(i as int), s@[i as int]);
                assert(to_ints(out@) =~= to_ints(base) + s@.take(i + 1).map_values(
                    |c: char| fold_code(c),
                ));
            } else {
                lemma_code_push(s@.take(i as int), s@[i as int]);
                assert(to_ints(out@) =~= to_ints(base) + s@.take(i + 1).map_values(
                    |c: char| code(c),
                ));
            }
        }
        i = i + 1;
    }
    let ghost prev = out@;
    out.push(0);
    proof {
        lemma_to_ints_push(prev, 0u64);
        assert(s@.take(n as int) =~= s@);
        if fold {
            assert(to_ints(out@) =~= to_ints(base) + enc_text_ci(s@));
        } else {
            assert(to_ints(out@) =~= to_ints(base) + enc_text(s@));
        }
    }
}

/// Appends the version-aware encoding of `s`, from position `i` on.
fn push_version(s: &str, i: usize, out: &mut Vec<u64>)
    requires
        i <= s@.len(),
    ensures
        to_ints(final(out)@) == to_ints(old(out)@) + version_enc(s@.skip(i as int)),
    decreases s@.len() - i,
{
    let n = s.unicode_len();
    if i >= n {
        proof {
            assert(s@.skip(i as int) =~= Seq::<char>::empty());
            assert(to_ints(out@) =~= to_ints(out@) + version_enc(s@.skip(i as int)));
        }
        return ;
    }
    let ghost base = out@;
    let c0 = s.get_char(i) as u32;
    if 48 <= c0 && c0 <= 57 {
        let mut j = i + 1;
        while j < n && digit_at(s, j, n)
            invariant
                n == s@.len(),
                i < j <= n,
                forall|k: int| i <= k < j ==> is_digit(#[trigger] s@[k]),
            decreases n - j,
        {
            j = j + 1;
        }
        let mut k = i;
        while k < j && zero_at(s, k, n)
            invariant
                n == s@.len(),
                i <= k <= j <= n,
                forall|m: int| i <= m < k ==> #[trigger] s@[m] == '0',
            decreases j - k,
        {
            k = k + 1;
        }
        let ghost t0 = out@;
        out.push(1);
        let ghost t1 = out@;
        out.push((j - k) as u64);
        proof {
            lemma_to_ints_push(t0, 1u64);
            lemma_to_ints_push(t1, (((j - k) as u64) as u64));
            assert(s@.subrange(k as int, k as int).map_values(|c: char| code(c))
                =~= Seq::<int>::empty());
            assert(to_ints(out@) =~= to_ints(base) + seq![1int, (j - k) as int] + s@.subrange(
                k as int,
                k as int,
            ).map_values(|c: char| code(c)));
        }
        let mut m = k;
        while m < j
            invariant
                n == s@.len(),
                k <= m <= j <= n,
                to_ints(out@) == to_ints(base) + seq![1int, (j - k) as int] + s@.subrange(
                    k as int,
                    m as int,
                ).map_values(|c: char| code(c)),
            decreases j - m,
        {
            let ghost prev = out@;
            let cc = s.get_char(m) as u32;
            out.push(cc as u64 + 3);
            proof {
                lemma_to_ints_push(prev, ((cc as u64 + 3) as u64));
                assert(s@.subrange(k as int, m + 1) =~= s@.subrange(k as int, m as int).push(
                    s@[m as int],
                ));
                lemma_code_push(s@.subrange(k as int, m as int), s@[m as int]);
                assert(to_ints(out@) =~= to_ints(base) + seq![1int, (j - k) as int]
                    + s@.subrange(k as int, m + 1).map_values(|c: char| code(c)));
            }
            m = m + 1;
        }
        let ghost t2 = out@;
        out.push(0);
        proof {
            lemma_to_ints_push(t2, 0u64);
            let run = s@.subrange(i as int, j as int);
            lemma_digit_run_boundary(s@, i as int, j as int);
            lemma_strip_zeros_boundary(s@, i as int, k as int, j as int);
            assert(strip_zeros(run) == s@.subrange(k as int, j as int));
            assert(to_ints(out@) =~= to_ints(base) + num_token(run));
        }

        push_version(s, j, out);
        proof {
            let run = s@.subrange(i as int, j as int);
            let tail = s@.skip(i as int);
            assert(tail[0] == s@[i as int]);
            assert(tail.skip((j - i) as int) =~= s@.skip(j as int));
            assert(tail.drop_first() =~= s@.skip(i + 1));
            lemma_digit_run_boundary(s@, i + 1, j as int);
            assert(digit_run_len(tail) == j - i);
            assert(tail.take((j - i) as int) =~= run);
            assert(version_enc(tail) == num_token(run) + version_enc(s@.skip(j as int)));
            assert(to_ints(out@) =~= to_ints(base) + version_enc(tail));
        }
    } else {
        let mut j = i + 1;
        while j < n && !digit_at(s, j, n)
            invariant
                n == s@.len(),
                i < j <= n,
                forall|k: int| i <= k < j ==> !is_digit(#[trigger] s@[k]),
            decreases n - j,
        {
            j = j + 1;
        }
        let ghost t0 = out@;
        out.push(2);
        proof {
            lemma_to_ints_push(t0, 2u64);
            assert(s@.subrange(i as int, i as int).map_values(|c: char| code(c))
                =~= Seq::<int>::empty());
            assert(to_ints(out@) =~= to_ints(base) + seq![2int] + s@.subrange(
                i as int,
                i as int,
            ).map_values(|c: char| code(c)));
        }
        let mut m = i;
        while m < j
            invariant
                n == s@.len(),
                i <= m <= j <= n,
                to_ints(out@) == to_ints(base) + seq![2int] + s@.subrange(
                    i as int,
                    m as int,
                ).map_values(|c: char| code(c)),
            decreases j - m,
        {
            let ghost prev = out@;
            let cc = s.get_char(m) as u32;
            out.push(cc as u64 + 3);
            proof {
                lemma_to_ints_push(prev, ((cc as u64 + 3) as u64));
                assert(s@.subrange(i as int, m + 1) =~= s@.subrange(i as int, m as int).push(
                    s@[m as int],
                ));
                lemma_code_push(s@.subrange(i as int, m as int), s@[m as int]);
                assert(to_ints(out@) =~= to_ints(base) + seq![2int] + s@.subrange(
                    i as int,
                    m + 1,
                ).map_values(|c: char| code(c)));
            }
            m = m + 1;
        }
        let ghost t2 = out@;
        out.push(0);
        proof {
            lemma_to_ints_push(t2, 0u64);
            let run = s@.subrange(i as int, j as int);
            assert(to_ints(out@) =~= to_ints(base) + text_token(run));
        }

        push_version(s, j, out);
        proof {
            let run = s@.subrange(i as int, j as int);
            let tail = s@.skip(i as int);
            assert(tail[0] == s@[i as int]);
            assert(tail.skip((j - i) as int) =~= s@.skip(j as int));
            assert(tail.drop_first() =~= s@.skip(i + 1));
            lemma_text_run_boundary(s@, i + 1, j as int);
            assert(text_run_len(tail) == j - i);
            assert(tail.take((j - i) as int) =~= run);
            assert(version_enc(tail) == text_token(run) + version_enc(s@.skip(j as int)));
            assert(to_ints(out@) =~= to_ints(base) + version_enc(tail));
        }
    }
}

/// A name with a dot at `j - 1` and none later has the suffix from `j`
/// as its extension.
proof fn lemma_ext_some(s: Seq<char>, j: int)
    requires
        1 <= j <= s.len(),
        s[j - 1] == '.',
        forall|k: int| j <= k < s.len() ==> #[trigger] s[k] != '.',
    ensures
        ext_opt(s) == Some(s.skip(j)),
    decreases s.len() - j,
{
    if j == s.len() {
        assert(s.last() == '.');
        assert(s.skip(j) =~= Seq::<char>::empty());
    } else {
        assert(s.last() != '.');
        lemma_ext_some(s.drop_last(), j);
        assert(s.drop_last().skip(j).push(s.last()) =~= s.skip(j));
    }
}

/// A name without a dot has no extension.
proof fn lemma_ext_none(s: Seq<char>)
    requires
        forall|k: int| 0 <= k < s.len() ==> #[trigger] s[k] != '.',
    ensures
        ext_opt(s) is None,
    decreases s.len(),
{
    if s.len() > 0 {
        lemma_ext_none(s.drop_last());
    }
}

/// Character at `j` is a dot.
fn dot_at(s: &str, j: usize, n: usize) -> (r: bool)
    requires
        n == s@.len(),
        j < n,
    ensures
        r == (s@[j as int] == '.'),
{
    let c = s.get_char(j) as u32;
    c == 46
}

/// Appends the case-folded extension component of `s`.
fn push_extension(s: &str, out: &mut Vec<u64>)
    ensures
        to_ints(final(out)@) == to_ints(old(out)@) + enc_text_ci(ext_of(s@)),
{
    let ghost base = out@;
    let n = s.unicode_len();
    let mut j = n;
    while j > 0 && !dot_at(s, j - 1, n)
        invariant
            n == s@.len(),
            0 <= j <= n,
            forall|k: int| j <= k < n ==> #[trigger] s@[k] != '.',
        decreases j,
    {
        j = j - 1;
    }
    if j == 0 {
        proof {
            lemma_ext_none(s@);
        }
        out.push(0);
        proof {
            assert(ext_of(s@) =~= Seq::<char>::empty());
            assert(to_ints(out@) =~= to_ints(base) + enc_text_ci(ext_of(s@)));
        }
    } else {
        proof {
            lemma_ext_some(s@, j as int);
        }
        let e = s.substring_char(j, n);
        push_text(e, true, out);
        proof {
            assert(e@ == ext_of(s@));
        }
    }
}

/// Shifts a modification time into rank space.
fn shift_time(t: i64) -> (u: u64)
    ensures
        u as int == shifted_time(t),
{
    let v: i128 = t as i128 + 0x8000_0000_0000_0000i128;
    v as u64
}

/// Builds the direction-sensitive part of an entry's rank.
fn rank_vec(key: SortKey, e: &Entry) -> (r: Vec<u64>)
    requires
        key != SortKey::Unsorted,
    ensures
        to_ints(r@) == rest_rank(key, *e),
{
    let mut out: Vec<u64> = Vec::new();
    proof {
        assert(to_ints(out@) =~= Seq::<int>::empty());
    }
    match key {
        SortKey::Name => push_text(self_name(e), false, &mut out),
        SortKey::Size => {
            out.push(e.size);
            out.push(0);
            proof {
                assert(to_ints(out@) =~= primary_rank(key, *e));
            }
        },
        SortKey::Time => {
            let u = shift_time(e.modified);
            out.push(u);
            out.push(0);
            proof {
                assert(to_ints(out@) =~= primary_rank(key, *e));
            }
        },
        SortKey::Accessed => {
            let u = shift_time(e.accessed);
            out.push(u);
            out.push(0);
            proof {
                assert(to_ints(out@) =~= primary_rank(key, *e));
            }
        },
        SortKey::Created => {
            match e.created {
                None => {
                    out.push(0);
                    out.push(0);
                },
                Some(t) => {
                    out.push(1);
                    let u = shift_time(t);
                    out.push(u);
                    out.push(0);
                },
            }
            proof {
                assert(to_ints(out@) =~= primary_rank(key, *e));
            }
        },
        SortKey::Extension => push_extension(self_name(e), &mut out),
        SortKey::Version => {
            push_version(self_name(e), 0, &mut out);
            proof {
                assert(e.name@.skip(0) =~= e.name@);
            }
        },
        SortKey::Unsorted => {},
    }
    let ghost after_primary = out@;
    proof {
        assert(to_ints(after_primary) == primary_rank(key, *e));
    }
    push_text(self_name(e), true, &mut out);
    push_text(self_name(e), false, &mut out);
    proof {
        assert(to_ints(out@) =~= primary_rank(key, *e) + enc_text_ci(e.name@) + enc_text(
            e.name@,
        ));
    }
    out
}

/// The entry's name as a slice.
fn self_name(e: &Entry) -> (s: &str)
    ensures
        s@ == e.name@,
{
    e.name.as_str()
}

/// Compares two rank vectors lexicographically.
fn lex_cmp_vecs(a: &Vec<u64>, b: &Vec<u64>) -> (r: Rel)
    ensures
        r == lex_cmp(to_ints(a@), to_ints(b@)),
{
    let ghost x = to_ints(a@);
    let ghost y = to_ints(b@);
    let mut i: usize = 0;
    proof {
        assert(x.skip(0) =~= x);
        assert(y.skip(0) =~= y);
    }
    while i < a.len() && i < b.len()
        invariant
            0 <= i <= a.len(),
            i <= b.len(),
            x == to_ints(a@),
            y == to_ints(b@),
            x.len() == a.len(),
            y.len() == b.len(),
            lex_cmp(x, y) == lex_cmp(x.skip(i as int), y.skip(i as int)),
        decreases a.len() - i,
    {
        let xa = a[i];
        let yb = b[i];
        proof {
            assert(x.skip(i as int)[0] == x[i as int]);
            assert(y.skip(i as int)[0] == y[i as int]);
        }
        if xa < yb {
            return Rel::Lt;
        }
        if xa > yb {
            return Rel::Gt;
        }
        proof {
            assert(x.skip(i as int).drop_first() =~= x.skip(i + 1));
            assert(y.skip(i as int).drop_first() =~= y.skip(i + 1));
        }
        i = i + 1;
    }
    proof {
        assert(x.skip(i as int).len() == x.len() - i);
        assert(y.skip(i as int).len() == y.len() - i);
    }
    if a.len() == b.len() {
        Rel::Eq
    } else if a.len() < b.len() {
        Rel::Lt
    } else {
        Rel::Gt
    }
}

/// Executable grouping rank, equal to [`group_rank`].
fn group_rank_exec(dirs_first: bool, e: &Entry) -> (g: u8)
    ensures
        g as int == group_rank(dirs_first, *e),
{
    if dirs_first && e.entry_type == EntryType::Directory {
        0
    } else {
        1
    }
}

/// Compares two entries under a policy, exactly as [`cmp_spec`] says.
pub fn cmp_entries(pol: SortPolicy, a: &Entry, b: &Entry) -> (r: Rel)
    ensures
        r == cmp_spec(pol, *a, *b),
{
    if pol.key == SortKey::Unsorted {
        return Rel::Eq;
    }
    let ga = group_rank_exec(pol.dirs_first, a);
    let gb = group_rank_exec(pol.dirs_first, b);
    if ga < gb {
        return Rel::Lt;
    }
    if ga > gb {
        return Rel::Gt;
    }
    let ra = rank_vec(pol.key, a);
    let rb = rank_vec(pol.key, b);
    let l = lex_cmp_vecs(&ra, &rb);
    match pol.dir {
        SortDir::Ascending => l,
        SortDir::Descending => match l {
            Rel::Lt => Rel::Gt,
            Rel::Eq => Rel::Eq,
            Rel::Gt => Rel::Lt,
        },
    }
}

/// Sorts sibling entries in place under the policy.
///
/// The result holds exactly the entries that went in (length and
/// multiset are preserved), ordered by the policy's comparator; under
/// `Unsorted` the input order is kept untouched.
pub fn sort_entries(pol: SortPolicy, v: &mut Vec<Entry>)
    ensures
        final(v)@.len() == old(v)@.len(),
        final(v)@.to_multiset() == old(v)@.to_multiset(),
        pol.key == SortKey::Unsorted ==> final(v)@ == old(v)@,
        pol.key != SortKey::Unsorted ==> sorted_by(pol, final(v)@),
{
    broadcast use vstd::seq_lib::group_to_multiset_ensures;
    broadcast use vstd::multiset::group_multiset_axioms;

    if pol.key == SortKey::Unsorted {
        return ;
    }
    if v.len() <= 1 {
        return ;
    }
    let mut i: usize = 1;
    while i < v.len()
        invariant
            pol.key != SortKey::Unsorted,
            1 <= i <= v@.len(),
            v@.len() == old(v)@.len(),
            v@.to_multiset() == old(v)@.to_multiset(),
            sorted_by(pol, v@.subrange(0, i as int)),
        decreases v@.len() - i,
    {
        let ghost v0 = v@;
        let e = v.remove(i);
        let ghost v1 = v@;
        proof {
            assert(forall|k: int| 0 <= k < i ==> v1[k] == v0[k]);
        }
        let mut j: usize = 0;
        while j < i && cmp_entries(pol, &v[j], &e) != Rel::Gt
            invariant
                pol.key != SortKey::Unsorted,
                0 <= j <= i,
                i <= v@.len(),
                v@ == v1,
                e == v0[i as int],
                forall|k: int| 0 <= k < j ==> le(pol, #[trigger] v1[k], e),
            decreases i - j,
        {
            j = j + 1;
        }
        proof {
            if j < i {
                assert(cmp_spec(pol, v1[j as int], e) == Rel::Gt);
                lemma_cmp_antisymmetric(pol, v1[j as int], e);
                assert(le(pol, e, v1[j as int]));
            }
        }
        v.insert(j, e);
        proof {
            let pre = v1.subrange(0, i as int);
            let post = v@.subrange(0, i + 1);
            assert(pre =~= v0.subrange(0, i as int));
            assert forall|p: int, q: int| 0 <= p < q < i + 1 implies le(pol, post[p], post[q]) by {
                if q < j {
                    assert(post[p] == pre[p] && post[q] == pre[q]);
                } else if p < j && q == j {
                    assert(post[p] == pre[p] && post[q] == e);
                } else if p < j && q > j {
                    assert(post[p] == pre[p] && post[q] == pre[q - 1]);
                } else if p == j {
                    assert(post[p] == e);
                    assert(post[q] == pre[q - 1]);
                    if j < i {
                        assert(le(pol, e, v1[j as int]));
                        if q - 1 > j {
                            assert(le(pol, pre[j as int], pre[q - 1]));
                            lemma_cmp_transitive(pol, e, pre[j as int], pre[q - 1]);
                        }
                    }
                } else {
                    assert(post[p] == pre[p - 1] && post[q] == pre[q - 1]);
                }
            }
            assert(sorted_by(pol, v@.subrange(0, i + 1)));
            assert(v@.to_multiset() == v0.to_multiset()) by {
                assert(v1 == v0.remove(i as int));
                vstd::seq_lib::to_multiset_remove(v0, i as int);
                vstd::seq_lib::to_multiset_insert(v1, j as int, e);
                vstd::seq_lib::to_multiset_contains(v0, v0[i as int]);
                assert(v0.contains(v0[i as int]));
                assert(v0.to_multiset().remove(v0[i as int]).insert(v0[i as int])
                    =~= v0.to_multiset());
            }
        }
        i = i + 1;
    }
    proof {
        assert(v@.subrange(0, v@.len() as int) =~= v@);
    }
}

} // verus!
