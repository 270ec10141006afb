//! Unicode-aware display-width measurement.
//!
//! Cell widths are measured in terminal cells, not bytes or characters:
//! the per-character width comes from the `unicode_width` crate, and the
//! width of a text is the sum of its characters' widths.

use vstd::prelude::*;

verus! {

/// Display width, in terminal cells, that the width tables assign to one
/// character (0 for control characters).
pub uninterp spec fn char_cell_width(c: char) -> nat;

/// Relies on `unicode_width::UnicodeWidthChar::width`: the width of a
/// character depends on the character alone; the tables yield at most 3
/// cells, printable ASCII is exactly one cell, and a control character
/// (reported as `None`) counts as zero cells.
#[verifier::external_body]
pub(crate) fn char_width(c: char) -> (w: usize)
    ensures
        w as nat == char_cell_width(c),
        w <= 3,
        c as u32 >= 0x20 && (c as u32) < 0x7f ==> w == 1,
{
    unicode_width::UnicodeWidthChar::width(c).unwrap_or(0)
}

/// Display width of a text: the sum of its characters' cell widths.
pub open spec fn text_width(s: Seq<char>) -> nat
    decreases s.len(),
{
    if s.len() == 0 {
        0
    } else {
        char_cell_width(s[0]) + text_width(s.drop_first())
    }
}

/// Width is additive over concatenation.
pub proof fn lemma_text_width_concat(a: Seq<char>, b: Seq<char>)
    ensures
        text_width(a + b) == text_width(a) + text_width(b),
    decreases a.len(),
{
    if a.len() == 0 {
        assert(a + b =~= b);
    } else {
        assert((a + b).drop_first() =~= a.drop_first() + b);
        lemma_text_width_concat(a.drop_first(), b);
    }
}

/// Width grows by one character's width under `push`.
pub proof fn lemma_text_width_push(s: Seq<char>, c: char)
    ensures
        text_width(s.push(c)) == text_width(s) + char_cell_width(c),
{
    assert(s.push(c) =~= s + seq![c]);
    lemma_text_width_concat(s, seq![c]);
    assert(seq![c].drop_first() =~= Seq::<char>::empty());
    assert(text_width(Seq::<char>::empty()) == 0);
    assert(seq![c][0] == c);
    assert(text_width(seq![c]) == char_cell_width(c) + text_width(seq![c].drop_first()));
}

/// Measures the display width of a text, exactly [`text_width`] of its
/// characters.  The result also never exceeds three cells per character.
pub fn display_width(s: &str) -> (w: u128)
    ensures
        w as nat == text_width(s@),
        w <= 3 * s@.len(),
        w <= 3 * (usize::MAX as u128),
{
    let n = s.unicode_len();
    let mut w: u128 = 0;
    let mut i: usize = 0;
    while i < n
        invariant
            n == s@.len(),
            0 <= i <= n,
            w as nat == text_width(s@.take(i as int)),
            w <= 3 * i,
        decreases n - i,
    {
        let c = s.get_char(i);
        let cw = char_width(c);
        proof {
            assert(s@.take(i + 1) =~= s@.take(i as int).push(s@[i as int]));
            lemma_text_width_push(s@.take(i as int), s@[i as int]);
        }
        w = w + cw as u128;
        i = i + 1;
    }
    proof {
        assert(s@.take(n as int) =~= s@);
    }
    w
}

} // verus!
