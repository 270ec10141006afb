//! Tree rendering: depth-first lines with per-level indentation.
//!
//! Each line is prefixed by one four-cell block per ancestor level:
//! blank when that ancestor was the last among its siblings, a vertical
//! connector otherwise; the entry itself gets an elbow or tee
//! connector.  A directory's children follow its own line and precede
//! its next sibling.  Descent is bounded by a depth budget; at budget
//! zero an entry contributes its own line only.

use vstd::prelude::*;
use crate::entry::Entry;
use crate::grid::views;

verus! {

/// Indentation under an ancestor that was the last of its siblings.
pub open spec fn blank_block() -> Seq<char> {
    seq![' ', ' ', ' ', ' ']
}

/// Indentation under an ancestor with further siblings below.
pub open spec fn bar_block() -> Seq<char> {
    seq!['│', ' ', ' ', ' ']
}

/// Connector of a last sibling.
pub open spec fn last_connector() -> Seq<char> {
    seq!['└', '─', '─', ' ']
}

/// Connector of a sibling with others below it.
pub open spec fn mid_connector() -> Seq<char> {
    seq!['├', '─', '─', ' ']
}

/// The indentation encoding the ancestors' is-last states, outermost
/// first.
pub open spec fn indent_of(anc: Seq<bool>) -> Seq<char>
    decreases anc.len(),
{
    if anc.len() == 0 {
        Seq::empty()
    } else {
        (if anc[0] {
            blank_block()
        } else {
            bar_block()
        }) + indent_of(anc.drop_first())
    }
}

/// The whole prefix of one line: ancestor indentation plus the entry's
/// own connector.
pub open spec fn tree_prefix(anc: Seq<bool>, is_last: bool) -> Seq<char> {
    indent_of(anc) + (if is_last {
        last_connector()
    } else {
        mid_connector()
    })
}

/// Indentation grows blockwise at the inner end.
proof fn lemma_indent_push(anc: Seq<bool>, a: bool)
    ensures
        indent_of(anc.push(a)) == indent_of(anc) + (if a {
            blank_block()
        } else {
            bar_block()
        }),
    decreases anc.len(),
{
    if anc.len() == 0 {
        assert(anc.push(a).drop_first() =~= Seq::<bool>::empty());
        assert(anc.push(a)[0] == a);
        assert(indent_of(anc.push(a)) == (if a {
            blank_block()
        } else {
            bar_block()
        }) + indent_of(Seq::<bool>::empty()));
        assert(indent_of(anc.push(a)) =~= indent_of(anc) + (if a {
            blank_block()
        } else {
            bar_block()
        }));
    } else {
        assert(anc.push(a).drop_first() =~= anc.drop_first().push(a));
        lemma_indent_push(anc.drop_first(), a);
        assert(indent_of(anc.push(a)) =~= indent_of(anc) + (if a {
            blank_block()
        } else {
            bar_block()
        }));
    }
}

/// Builds the prefix of one line, exactly [`tree_prefix`].
pub fn tree_prefix_string(anc: &Vec<bool>, is_last: bool) -> (s: String)
    ensures
        s@ == tree_prefix(anc@, is_last),
{
    let mut s = String::new();
    let mut i: usize = 0;
    proof {
        assert(anc@.take(0) =~= Seq::<bool>::empty());
        assert(s@ =~= indent_of(anc@.take(0)));
    }
    while i < anc.len()
        invariant
            0 <= i <= anc@.len(),
            s@ == indent_of(anc@.take(i as int)),
        decreases anc@.len() - i,
    {
        if anc[i] {
            s.append("    ");
        } else {
            s.append("│   ");
        }
        proof {
            reveal_strlit("    ");
            reveal_strlit("│   ");
            assert(("    ")@ =~= blank_block());
            assert(("│   ")@ =~= bar_block());
            assert(anc@.take(i + 1) =~= anc@.take(i as int).push(anc@[i as int]));
            lemma_indent_push(anc@.take(i as int), anc@[i as int]);
            assert(s@ =~= indent_of(anc@.take(i + 1)));
        }
        i = i + 1;
    }
    proof {
        assert(anc@.take(anc@.len() as int) =~= anc@);
    }
    if is_last {
        s.append("└── ");
    } else {
        s.append("├── ");
    }
    proof {
        reveal_strlit("└── ");
        reveal_strlit("├── ");
        assert(("└── ")@ =~= last_connector());
        assert(("├── ")@ =~= mid_connector());
    }
    s
}

/// The lines of one entry's subtree: its own prefixed line, then --
/// while the depth budget lasts -- the lines of its children in order.
pub open spec fn tree_lines(e: Entry, anc: Seq<bool>, is_last: bool, budget: nat) -> Seq<Seq<char>>
    decreases budget, 0int, 0int,
{
    seq![tree_prefix(anc, is_last) + e.name@] + (if budget > 0 {
        children_lines(e.children@, anc.push(is_last), (budget - 1) as nat, 0)
    } else {
        Seq::empty()
    })
}

/// The concatenated lines of the children from `i` on; the child at the
/// end of the list is the last sibling.
pub open spec fn children_lines(cs: Seq<Entry>, anc: Seq<bool>, budget: nat, i: int)
    -> Seq<Seq<char>>
    decreases budget, 1int, cs.len() - i,
{
    if i < 0 || i >= cs.len() {
        Seq::empty()
    } else {
        tree_lines(cs[i], anc, i == cs.len() - 1, budget) + children_lines(cs, anc, budget, i + 1)
    }
}

/// Renders one entry's subtree, appending to `out`, exactly
/// [`tree_lines`]; the ancestor scratch vector comes back unchanged.
pub fn render_tree(e: &Entry, anc: &mut Vec<bool>, is_last: bool, budget: u64, out: &mut Vec<
    String,
>)
    ensures
        views(final(out)@) == views(old(out)@) + tree_lines(*e, old(anc)@, is_last, budget as nat),
        final(anc)@ == old(anc)@,
    decreases budget, 0int, 0int,
{
    let ghost out0 = out@;
    let mut line = tree_prefix_string(anc, is_last);
    line.append(e.name.as_str());
    out.push(line);
    proof {
        assert(views(out@) =~= views(out0) + seq![tree_prefix(old(anc)@, is_last) + e.name@]);
    }
    if budget > 0 {
        anc.push(is_last);
        render_children(&e.children, anc, budget - 1, 0, out);
        anc.pop();
        proof {
            assert(anc@ =~= old(anc)@);
            assert(views(out@) =~= views(out0) + tree_lines(
                *e,
                old(anc)@,
                is_last,
                budget as nat,
            ));
        }
    } else {
        proof {
            assert(views(out@) =~= views(out0) + tree_lines(
                *e,
                old(anc)@,
                is_last,
                budget as nat,
            ));
        }
    }
}

/// Renders the children from `i` on.
fn render_children(cs: &Vec<Entry>, anc: &mut Vec<bool>, budget: u64, i: usize, out: &mut Vec<
    String,
>)
    requires
        i <= cs@.len(),
    ensures
        views(final(out)@) == views(old(out)@) + children_lines(
            cs@,
            old(anc)@,
            budget as nat,
            i as int,
        ),
        final(anc)@ == old(anc)@,
    decreases budget, 1int, cs@.len() - i,
{
    let ghost out0 = out@;
    if i < cs.len() {
        let last = i == cs.len() - 1;
        render_tree(&cs[i], anc, last, budget, out);
        render_children(cs, anc, budget, i + 1, out);
        proof {
            assert(views(out@) =~= views(out0) + children_lines(
                cs@,
                old(anc)@,
                budget as nat,
                i as int,
            ));
        }
    } else {
        proof {
            assert(views(out@) =~= views(out0) + children_lines(
                cs@,
                old(anc)@,
                budget as nat,
                i as int,
            ));
        }
    }
}

/// Renders a whole tree from its root: the root's bare name, then its
/// children under an empty ancestor context.
pub fn render_tree_root(e: &Entry, budget: u64) -> (lines: Vec<String>)
    ensures
        views(lines@) == seq![e.name@] + (if budget > 0 {
            children_lines(e.children@, Seq::<bool>::empty(), (budget - 1) as nat, 0)
        } else {
            Seq::<Seq<char>>::empty()
        }),
{
    let mut out: Vec<String> = Vec::new();
    out.push(String::from_str(e.name.as_str()));
    if budget > 0 {
        let mut anc: Vec<bool> = Vec::new();
        render_children(&e.children, &mut anc, budget - 1, 0, &mut out);
        proof {
            assert(views(out@) =~= seq![e.name@] + children_lines(
                e.children@,
                Seq::<bool>::empty(),
                (budget - 1) as nat,
                0,
            ));
        }
    } else {
        proof {
            assert(views(out@) =~= seq![e.name@] + Seq::<Seq<char>>::empty());
        }
    }
    out
}

} // verus!
