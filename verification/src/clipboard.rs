//! Text for the system clipboard bridge: the selected paths as one
//! newline-joined block. Talking to the system clipboard itself is I/O
//! and happens outside the library; this computes exactly what is sent.

use vstd::prelude::*;
use vstd::string::*;
use crate::text::push_char;

verus! {

/// Lines joined with a single '\n' between them; no trailing newline.
pub open spec fn joined_lines(lines: Seq<Seq<char>>) -> Seq<char>
    decreases lines.len(),
{
    if lines.len() == 0 {
        Seq::empty()
    } else if lines.len() == 1 {
        lines[0]
    } else {
        joined_lines(lines.drop_last()) + seq!['\n'] + lines.last()
    }
}

/// Joins paths with newlines, the form handed to the system clipboard.
pub fn join_lines(paths: &Vec<String>) -> (r: String)
    ensures
        r@ == joined_lines(paths.deep_view()),
{
    let ghost lines = paths.deep_view();
    let mut r = String::new();
    let mut i: usize = 0;
    proof {
        assert(lines.take(0) =~= Seq::<Seq<char>>::empty());
    }
    while i < paths.len()
        invariant
            i <= paths@.len(),
            lines == paths.deep_view(),
            lines.len() == paths@.len(),
            r@ == joined_lines(lines.take(i as int)),
        decreases paths@.len() - i,
    {
        proof {
            assert(lines.take(i + 1).drop_last() =~= lines.take(i as int));
            assert(lines.take(i + 1).last() == lines[i as int]);
            assert(lines[i as int] == paths@[i as int]@);
        }
        if i > 0 {
            push_char(&mut r, '\n');
        }
        r.append(paths[i].as_str());
        proof {
            if i == 0 {
                assert(lines.take(1) =~= seq![lines[0]]);
                assert(r@ =~= joined_lines(lines.take(1)));
            } else {
                assert(r@ =~= joined_lines(lines.take(i + 1)));
            }
        }
        i = i + 1;
    }
    proof {
        assert(lines.take(paths@.len() as int) =~= lines);
    }
    r
}

} // verus!
