//! General laws of the board operations, stated over the same spec functions
//! that the operations' contracts use and proved once and for all.

use vstd::prelude::*;

use crate::board::Board;
use crate::board::Color;
use crate::board::empty_count_of;
use crate::board::lemma_empty_count_is;
use crate::board::lemma_empty_count_props;
use crate::board::lemma_packed_below_top;
use crate::board::packed;
use crate::board::poured;
use crate::board::solved_spec;
use crate::board::stack_solved;

verus! {

/// A move from a stack onto itself is never valid, on any board.
pub proof fn lemma_self_swap_invalid(b: Board, s: int)
    ensures
        !b.valid_swap_spec(s, s),
{
}

/// Round trip: applying a valid move and then reverting it restores the
/// exact prior grid. `apply` leaves the grid `poured(g, from, to)` and
/// `revert` then leaves `poured(poured(g, from, to), to, from)`, which is
/// the original grid again.
pub proof fn lemma_apply_revert_round_trip(b: Board, from: int, to: int)
    requires
        b.wf(),
        0 <= from < b@.len(),
        0 <= to < b@.len(),
        b.valid_swap_spec(from, to),
    ensures
        poured(poured(b@, from, to), to, from) == b@,
{
    let g = b@;
    let dep = b.spec_depth();
    let ef = empty_count_of(g[from]) as int;
    let et = empty_count_of(g[to]) as int;
    assert(g[from].len() == dep && packed(g[from]));
    assert(g[to].len() == dep && packed(g[to]));
    lemma_empty_count_props(g[from]);
    lemma_empty_count_props(g[to]);
    let g1 = poured(g, from, to);
    assert(g1[from] == g[from].update(ef, g[to][et - 1]));
    assert(g1[to] == g[to].update(et - 1, g[from][ef]));
    assert(g[to][et - 1] is Empty);
    assert(!(g[from][ef] is Empty));
    if ef + 1 < dep {
        lemma_packed_below_top(g[from], ef + 1);
    }
    lemma_empty_count_is(g1[from], ef + 1);
    lemma_empty_count_is(g1[to], et - 1);
    let g2 = poured(g1, to, from);
    assert(g2[to] =~= g[to]);
    assert(g2[from] =~= g[from]);
    assert(g2 =~~= g);
}

/// Pouring into a completely empty destination is valid whatever the source
/// color, provided the source is a different, non-empty stack; pouring into
/// a completely full destination is never valid.
pub proof fn lemma_empty_full_destination(b: Board, from: int, to: int)
    requires
        b.wf(),
        0 <= from < b@.len(),
        0 <= to < b@.len(),
    ensures
        (from != to && empty_count_of(b@[from]) != b.spec_depth() && empty_count_of(b@[to])
            == b.spec_depth()) ==> b.valid_swap_spec(from, to),
        empty_count_of(b@[to]) == 0 ==> !b.valid_swap_spec(from, to),
{
}

/// Pouring onto a destination that is not completely empty and whose top
/// color differs from the source's top color is invalid.
pub proof fn lemma_mismatched_top_invalid(b: Board, from: int, to: int)
    requires
        b.wf(),
        0 <= from < b@.len(),
        0 <= to < b@.len(),
        empty_count_of(b@[to]) != b.spec_depth(),
        b@[from][empty_count_of(b@[from]) as int] != b@[to][empty_count_of(b@[to]) as int],
    ensures
        !b.valid_swap_spec(from, to),
{
}

/// Every slot of the stack is `Empty`.
pub open spec fn all_empty(s: Seq<Color>) -> bool {
    forall|i: int| 0 <= i < s.len() ==> (#[trigger] s[i]) is Empty
}

/// The stack is filled through its whole depth with one single color.
pub open spec fn uniform_full(s: Seq<Color>) -> bool {
    &&& !(s[s.len() - 1] is Empty)
    &&& forall|i: int| 0 <= i < s.len() ==> (#[trigger] s[i]) == s[s.len() - 1]
}

/// A board where every non-empty stack is uniformly one color through its
/// entire depth, and every other stack is fully empty, is solved.
pub proof fn lemma_uniform_board_solved(b: Board)
    requires
        b.wf(),
        forall|s: int| 0 <= s < b@.len() ==> all_empty(#[trigger] b@[s]) || uniform_full(b@[s]),
    ensures
        solved_spec(b@),
{
    assert forall|s: int| 0 <= s < b@.len() implies stack_solved(#[trigger] b@[s]) by {
        if all_empty(b@[s]) {
            assert(b@[s].len() >= 1);
            assert(b@[s][b@[s].len() - 1] is Empty);
        }
    }
}

/// A stack holding both a token and an `Empty` slot keeps the board
/// unsolved, however uniform its tokens are: by gravity packing its base is
/// a token, and the `Empty` slot above differs from it.
pub proof fn lemma_partial_stack_unsolved(b: Board, s: int, i: int, j: int)
    requires
        b.wf(),
        0 <= s < b@.len(),
        0 <= i < b@[s].len(),
        b@[s][i] is Empty,
        0 <= j < b@[s].len(),
        !(b@[s][j] is Empty),
    ensures
        !solved_spec(b@),
{
    let v = b@[s];
    let base = v.len() - 1;
    assert(packed(v));
    if v[base] is Empty {
        assert(v[j] is Empty);
    }
    assert(!stack_solved(v));
}

} // verus!
