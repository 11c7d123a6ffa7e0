//! The board type and its operations: validation, pouring, reverting, and
//! solved detection, together with the spec-level model of a stack.

use vstd::prelude::*;

verus! {

/// A token color. `Empty` is the reserved sentinel meaning "no token in this
/// slot"; every other color is an opaque tag compared only for equality.
#[derive(Clone, Copy, PartialEq, Eq, Structural, Debug)]
pub enum Color {
    Empty,
    Token(u32),
}

impl Color {
    /// True when this cell holds no token.
    pub fn is_empty(self) -> (r: bool)
        ensures
            r == (self is Empty),
    {
        matches!(self, Color::Empty)
    }
}

/// A stack is gravity-packed: read from the top (slot 0) toward the base,
/// all `Empty` slots form a contiguous prefix, so tokens rest on the base.
pub open spec fn packed(s: Seq<Color>) -> bool {
    forall|i: int, j: int|
        #![trigger s[i], s[j]]
        0 <= i <= j < s.len() && s[j] is Empty ==> s[i] is Empty
}

/// The number of leading `Empty` slots of a stack, scanning from the top.
pub open spec fn empty_count_of(s: Seq<Color>) -> nat
    decreases s.len(),
{
    if s.len() == 0 {
        0
    } else if s[0] is Empty {
        1 + empty_count_of(s.skip(1))
    } else {
        0
    }
}

/// `empty_count_of` really is the slot index of the first non-empty cell:
/// everything above it is `Empty` and the cell there, if any, is not.
pub proof fn lemma_empty_count_props(s: Seq<Color>)
    ensures
        empty_count_of(s) <= s.len(),
        forall|i: int| 0 <= i < empty_count_of(s) ==> (#[trigger] s[i]) is Empty,
        empty_count_of(s) < s.len() ==> !(s[empty_count_of(s) as int] is Empty),
    decreases s.len(),
{
    if s.len() == 0 {
    } else if s[0] is Empty {
        lemma_empty_count_props(s.skip(1));
        assert forall|i: int| 0 <= i < empty_count_of(s) implies (#[trigger] s[i]) is Empty by {
            if i >= 1 {
                assert(s.skip(1)[i - 1] is Empty);
            }
        }
        if empty_count_of(s) < s.len() {
            assert(s[empty_count_of(s) as int] == s.skip(1)[empty_count_of(s.skip(1)) as int]);
        }
    }
}

/// A count with all-`Empty` slots above it and a token (or the base) at it
/// is the unique value of `empty_count_of`.
pub proof fn lemma_empty_count_is(s: Seq<Color>, n: int)
    requires
        0 <= n <= s.len(),
        forall|i: int| 0 <= i < n ==> (#[trigger] s[i]) is Empty,
        n < s.len() ==> !(s[n] is Empty),
    ensures
        empty_count_of(s) == n,
{
    lemma_empty_count_props(s);
    let ec = empty_count_of(s) as int;
    if ec < n {
        assert(s[ec] is Empty);
    } else if ec > n {
        assert(s[n] is Empty);
    }
}

/// Whether one stack vector is gravity-packed: its leading `Empty` slots are
/// followed by tokens only.
fn row_packed(row: &Vec<Color>) -> (r: bool)
    ensures
        r == packed(row@),
{
    let n: usize = row.len();
    let mut e: usize = 0;
    while e < n && row[e].is_empty()
        invariant
            n == row@.len(),
            e <= n,
            forall|i: int| 0 <= i < e ==> (#[trigger] row@[i]) is Empty,
        decreases n - e,
    {
        e = e + 1;
    }
    let mut j: usize = e;
    while j < n
        invariant
            n == row@.len(),
            e <= j,
            j <= n,
            forall|i: int| 0 <= i < e ==> (#[trigger] row@[i]) is Empty,
            e < n ==> !(row@[e as int] is Empty),
            forall|i: int| e <= i < j ==> !((#[trigger] row@[i]) is Empty),
        decreases n - j,
    {
        if row[j].is_empty() {
            assert(!packed(row@));
            return false;
        }
        j = j + 1;
    }
    assert forall|i: int, j2: int|
        #![trigger row@[i], row@[j2]]
        0 <= i <= j2 < row@.len() && row@[j2] is Empty implies row@[i] is Empty by {
        assert(j2 < e);
    }
    true
}

/// In a gravity-packed stack, every slot at or below the first token holds a
/// token.
pub proof fn lemma_packed_below_top(s: Seq<Color>, j: int)
    requires
        packed(s),
        empty_count_of(s) <= j < s.len(),
    ensures
        !(s[j] is Empty),
{
    lemma_empty_count_props(s);
    let ec = empty_count_of(s) as int;
    if s[j] is Empty {
        assert(s[ec] is Empty);
    }
}

proof fn lemma_flat_index_in_range(stack: int, slot: int, stack_count: int, depth: int)
    by (nonlinear_arith)
    requires
        0 <= stack < stack_count,
        0 <= slot < depth,
    ensures
        0 <= stack * depth + slot,
        stack * depth + slot < stack_count * depth,
{
}

proof fn lemma_flat_index_injective(s1: int, d1: int, s2: int, d2: int, depth: int)
    by (nonlinear_arith)
    requires
        0 <= d1 < depth,
        0 <= d2 < depth,
        s1 * depth + d1 == s2 * depth + d2,
    ensures
        s1 == s2,
        d1 == d2,
{
}

/// A move request: pour the top token of stack `from` onto stack `to`.
pub struct Move {
    pub from: u8,
    pub to: u8,
}

/// The puzzle board: `stack_count` stacks of `depth` slots each. Slot 0 of a
/// stack is its top and slot `depth - 1` its base; the cells are stored
/// stack-major in one flat vector.
pub struct Board {
    depth: usize,
    stack_count: usize,
    cells: Vec<Color>,
}

impl View for Board {
    type V = Seq<Seq<Color>>;

    /// The grid as one sequence per stack, top (slot 0) first.
    closed spec fn view(&self) -> Seq<Seq<Color>> {
        Seq::new(
            self.stack_count as nat,
            |s: int| Seq::new(self.depth as nat, |d: int| self.cells@[s * (self.depth as int) + d]),
        )
    }
}

impl Board {
    /// Builds a board from `depth`, `stack_count`, and an initial grid, one
    /// vector per stack with the top at index 0. Returns `None` iff the
    /// geometry does not match or some stack is not gravity-packed.
    pub fn new(depth: usize, stack_count: usize, grid: Vec<Vec<Color>>) -> (r: Option<Board>)
        ensures
            r is Some <==> grid_ok(depth as int, stack_count as int, grid_view(grid@)),
            r is Some ==> r.unwrap().wf(),
            r is Some ==> r.unwrap().spec_depth() == depth,
            r is Some ==> r.unwrap().spec_stack_count() == stack_count,
            r is Some ==> r.unwrap()@ == grid_view(grid@),
    {
        if depth == 0 {
            return None;
        }
        if grid.len() != stack_count {
            return None;
        }
        let mut s: usize = 0;
        while s < grid.len()
            invariant
                grid@.len() == stack_count,
                1 <= depth,
                s <= grid@.len(),
                forall|i: int| 0 <= i < s ==> (#[trigger] grid@[i])@.len() == depth,
                forall|i: int| 0 <= i < s ==> packed((#[trigger] grid@[i])@),
            decreases grid@.len() - s,
        {
            let row: &Vec<Color> = &grid[s];
            if row.len() != depth {
                assert(grid_view(grid@)[s as int].len() != depth);
                return None;
            }
            if !row_packed(row) {
                assert(grid_view(grid@)[s as int] == row@);
                return None;
            }
            s = s + 1;
        }
        let mut cells: Vec<Color> = Vec::new();
        let mut s: usize = 0;
        while s < grid.len()
            invariant
                grid@.len() == stack_count,
                1 <= depth,
                s <= grid@.len(),
                forall|i: int| 0 <= i < grid@.len() ==> (#[trigger] grid@[i])@.len() == depth,
                forall|i: int| 0 <= i < grid@.len() ==> packed((#[trigger] grid@[i])@),
                cells@.len() == s * depth,
                forall|i: int, d: int|
                    0 <= i < s && 0 <= d < depth ==> cells@[i * depth + d] == (#[trigger] grid@[i]@[d]),
            decreases grid@.len() - s,
        {
            let row: &Vec<Color> = &grid[s];
            let mut d: usize = 0;
            while d < depth
                invariant
                    grid@.len() == stack_count,
                    1 <= depth,
                    s < grid@.len(),
                    d <= depth,
                    row@ == grid@[s as int]@,
                    row@.len() == depth,
                    forall|i: int| 0 <= i < grid@.len() ==> (#[trigger] grid@[i])@.len() == depth,
                    forall|i: int| 0 <= i < grid@.len() ==> packed((#[trigger] grid@[i])@),
                    cells@.len() == s * depth + d,
                    forall|i: int, dd: int|
                        0 <= i < s && 0 <= dd < depth ==> cells@[i * depth + dd] == (#[trigger] grid@[i]@[dd]),
                    forall|dd: int| 0 <= dd < d ==> cells@[s * depth + dd] == (#[trigger] row@[dd]),
                decreases depth - d,
            {
                proof {
                    lemma_flat_index_in_range(s as int, d as int, grid@.len() as int, depth as int);
                }
                cells.push(row[d]);
                proof {
                    assert forall|i: int, dd: int|
                        0 <= i < s && 0 <= dd < depth implies cells@[i * depth + dd] == (
                    #[trigger] grid@[i]@[dd]) by {
                        lemma_flat_index_in_range(i, dd, s as int, depth as int);
                    }
                }
                d = d + 1;
            }
            assert((s + 1) * depth == s * depth + depth) by (nonlinear_arith);
            assert forall|i: int, dd: int|
                0 <= i < s + 1 && 0 <= dd < depth implies cells@[i * depth + dd] == (
            #[trigger] grid@[i]@[dd]) by {
                lemma_flat_index_in_range(i, dd, grid@.len() as int, depth as int);
                if i == s {
                    assert(cells@[s * depth + dd] == row@[dd]);
                    assert(row@[dd] == grid@[i]@[dd]);
                }
            }
            s = s + 1;
        }
        let b = Board { depth, stack_count, cells };
        proof {
            assert(b.cells@.len() == stack_count * depth);
            assert forall|i: int| 0 <= i < b@.len() implies #[trigger] b@[i] =~= grid_view(grid@)[i] by {
                assert forall|d: int| 0 <= d < depth implies b@[i][d] == grid@[i]@[d] by {
                    lemma_flat_index_in_range(i, d, grid@.len() as int, depth as int);
                }
            }
            assert(b@ =~~= grid_view(grid@));
        }
        Some(b)
    }

    /// Number of cell slots per stack, fixed at construction.
    pub closed spec fn spec_depth(&self) -> int {
        self.depth as int
    }

    /// Number of stacks, fixed at construction.
    pub closed spec fn spec_stack_count(&self) -> int {
        self.stack_count as int
    }

    /// The internal tie between the flat cell vector and the geometry.
    pub closed spec fn inv(&self) -> bool {
        self.cells@.len() == self.stack_count * self.depth
    }

    /// The board's fixed geometry: `spec_stack_count` stacks of `spec_depth`
    /// slots each, with a depth of at least one.
    pub open spec fn dims_ok(&self) -> bool {
        &&& self.inv()
        &&& 1 <= self.spec_depth()
        &&& self@.len() == self.spec_stack_count()
        &&& forall|s: int| 0 <= s < self@.len() ==> (#[trigger] self@[s]).len() == self.spec_depth()
    }

    /// Well-formed: the fixed geometry together with the gravity-packed
    /// invariant on every stack.
    pub open spec fn wf(&self) -> bool {
        &&& self.dims_ok()
        &&& forall|s: int| 0 <= s < self@.len() ==> packed(#[trigger] self@[s])
    }

    /// Slots per stack.
    pub fn depth(&self) -> (r: usize)
        ensures
            r == self.spec_depth(),
    {
        self.depth
    }

    /// Number of stacks.
    pub fn stack_count(&self) -> (r: usize)
        ensures
            r == self.spec_stack_count(),
    {
        self.stack_count
    }

    fn flat_index(&self, stack: usize, slot: usize) -> (r: usize)
        requires
            self.dims_ok(),
            stack < self.spec_stack_count(),
            slot < self.spec_depth(),
        ensures
            r == stack * self.spec_depth() + slot,
            r < self.cells@.len(),
    {
        proof {
            lemma_flat_index_in_range(
                stack as int,
                slot as int,
                self.spec_stack_count(),
                self.spec_depth(),
            );
        }
        let n: usize = self.cells.len();
        assert(stack * self.spec_depth() + slot < n);
        stack * self.depth + slot
    }

    /// Raw read access to the grid, for display: the color at `slot` of
    /// `stack`.
    pub fn color_at(&self, stack: usize, slot: usize) -> (r: Color)
        requires
            self.dims_ok(),
            stack < self.spec_stack_count(),
            slot < self.spec_depth(),
        ensures
            r == self@[stack as int][slot as int],
    {
        let i = self.flat_index(stack, slot);
        self.cells[i]
    }

    /// Raw write access to one slot. This primitive can break the
    /// gravity-packed invariant; callers that need `wf` reestablish it from
    /// the grid equality below.
    pub fn set_color(&mut self, stack: usize, slot: usize, c: Color)
        requires
            old(self).dims_ok(),
            stack < old(self).spec_stack_count(),
            slot < old(self).spec_depth(),
        ensures
            final(self).dims_ok(),
            final(self).spec_depth() == old(self).spec_depth(),
            final(self).spec_stack_count() == old(self).spec_stack_count(),
            final(self)@ == old(self)@.update(
                stack as int,
                old(self)@[stack as int].update(slot as int, c),
            ),
    {
        let i = self.flat_index(stack, slot);
        self.cells.set(i, c);
        proof {
            let target = old(self)@.update(
                stack as int,
                old(self)@[stack as int].update(slot as int, c),
            );
            assert forall|s: int| 0 <= s < self@.len() implies self@[s] =~= target[s] by {
                assert forall|d: int| 0 <= d < self.spec_depth() implies self@[s][d] == target[s][d] by {
                    lemma_flat_index_in_range(s, d, self.spec_stack_count(), self.spec_depth());
                    if s * (self.depth as int) + d == i {
                        lemma_flat_index_injective(
                            s,
                            d,
                            stack as int,
                            slot as int,
                            self.spec_depth(),
                        );
                    }
                }
            }
            assert(self@ =~~= target);
        }
    }

    /// The number of leading `Empty` slots of `stack`, scanning from the top:
    /// the slot index of its current top token, or `depth` when the stack is
    /// entirely empty.
    pub fn empty_cnt(&self, stack: usize) -> (r: usize)
        requires
            self.dims_ok(),
            stack < self.spec_stack_count(),
        ensures
            r == empty_count_of(self@[stack as int]),
            r <= self.spec_depth(),
            forall|i: int| 0 <= i < r ==> (#[trigger] self@[stack as int][i]) is Empty,
            r < self.spec_depth() ==> !(self@[stack as int][r as int] is Empty),
    {
        let depth: usize = self.depth;
        let mut d: usize = 0;
        while d < depth
            invariant
                self.dims_ok(),
                stack < self.spec_stack_count(),
                depth == self.spec_depth(),
                d <= depth,
                forall|i: int| 0 <= i < d ==> (#[trigger] self@[stack as int][i]) is Empty,
            decreases depth - d,
        {
            if !self.color_at(stack, d).is_empty() {
                proof {
                    lemma_empty_count_is(self@[stack as int], d as int);
                }
                return d;
            }
            d = d + 1;
        }
        proof {
            lemma_empty_count_is(self@[stack as int], depth as int);
        }
        depth
    }

    /// The move-validation rule: pouring the top token of `from` onto `to` is
    /// legal iff the two stacks differ, `from` has a token to pour, `to` has
    /// room, and `to` is either completely empty or shows the same color at
    /// its top as `from` does.
    pub open spec fn valid_swap_spec(&self, from: int, to: int) -> bool {
        let ef = empty_count_of(self@[from]) as int;
        let et = empty_count_of(self@[to]) as int;
        &&& from != to
        &&& ef != self.spec_depth()
        &&& et != 0
        &&& (et == self.spec_depth() || self@[from][ef] == self@[to][et])
    }

    /// Whether pouring the top token of `from` onto `to` is legal, without
    /// mutating state.
    pub fn is_valid_swap(&self, from: usize, to: usize) -> (r: bool)
        requires
            self.wf(),
            from < self.spec_stack_count(),
            to < self.spec_stack_count(),
        ensures
            r == self.valid_swap_spec(from as int, to as int),
            r ==> empty_count_of(self@[from as int]) < self.spec_depth(),
            r ==> 1 <= empty_count_of(self@[to as int]),
    {
        if from == to {
            return false;
        }
        let src_empty_cnt = self.empty_cnt(from);
        let dst_empty_cnt = self.empty_cnt(to);
        if src_empty_cnt == self.depth {
            return false;
        }
        if dst_empty_cnt == 0 {
            return false;
        }
        if dst_empty_cnt == self.depth {
            return true;
        }
        let src_top = self.color_at(from, src_empty_cnt);
        let dst_top = self.color_at(to, dst_empty_cnt);
        src_top == dst_top
    }

    /// The unchecked pour primitive: exchanges the top token of `from` with
    /// the empty slot directly above `to`'s top. It does not consult
    /// `is_valid_swap`; callers guarantee the geometry (distinct stacks, a
    /// token to take, room to put it).
    pub fn apply_swap(&mut self, from: usize, to: usize)
        requires
            old(self).wf(),
            from < old(self).spec_stack_count(),
            to < old(self).spec_stack_count(),
            from != to,
            empty_count_of(old(self)@[from as int]) < old(self).spec_depth(),
            1 <= empty_count_of(old(self)@[to as int]),
        ensures
            final(self).wf(),
            final(self).spec_depth() == old(self).spec_depth(),
            final(self).spec_stack_count() == old(self).spec_stack_count(),
            final(self)@ == poured(old(self)@, from as int, to as int),
            empty_count_of(final(self)@[from as int]) == empty_count_of(old(self)@[from as int])
                + 1,
            empty_count_of(final(self)@[to as int]) == empty_count_of(old(self)@[to as int]) - 1,
    {
        let from_top = self.empty_cnt(from);
        let to_target = self.empty_cnt(to) - 1;
        let a = self.color_at(from, from_top);
        let b = self.color_at(to, to_target);
        proof {
            lemma_empty_count_props(old(self)@[from as int]);
            lemma_empty_count_props(old(self)@[to as int]);
        }
        self.set_color(to, to_target, a);
        self.set_color(from, from_top, b);
        proof {
            let g = old(self)@;
            let f = from as int;
            let t = to as int;
            let dep = old(self).spec_depth();
            let ef = empty_count_of(g[f]) as int;
            let et = empty_count_of(g[t]) as int;
            assert(b is Empty);
            assert(!(a is Empty));
            assert(self@[f] == g[f].update(ef, b));
            assert(self@[t] == g[t].update(et - 1, a));
            assert(self@ =~~= poured(g, f, t));
            assert forall|s: int| 0 <= s < self@.len() implies packed(#[trigger] self@[s]) by {
                if s == f {
                    let v = self@[f];
                    assert forall|i: int, j: int|
                        0 <= i <= j < v.len() && v[j] is Empty implies v[i] is Empty by {
                        if j > ef {
                            lemma_packed_below_top(g[f], j);
                        }
                    }
                    assert(packed(v));
                } else if s == t {
                    let v = self@[t];
                    assert forall|i: int, j: int|
                        0 <= i <= j < v.len() && v[j] is Empty implies v[i] is Empty by {
                        if j >= et {
                            lemma_packed_below_top(g[t], j);
                        }
                    }
                    assert(packed(v));
                } else {
                    assert(self@[s] == g[s]);
                }
            }
            assert(ef + 1 <= dep);
            if ef + 1 < dep {
                lemma_packed_below_top(g[f], ef + 1);
            }
            lemma_empty_count_is(self@[f], ef + 1);
            lemma_empty_count_is(self@[t], et - 1);
        }
    }

    /// Applies a move: pours the top token of `m.from` onto `m.to`. Intended
    /// only for moves that passed `is_valid_swap`.
    pub fn apply(&mut self, m: &Move)
        requires
            old(self).wf(),
            m.from < old(self).spec_stack_count(),
            m.to < old(self).spec_stack_count(),
            m.from != m.to,
            empty_count_of(old(self)@[m.from as int]) < old(self).spec_depth(),
            1 <= empty_count_of(old(self)@[m.to as int]),
        ensures
            final(self).wf(),
            final(self).spec_depth() == old(self).spec_depth(),
            final(self).spec_stack_count() == old(self).spec_stack_count(),
            final(self)@ == poured(old(self)@, m.from as int, m.to as int),
            empty_count_of(final(self)@[m.from as int]) == empty_count_of(
                old(self)@[m.from as int],
            ) + 1,
            empty_count_of(final(self)@[m.to as int]) == empty_count_of(old(self)@[m.to as int])
                - 1,
    {
        self.apply_swap(m.from as usize, m.to as usize)
    }

    /// Reverts a move previously passed to `apply`, with no mutation in
    /// between: the exact inverse exchange, pouring the moved token back. It
    /// is a state-reversal primitive, not a game move, and is never validated
    /// through `is_valid_swap`.
    pub fn revert(&mut self, m: &Move)
        requires
            old(self).wf(),
            m.from < old(self).spec_stack_count(),
            m.to < old(self).spec_stack_count(),
            m.from != m.to,
            empty_count_of(old(self)@[m.to as int]) < old(self).spec_depth(),
            1 <= empty_count_of(old(self)@[m.from as int]),
        ensures
            final(self).wf(),
            final(self).spec_depth() == old(self).spec_depth(),
            final(self).spec_stack_count() == old(self).spec_stack_count(),
            final(self)@ == poured(old(self)@, m.to as int, m.from as int),
            empty_count_of(final(self)@[m.to as int]) == empty_count_of(old(self)@[m.to as int])
                + 1,
            empty_count_of(final(self)@[m.from as int]) == empty_count_of(
                old(self)@[m.from as int],
            ) - 1,
    {
        self.apply_swap(m.to as usize, m.from as usize)
    }

    /// Whether the board is solved: every stack is either entirely empty or
    /// packed through its whole depth with one uniform color.
    pub fn is_solved(&self) -> (r: bool)
        requires
            self.wf(),
        ensures
            r == solved_spec(self@),
    {
        let depth: usize = self.depth;
        let count: usize = self.stack_count;
        let mut x: usize = 0;
        while x < count
            invariant
                self.wf(),
                depth == self.spec_depth(),
                count == self.spec_stack_count(),
                x <= count,
                forall|s: int| 0 <= s < x ==> stack_solved(#[trigger] self@[s]),
            decreases count - x,
        {
            let base_color = self.color_at(x, depth - 1);
            if !base_color.is_empty() {
                let mut y: usize = 0;
                while y < depth - 1
                    invariant
                        self.wf(),
                        depth == self.spec_depth(),
                        count == self.spec_stack_count(),
                        x < count,
                        y <= depth - 1,
                        base_color == self@[x as int][depth - 1],
                        forall|i: int|
                            0 <= i < y ==> (#[trigger] self@[x as int][i]) == self@[x as int][depth
                                - 1],
                    decreases depth - 1 - y,
                {
                    let c = self.color_at(x, y);
                    if !(c == base_color) {
                        assert(!stack_solved(self@[x as int]));
                        return false;
                    }
                    y = y + 1;
                }
                assert(stack_solved(self@[x as int]));
            }
            x = x + 1;
        }
        true
    }
}

/// The mathematical grid of an initial layout: one inner sequence per stack,
/// top (slot 0) first.
pub open spec fn grid_view(g: Seq<Vec<Color>>) -> Seq<Seq<Color>> {
    Seq::new(g.len(), |s: int| g[s]@)
}

/// A legal initial layout: a positive depth, the declared number of stacks,
/// and every stack of the declared depth and gravity-packed.
pub open spec fn grid_ok(depth: int, stack_count: int, g: Seq<Seq<Color>>) -> bool {
    &&& 1 <= depth
    &&& g.len() == stack_count
    &&& forall|s: int| 0 <= s < g.len() ==> (#[trigger] g[s]).len() == depth
    &&& forall|s: int| 0 <= s < g.len() ==> packed(#[trigger] g[s])
}

/// A stack satisfies the solved condition when its base is `Empty` (the
/// stack is entirely empty, by gravity packing) or every slot matches the
/// base color. A partially filled stack never satisfies it: the `Empty`
/// slots above its tokens differ from the base.
pub open spec fn stack_solved(s: Seq<Color>) -> bool {
    ||| s[s.len() - 1] is Empty
    ||| forall|i: int| 0 <= i < s.len() ==> (#[trigger] s[i]) == s[s.len() - 1]
}

/// The board is solved iff every stack satisfies the solved condition.
pub open spec fn solved_spec(g: Seq<Seq<Color>>) -> bool {
    forall|s: int| 0 <= s < g.len() ==> stack_solved(#[trigger] g[s])
}

/// The grid after the mechanical exchange of one pour: the top token of
/// `from` trades places with the empty slot directly above `to`'s top.
pub open spec fn poured(g: Seq<Seq<Color>>, from: int, to: int) -> Seq<Seq<Color>> {
    let ef = empty_count_of(g[from]) as int;
    let et = empty_count_of(g[to]) as int;
    g.update(from, g[from].update(ef, g[to][et - 1])).update(
        to,
        g[to].update(et - 1, g[from][ef]),
    )
}

} // verus!
