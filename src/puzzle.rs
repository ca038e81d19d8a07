//! A level: the settings, the grid of cells, the shuffle and the solved check.

use vstd::prelude::*;
use crate::chance::{pcg_shuffled, seeded_shuffle};
use crate::color::{Color, FULL_TURN, UNIT};
use crate::gradient::bilinear;
use crate::grid::{Grid, Iter as GridIter, swapped};
use crate::settings::{
    LockingPattern, PuzzleSettings, Tone, shorter_side, spec_gradient_colors, spec_locked, spec_puzzle_size,
    MIN_CELLS,
};

verus! {

broadcast use vstd::seq_lib::group_to_multiset_ensures;

/// How many seeds the shuffle tries before it falls back to a rotation.
pub const MAX_SHUFFLE_ATTEMPTS: usize = 1000;

#[derive(Debug, Clone, Copy, PartialEq, Eq, Structural)]
pub struct PuzzleCell {
    /// The linear index of the cell once the puzzle is solved.
    pub solved_position: usize,
    /// A locked cell never moves.
    pub is_locked: bool,
    pub color: Color,
}

/// The cell that starts at `(x, y)` under `s`.
pub open spec fn spec_cell(s: PuzzleSettings, x: int, y: int) -> PuzzleCell {
    PuzzleCell {
        solved_position: (y * s.spec_width() + x) as usize,
        is_locked: spec_locked(s.spec_locking_pattern(), s.spec_width(), s.spec_height(), x, y),
        color: bilinear(
            s.spec_gradient().colors(),
            x * UNIT / (s.spec_width() - 1),
            y * UNIT / (s.spec_height() - 1),
        ),
    }
}

/// The cells of `s` in solved order.
pub open spec fn spec_initial_cells(s: PuzzleSettings) -> Seq<PuzzleCell> {
    Seq::new(
        (s.spec_width() * s.spec_height()) as nat,
        |i: int| spec_cell(s, i % s.spec_width(), i / s.spec_width()),
    )
}

/// The solved positions are distinct linear indices.
pub open spec fn positions_permuted(c: Seq<PuzzleCell>) -> bool {
    &&& forall|i: int| 0 <= i < c.len() ==> (#[trigger] c[i]).solved_position < c.len()
    &&& forall|i: int, j: int|
        0 <= i < c.len() && 0 <= j < c.len() && i != j ==> (#[trigger] c[i]).solved_position
            != (#[trigger] c[j]).solved_position
}

/// Solved positions never decrease along the grid.
pub open spec fn ascending(c: Seq<PuzzleCell>) -> bool {
    forall|i: int| 0 < i < c.len() ==> (#[trigger] c[i - 1]).solved_position <= c[i].solved_position
}

/// Every cell sits at its solved position.
pub open spec fn in_solved_order(c: Seq<PuzzleCell>) -> bool {
    forall|i: int| 0 <= i < c.len() ==> (#[trigger] c[i]).solved_position == i
}

/// At least two cells are free to move.
pub open spec fn two_unlocked(c: Seq<PuzzleCell>) -> bool {
    exists|i: int, j: int|
        0 <= i < c.len() && 0 <= j < c.len() && i != j && !(#[trigger] c[i]).is_locked
            && !(#[trigger] c[j]).is_locked
}

/// `after` moves only unlocked cells of `before`: locked cells keep their
/// place, every index keeps its lock flag, and no cell is lost or added.
pub open spec fn locked_kept(before: Seq<PuzzleCell>, after: Seq<PuzzleCell>) -> bool {
    &&& after.len() == before.len()
    &&& forall|i: int| 0 <= i < before.len() && (#[trigger] before[i]).is_locked ==> after[i] == before[i]
    &&& forall|i: int| 0 <= i < before.len() ==> (#[trigger] after[i]).is_locked == before[i].is_locked
    &&& after.to_multiset() == before.to_multiset()
}

/// The linear indices below `n` of the unlocked cells, in increasing order.
pub open spec fn unlocked_upto(c: Seq<PuzzleCell>, n: nat) -> Seq<usize>
    decreases n,
{
    if n == 0 {
        Seq::empty()
    } else {
        let u = unlocked_upto(c, (n - 1) as nat);
        if !c[n - 1].is_locked {
            u.push((n - 1) as usize)
        } else {
            u
        }
    }
}

/// The linear indices of the unlocked cells, in increasing order.
pub open spec fn unlocked_of(c: Seq<PuzzleCell>) -> Seq<usize> {
    unlocked_upto(c, c.len())
}

/// `c` after the cells at `from[k]` and `to[k]` trade places, for each `k`
/// below `n` in turn.
pub open spec fn swap_each(c: Seq<PuzzleCell>, from: Seq<usize>, to: Seq<usize>, n: nat) -> Seq<PuzzleCell>
    decreases n,
{
    if n == 0 {
        c
    } else {
        swapped(swap_each(c, from, to, (n - 1) as nat), from[n - 1] as int, to[n - 1] as int)
    }
}

/// One seeded shuffle of the cells at the indices `u`: each index trades
/// places, in turn, with its counterpart in the shuffled order of `u`.
pub open spec fn seeded_arrangement(c: Seq<PuzzleCell>, u: Seq<usize>, seed: u64) -> Seq<PuzzleCell> {
    swap_each(c, u, pcg_shuffled(seed, u), u.len())
}

/// The cells at the increasing indices `u` rotated by one place: each moves
/// to the previous index of `u`, the first to the last.
pub open spec fn rotated(c: Seq<PuzzleCell>, u: Seq<usize>) -> Seq<PuzzleCell> {
    if u.len() == 0 {
        c
    } else {
        swap_each(c, u.drop_last(), u.drop_first(), (u.len() - 1) as nat)
    }
}

/// The cells and the seed that the shuffle of the cells at `u` ends with,
/// starting from `seed` with `attempts` tries left: a seeded shuffle that is
/// not solved is kept; a solved one is shuffled again with the next seed;
/// with no tries left the cells are rotated.
pub open spec fn shuffle_outcome(c: Seq<PuzzleCell>, u: Seq<usize>, seed: u64, attempts: nat) -> (Seq<PuzzleCell>, u64)
    decreases attempts,
{
    if attempts == 0 {
        (rotated(c, u), seed)
    } else {
        let next = seeded_arrangement(c, u, seed);
        if !ascending(next) {
            (next, seed)
        } else {
            shuffle_outcome(next, u, seed.wrapping_add(1), (attempts - 1) as nat)
        }
    }
}

/// Settings and cells from which a puzzle can be restored.
pub open spec fn restorable(settings: PuzzleSettings, cells: Seq<PuzzleCell>) -> bool {
    &&& settings.wf()
    &&& cells.len() == settings.spec_width() * settings.spec_height()
    &&& positions_permuted(cells)
}

/// The cell at `(x, y)` of the solved grid is the one built for `(x, y)`.
proof fn lemma_initial_at(s: PuzzleSettings, x: int, y: int)
    requires
        s.wf(),
        0 <= x < s.spec_width(),
        0 <= y < s.spec_height(),
    ensures
        0 <= y * s.spec_width() + x < spec_initial_cells(s).len(),
        spec_initial_cells(s)[y * s.spec_width() + x] == spec_cell(s, x, y),
{
    let w = s.spec_width();
    let h = s.spec_height();
    assert(0 <= y * w + x < w * h) by (nonlinear_arith)
        requires 0 <= x < w, 0 <= y < h;
    vstd::arithmetic::div_mod::lemma_fundamental_div_mod_converse(y * w + x, w, y, x);
}

/// On a grid of at least 4 by 4, every locking pattern leaves at least two
/// cells free to move.
pub proof fn lemma_two_unlocked(s: PuzzleSettings)
    requires
        s.wf(),
        s.spec_width() >= 4,
        s.spec_height() >= 4,
    ensures
        two_unlocked(spec_initial_cells(s)),
{
    let w = s.spec_width();
    let h = s.spec_height();
    let p = s.spec_locking_pattern();
    let (x1, y1, x2, y2) = match p {
        LockingPattern::Corners => (1int, 0int, 2int, 0int),
        LockingPattern::Borders => (1, 1, 2, 1),
        LockingPattern::ReverseBorders => (0, 0, 1, 0),
        LockingPattern::CheckerboardA => (1, 0, 0, 1),
        LockingPattern::CheckerboardB => (0, 0, 1, 1),
        LockingPattern::HalfCheckerboardA => (1, 0, 1, 1),
        LockingPattern::HalfCheckerboardB => (0, 0, 1, 0),
        LockingPattern::ShortLinesA => if w > h { (1, 1, 1, 0) } else { (1, 1, 0, 1) },
        LockingPattern::LongLinesA => if w < h { (1, 1, 1, 0) } else { (1, 1, 0, 1) },
        LockingPattern::ShortLinesB => (0, 0, 2, 2),
        LockingPattern::LongLinesB => (0, 0, 2, 2),
    };
    lemma_initial_at(s, x1, y1);
    lemma_initial_at(s, x2, y2);
    let c = spec_initial_cells(s);
    let i = y1 * w + x1;
    let j = y2 * w + x2;
    assert(i != j) by (nonlinear_arith)
        requires i == y1 * w + x1, j == y2 * w + x2, 0 <= x1 < w, 0 <= x2 < w, x1 != x2 || y1 != y2;
    assert(!c[i].is_locked && !c[j].is_locked);
}

/// With distinct solved positions in range, never decreasing along the
/// grid is the same as every cell sitting at its own index.
pub proof fn lemma_solved_iff_identity(c: Seq<PuzzleCell>)
    requires
        positions_permuted(c),
    ensures
        ascending(c) <==> in_solved_order(c),
{
    if ascending(c) {
        assert forall|i: int| 0 <= i < c.len() implies (#[trigger] c[i]).solved_position == i by {
            lemma_ascending_lower(c, i);
            lemma_ascending_gap(c, i, c.len() - 1);
        }
    }
    if in_solved_order(c) {
        assert forall|i: int| 0 < i < c.len() implies (#[trigger] c[i - 1]).solved_position
            <= c[i].solved_position by {
            assert(c[i - 1].solved_position == i - 1);
            assert(c[i].solved_position == i);
        }
    }
}

proof fn lemma_ascending_lower(c: Seq<PuzzleCell>, i: int)
    requires
        positions_permuted(c),
        ascending(c),
        0 <= i < c.len(),
    ensures
        c[i].solved_position >= i,
    decreases i,
{
    if i > 0 {
        lemma_ascending_lower(c, i - 1);
        assert(c[i - 1].solved_position <= c[i].solved_position);
        assert(c[i - 1].solved_position != c[i].solved_position);
    }
}

proof fn lemma_ascending_gap(c: Seq<PuzzleCell>, i: int, j: int)
    requires
        positions_permuted(c),
        ascending(c),
        0 <= i <= j < c.len(),
    ensures
        c[j].solved_position >= c[i].solved_position + (j - i),
    decreases j - i,
{
    if j > i {
        lemma_ascending_gap(c, i, j - 1);
        assert(c[j - 1].solved_position <= c[j].solved_position);
        assert(c[j - 1].solved_position != c[j].solved_position);
    }
}

/// Exchanging two cells keeps the solved positions distinct and in range,
/// and the cells the same multiset.
proof fn lemma_swap_permuted(cur: Seq<PuzzleCell>, a: int, b: int)
    requires
        positions_permuted(cur),
        0 <= a < cur.len(),
        0 <= b < cur.len(),
    ensures
        positions_permuted(swapped(cur, a, b)),
        swapped(cur, a, b).to_multiset() == cur.to_multiset(),
{
    let next = swapped(cur, a, b);
    let mid = cur.update(a, cur[b]);
    vstd::seq_lib::to_multiset_update(cur, a, cur[b]);
    vstd::seq_lib::to_multiset_update(mid, b, cur[a]);
    assert(next.to_multiset() =~= cur.to_multiset());
    assert forall|i: int, j: int|
        0 <= i < next.len() && 0 <= j < next.len() && i != j implies (#[trigger] next[i]).solved_position
        != (#[trigger] next[j]).solved_position by {
        let pi = if i == b { a } else if i == a { b } else { i };
        let pj = if j == b { a } else if j == a { b } else { j };
        assert(next[i] == cur[pi]);
        assert(next[j] == cur[pj]);
    }
    assert forall|i: int| 0 <= i < next.len() implies (#[trigger] next[i]).solved_position < next.len() by {
        let pi = if i == b { a } else if i == a { b } else { i };
        assert(next[i] == cur[pi]);
    }
}

/// Exchanging two unlocked cells keeps what `locked_kept` and
/// `positions_permuted` ask.
proof fn lemma_swap_unlocked(before: Seq<PuzzleCell>, cur: Seq<PuzzleCell>, a: int, b: int)
    requires
        locked_kept(before, cur),
        positions_permuted(cur),
        0 <= a < cur.len(),
        0 <= b < cur.len(),
        !cur[a].is_locked,
        !cur[b].is_locked,
    ensures
        locked_kept(before, swapped(cur, a, b)),
        positions_permuted(swapped(cur, a, b)),
{
    lemma_swap_permuted(cur, a, b);
}

/// Whether the solved positions of `cells` are distinct and in range.
fn positions_are_permutation(cells: &Vec<PuzzleCell>) -> (r: bool)
    ensures
        r == positions_permuted(cells@),
{
    let n = cells.len();
    let mut seen: Vec<bool> = Vec::new();
    let mut k: usize = 0;
    while k < n
        invariant
            k <= n,
            seen@.len() == k,
            forall|q: int| 0 <= q < k ==> !(#[trigger] seen@[q]),
        decreases n - k,
    {
        seen.push(false);
        k = k + 1;
    }
    let mut i: usize = 0;
    while i < n
        invariant
            n == cells@.len(),
            i <= n,
            seen@.len() == n,
            forall|k: int| 0 <= k < i ==> (#[trigger] cells@[k]).solved_position < n,
            forall|k1: int, k2: int|
                0 <= k1 < i && 0 <= k2 < i && k1 != k2 ==> (#[trigger] cells@[k1]).solved_position
                    != (#[trigger] cells@[k2]).solved_position,
            forall|q: int| 0 <= q < n ==> (#[trigger] seen@[q] <==> exists|k: int| 0 <= k < i && cells@[k].solved_position == q),
        decreases n - i,
    {
        let p = cells[i].solved_position;
        if p >= n {
            return false;
        }
        if seen[p] {
            proof {
                let k = choose|k: int| 0 <= k < i && cells@[k].solved_position == p;
                assert(cells@[k].solved_position == cells@[i as int].solved_position);
            }
            return false;
        }
        seen.set(p, true);
        proof {
            assert forall|q: int| 0 <= q < n implies (#[trigger] seen@[q] <==> exists|k: int| 0 <= k < i + 1 && cells@[k].solved_position == q) by {
                if q == p {
                    assert(cells@[i as int].solved_position == q);
                } else {
                    if exists|k: int| 0 <= k < i + 1 && cells@[k].solved_position == q {
                        let k = choose|k: int| 0 <= k < i + 1 && cells@[k].solved_position == q;
                        assert(k < i);
                    }
                }
            }
            assert forall|k1: int, k2: int|
                0 <= k1 < i + 1 && 0 <= k2 < i + 1 && k1 != k2 implies (#[trigger] cells@[k1]).solved_position
                    != (#[trigger] cells@[k2]).solved_position by {
                if k1 == i {
                    assert(!(exists|k: int| 0 <= k < i && cells@[k].solved_position == p));
                } else if k2 == i {
                    assert(!(exists|k: int| 0 <= k < i && cells@[k].solved_position == p));
                }
            }
        }
        i = i + 1;
    }
    true
}

#[derive(Debug, Clone)]
pub struct Puzzle {
    pub settings: PuzzleSettings,
    grid: Grid<PuzzleCell>,
}

impl Puzzle {
    /// The cells in linear order.
    pub closed spec fn cells(self) -> Seq<PuzzleCell> {
        self.grid@
    }

    pub closed spec fn spec_settings(self) -> PuzzleSettings {
        self.settings
    }

    /// The settings the puzzle was generated from (its current seed included).
    pub fn settings(&self) -> (r: PuzzleSettings)
        ensures
            r == self.spec_settings(),
    {
        self.settings
    }

    /// The grid has the settings' dimensions.
    pub closed spec fn grid_matches(self) -> bool {
        &&& self.grid.wf()
        &&& self.grid.spec_width() == self.settings.spec_width()
        &&& self.grid.spec_height() == self.settings.spec_height()
    }

    pub closed spec fn wf(self) -> bool {
        &&& self.grid_matches()
        &&& restorable(self.settings, self.cells())
    }

    /// The puzzle that `settings` describes, in solved order, then shuffled
    /// unless `shuffle` is off.
    pub fn from_settings(settings: PuzzleSettings, shuffle: bool) -> (p: Self)
        requires
            settings.wf(),
        ensures
            p.wf(),
            settings.reseeded(p.spec_settings()),
            !shuffle ==> p.spec_settings() == settings && p.cells() == spec_initial_cells(settings),
            shuffle ==> locked_kept(spec_initial_cells(settings), p.cells()),
            shuffle && two_unlocked(spec_initial_cells(settings)) ==> !ascending(p.cells()),
            shuffle ==> (p.cells(), p.spec_settings().spec_shuffle_seed()) == shuffle_outcome(
                spec_initial_cells(settings),
                unlocked_of(spec_initial_cells(settings)),
                settings.spec_shuffle_seed(),
                MAX_SHUFFLE_ATTEMPTS as nat,
            ),
    {
        let width = settings.width();
        let height = settings.height();
        let make_cell = move |x: usize, y: usize| -> (c: PuzzleCell)
            requires
                settings.wf(),
                width == settings.spec_width(),
                height == settings.spec_height(),
                x < width,
                y < height,
            ensures
                c == spec_cell(settings, x as int, y as int),
            {
                proof {
                    assert(y * width + x < width * height) by (nonlinear_arith)
                        requires x < width, y < height;
                }
                PuzzleCell {
                    solved_position: y * width + x,
                    is_locked: settings.is_cell_locked(x, y),
                    color: settings.get_cell_color(x, y),
                }
            };
        let grid = Grid::from_closure(width, height, make_cell);
        let ghost initial = spec_initial_cells(settings);
        proof {
            assert forall|i: int| 0 <= i < grid@.len() implies #[trigger] grid@[i] == initial[i] by {
                vstd::arithmetic::div_mod::lemma_div_pos_is_pos(i, width as int);
                vstd::arithmetic::div_mod::lemma_mod_bound(i, width as int);
                vstd::arithmetic::div_mod::lemma_fundamental_div_mod(i, width as int);
                let q = i / (width as int);
                assert(q < height) by (nonlinear_arith)
                    requires i == width * q + i % (width as int), 0 <= i % (width as int), i < width * height, width > 0;
            }
            assert(grid@ =~= initial);
            assert forall|i: int| 0 <= i < initial.len() implies (#[trigger] initial[i]).solved_position == i by {
                vstd::arithmetic::div_mod::lemma_fundamental_div_mod(i, width as int);
                assert(width * (i / width as int) == (i / width as int) * width) by (nonlinear_arith);
            }
            assert forall|i: int, j: int|
                0 <= i < initial.len() && 0 <= j < initial.len() && i != j implies (#[trigger] initial[i]).solved_position
                != (#[trigger] initial[j]).solved_position by {
                assert(initial[i].solved_position == i);
                assert(initial[j].solved_position == j);
            }
        }
        let mut puzzle = Puzzle { settings, grid };
        if shuffle {
            puzzle.shuffle();
        }
        puzzle
    }

    /// The linear indices of the unlocked cells, in increasing order.
    fn unlocked_indices(&self) -> (r: Vec<usize>)
        requires
            self.wf(),
        ensures
            forall|k: int| 0 <= k < r@.len() ==> #[trigger] r@[k] < self.cells().len() && !self.cells()[r@[k] as int].is_locked,
            forall|k1: int, k2: int| 0 <= k1 < k2 < r@.len() ==> r@[k1] < r@[k2],
            forall|i: int| 0 <= i < self.cells().len() && !(#[trigger] self.cells()[i]).is_locked ==> r@.contains(i as usize),
            r@ == unlocked_of(self.cells()),
    {
        let n = self.settings.width() * self.settings.height();
        let mut r: Vec<usize> = Vec::new();
        let mut i: usize = 0;
        while i < n
            invariant
                self.wf(),
                n == self.cells().len(),
                i <= n,
                forall|k: int| 0 <= k < r@.len() ==> #[trigger] r@[k] < i && !self.cells()[r@[k] as int].is_locked,
                forall|k1: int, k2: int| 0 <= k1 < k2 < r@.len() ==> r@[k1] < r@[k2],
                forall|j: int| 0 <= j < i && !(#[trigger] self.cells()[j]).is_locked ==> r@.contains(j as usize),
                r@ == unlocked_upto(self.cells(), i as nat),
            decreases n - i,
        {
            let cell = self.grid.get(i);
            if !cell.is_locked {
                let ghost prev = r@;
                r.push(i);
                proof {
                    assert forall|j: int| 0 <= j <= i && !(#[trigger] self.cells()[j]).is_locked implies r@.contains(j as usize) by {
                        if j < i {
                            let k = choose|k: int| 0 <= k < prev.len() && prev[k] == j as usize;
                            assert(r@[k] == j as usize);
                        } else {
                            assert(r@[prev.len() as int] == i);
                        }
                    }
                }
            }
            i = i + 1;
        }
        r
    }

    /// Permutes the unlocked cells with the current seed: each unlocked index
    /// trades places with its counterpart in the seeded shuffle of them all.
    fn apply_seeded_shuffle(&mut self, unlocked: &Vec<usize>)
        requires
            old(self).wf(),
            forall|k: int| 0 <= k < unlocked@.len() ==> #[trigger] unlocked@[k] < old(self).cells().len()
                && !old(self).cells()[unlocked@[k] as int].is_locked,
        ensures
            final(self).wf(),
            final(self).spec_settings() == old(self).spec_settings(),
            locked_kept(old(self).cells(), final(self).cells()),
            final(self).cells() == seeded_arrangement(
                old(self).cells(),
                unlocked@,
                old(self).spec_settings().spec_shuffle_seed(),
            ),
    {
        let shuffled = seeded_shuffle(self.settings.shuffle_seed(), unlocked);
        proof {
            let before = self.cells();
            assert forall|k: int| 0 <= k < shuffled@.len() implies #[trigger] shuffled@[k] < before.len()
                && !before[shuffled@[k] as int].is_locked by {
                assert(shuffled@.contains(shuffled@[k]));
                assert(unlocked@.to_multiset().count(shuffled@[k]) > 0);
                assert(unlocked@.contains(shuffled@[k]));
            }
            assert(shuffled@.len() == shuffled@.to_multiset().len());
            assert(unlocked@.len() == unlocked@.to_multiset().len());
        }
        self.apply_swaps(unlocked, &shuffled);
    }

    /// For each `k` in turn, the cells at `from[k]` and `to[k]` trade places;
    /// every index named must hold an unlocked cell.
    pub fn apply_swaps(&mut self, from: &Vec<usize>, to: &Vec<usize>)
        requires
            old(self).wf(),
            from@.len() == to@.len(),
            forall|k: int| 0 <= k < from@.len() ==> #[trigger] from@[k] < old(self).cells().len()
                && !old(self).cells()[from@[k] as int].is_locked,
            forall|k: int| 0 <= k < to@.len() ==> #[trigger] to@[k] < old(self).cells().len()
                && !old(self).cells()[to@[k] as int].is_locked,
        ensures
            final(self).wf(),
            final(self).spec_settings() == old(self).spec_settings(),
            locked_kept(old(self).cells(), final(self).cells()),
            final(self).cells() == swap_each(old(self).cells(), from@, to@, from@.len()),
    {
        let ghost before = self.cells();
        proof {
            assert(before.to_multiset() =~= before.to_multiset());
        }
        let mut i: usize = 0;
        while i < from.len()
            invariant
                self.wf(),
                self.spec_settings() == old(self).spec_settings(),
                before == old(self).cells(),
                to@.len() == from@.len(),
                i <= from@.len(),
                locked_kept(before, self.cells()),
                forall|k: int| 0 <= k < from@.len() ==> #[trigger] from@[k] < before.len()
                    && !before[from@[k] as int].is_locked,
                forall|k: int| 0 <= k < to@.len() ==> #[trigger] to@[k] < before.len()
                    && !before[to@[k] as int].is_locked,
                self.cells() == swap_each(before, from@, to@, i as nat),
            decreases from@.len() - i,
        {
            let a = from[i];
            let b = to[i];
            proof {
                lemma_swap_unlocked(before, self.cells(), a as int, b as int);
            }
            self.grid.swap(a, b);
            i = i + 1;
        }
    }

    /// Shuffles the unlocked cells with the settings' seed; while the result
    /// is solved, the seed moves on by one and the shuffle is done again, up
    /// to `MAX_SHUFFLE_ATTEMPTS` times; after that the unlocked cells are
    /// rotated by one place. With two or more unlocked cells the result is
    /// never solved.
    pub fn shuffle(&mut self)
        requires
            old(self).wf(),
        ensures
            final(self).wf(),
            old(self).spec_settings().reseeded(final(self).spec_settings()),
            locked_kept(old(self).cells(), final(self).cells()),
            two_unlocked(old(self).cells()) ==> !ascending(final(self).cells()),
            (final(self).cells(), final(self).spec_settings().spec_shuffle_seed()) == shuffle_outcome(
                old(self).cells(),
                unlocked_of(old(self).cells()),
                old(self).spec_settings().spec_shuffle_seed(),
                MAX_SHUFFLE_ATTEMPTS as nat,
            ),
    {
        let unlocked = self.unlocked_indices();
        let ghost before = self.cells();
        proof {
            assert(before.to_multiset() =~= before.to_multiset());
        }
        let mut attempt: usize = 0;
        while attempt < MAX_SHUFFLE_ATTEMPTS
            invariant
                self.wf(),
                before == old(self).cells(),
                old(self).spec_settings().reseeded(self.spec_settings()),
                locked_kept(before, self.cells()),
                attempt <= MAX_SHUFFLE_ATTEMPTS,
                attempt > 0 ==> ascending(self.cells()),
                forall|k: int| 0 <= k < unlocked@.len() ==> #[trigger] unlocked@[k] < before.len()
                    && !before[unlocked@[k] as int].is_locked,
                forall|k1: int, k2: int| 0 <= k1 < k2 < unlocked@.len() ==> unlocked@[k1] < unlocked@[k2],
                forall|i: int| 0 <= i < before.len() && !(#[trigger] before[i]).is_locked ==> unlocked@.contains(i as usize),
                unlocked@ == unlocked_of(before),
                shuffle_outcome(before, unlocked@, old(self).spec_settings().spec_shuffle_seed(), MAX_SHUFFLE_ATTEMPTS as nat)
                    == shuffle_outcome(
                    self.cells(),
                    unlocked@,
                    self.spec_settings().spec_shuffle_seed(),
                    (MAX_SHUFFLE_ATTEMPTS - attempt) as nat,
                ),
            decreases MAX_SHUFFLE_ATTEMPTS - attempt,
        {
            self.apply_seeded_shuffle(&unlocked);
            if !self.is_solved() {
                return;
            }
            self.settings = self.settings.next_seed();
            attempt = attempt + 1;
        }
        proof {
            lemma_solved_iff_identity(self.cells());
            if two_unlocked(before) {
                let (i, j) = choose|i: int, j: int|
                    0 <= i < before.len() && 0 <= j < before.len() && i != j && !(#[trigger] before[i]).is_locked
                        && !(#[trigger] before[j]).is_locked;
                assert(unlocked@.contains(i as usize));
                assert(unlocked@.contains(j as usize));
                let k1 = choose|k: int| 0 <= k < unlocked@.len() && unlocked@[k] == i as usize;
                let k2 = choose|k: int| 0 <= k < unlocked@.len() && unlocked@[k] == j as usize;
                assert(k1 != k2);
                assert(unlocked@.len() >= 2);
            }
        }
        self.rotate(&unlocked);
        proof {
            if two_unlocked(before) {
                lemma_solved_iff_identity(self.cells());
                assert(unlocked@[0] < unlocked@[1]);
                assert(self.cells()[unlocked@[0] as int].solved_position != unlocked@[0]);
            }
        }
    }

    /// Rotates the cells at `unlocked` by one place: the cell at each of those
    /// indices moves to the previous one, the first to the last.
    fn rotate(&mut self, unlocked: &Vec<usize>)
        requires
            old(self).wf(),
            forall|k: int| 0 <= k < unlocked@.len() ==> #[trigger] unlocked@[k] < old(self).cells().len()
                && !old(self).cells()[unlocked@[k] as int].is_locked,
            forall|k1: int, k2: int| 0 <= k1 < k2 < unlocked@.len() ==> unlocked@[k1] < unlocked@[k2],
        ensures
            final(self).wf(),
            final(self).spec_settings() == old(self).spec_settings(),
            locked_kept(old(self).cells(), final(self).cells()),
            unlocked@.len() >= 2 && in_solved_order(old(self).cells()) ==> final(self).cells()[unlocked@[0] as int].solved_position
                == unlocked@[1],
            final(self).cells() == rotated(old(self).cells(), unlocked@),
    {
        let ghost before = self.cells();
        proof {
            assert(before.to_multiset() =~= before.to_multiset());
        }
        let mut i: usize = 1;
        while i < unlocked.len()
            invariant
                self.wf(),
                self.spec_settings() == old(self).spec_settings(),
                before == old(self).cells(),
                1 <= i,
                i <= unlocked@.len() || (unlocked@.len() == 0 && i == 1),
                locked_kept(before, self.cells()),
                forall|k: int| 0 <= k < unlocked@.len() ==> #[trigger] unlocked@[k] < before.len()
                    && !before[unlocked@[k] as int].is_locked,
                forall|k1: int, k2: int| 0 <= k1 < k2 < unlocked@.len() ==> unlocked@[k1] < unlocked@[k2],
                i == 1 ==> self.cells() == before,
                unlocked@.len() > 0 ==> self.cells() == swap_each(
                    before,
                    unlocked@.drop_last(),
                    unlocked@.drop_first(),
                    (i - 1) as nat,
                ),
                i >= 2 && in_solved_order(before) ==> self.cells()[unlocked@[0] as int].solved_position == unlocked@[1],
            decreases unlocked@.len() - i,
        {
            let a = unlocked[i - 1];
            let b = unlocked[i];
            proof {
                lemma_swap_unlocked(before, self.cells(), a as int, b as int);
                if i >= 2 {
                    assert(unlocked@[0] < unlocked@[i - 1]);
                    assert(unlocked@[0] < unlocked@[i as int]);
                }
            }
            self.grid.swap(a, b);
            i = i + 1;
        }
        proof {
            if unlocked@.len() > 0 {
                assert(i == unlocked@.len());
                assert(self.cells() == swap_each(
                    before,
                    unlocked@.drop_last(),
                    unlocked@.drop_first(),
                    (unlocked@.len() - 1) as nat,
                ));
            }
        }
    }

    /// The first level: `difficulty` is 1 unless a starting difficulty is
    /// forced; `growth` is `floor(log4(difficulty)^2)`, and `tones` the four
    /// corners' saturation and lightness.
    pub fn generate_lvl1(
        difficulty: usize,
        growth: usize,
        win_size: (usize, usize),
        tones: [Tone; 4],
        shuffle: bool,
    ) -> (p: Self)
        requires
            difficulty >= 1,
            win_size.0 >= 1,
            win_size.1 >= 1,
            2 * (MIN_CELLS + growth) * (win_size.0 + win_size.1) <= usize::MAX,
            spec_puzzle_size(growth as int, win_size.0 as int, win_size.1 as int).0
                * spec_puzzle_size(growth as int, win_size.0 as int, win_size.1 as int).1 <= usize::MAX,
            forall|i: int| 0 <= i < 4 ==> (#[trigger] tones@[i]).wf(),
        ensures
            p.wf(),
            p.spec_settings().spec_difficulty() == difficulty,
            (p.spec_settings().spec_width(), p.spec_settings().spec_height())
                == spec_puzzle_size(growth as int, win_size.0 as int, win_size.1 as int),
            exists|h: int| 0 <= h < FULL_TURN
                && p.spec_settings().spec_gradient().colors() == #[trigger] spec_gradient_colors(difficulty as int, h, tones@),
            !shuffle ==> p.cells() == spec_initial_cells(p.spec_settings()),
            shuffle ==> locked_kept(spec_initial_cells(p.spec_settings()), p.cells()),
            shorter_side(p.spec_settings().spec_width(), p.spec_settings().spec_height()) == MIN_CELLS + growth,
            shuffle ==> !ascending(p.cells()),
    {
        let settings = PuzzleSettings::from_difficulty(difficulty, growth, win_size, tones);
        let p = Self::from_settings(settings, shuffle);
        proof {
            assert(spec_initial_cells(settings) =~= spec_initial_cells(p.spec_settings()));
            lemma_two_unlocked(settings);
        }
        p
    }

    /// Replaces the puzzle with a new one at the next difficulty; `growth`
    /// and `tones` are those of that difficulty.
    pub fn next_level(&mut self, growth: usize, win_size: (usize, usize), tones: [Tone; 4], shuffle: bool)
        requires
            old(self).wf(),
            old(self).spec_settings().spec_difficulty() < usize::MAX,
            win_size.0 >= 1,
            win_size.1 >= 1,
            2 * (MIN_CELLS + growth) * (win_size.0 + win_size.1) <= usize::MAX,
            spec_puzzle_size(growth as int, win_size.0 as int, win_size.1 as int).0
                * spec_puzzle_size(growth as int, win_size.0 as int, win_size.1 as int).1 <= usize::MAX,
            forall|i: int| 0 <= i < 4 ==> (#[trigger] tones@[i]).wf(),
        ensures
            final(self).wf(),
            final(self).spec_settings().spec_difficulty() == old(self).spec_settings().spec_difficulty() + 1,
            (final(self).spec_settings().spec_width(), final(self).spec_settings().spec_height())
                == spec_puzzle_size(growth as int, win_size.0 as int, win_size.1 as int),
            exists|h: int| 0 <= h < FULL_TURN
                && final(self).spec_settings().spec_gradient().colors() == #[trigger] spec_gradient_colors(
                    final(self).spec_settings().spec_difficulty(),
                    h,
                    tones@,
                ),
            !shuffle ==> final(self).cells() == spec_initial_cells(final(self).spec_settings()),
            shuffle ==> locked_kept(spec_initial_cells(final(self).spec_settings()), final(self).cells()),
            shorter_side(final(self).spec_settings().spec_width(), final(self).spec_settings().spec_height())
                == MIN_CELLS + growth,
            MIN_CELLS + growth >= shorter_side(old(self).spec_settings().spec_width(), old(self).spec_settings().spec_height())
                ==> shorter_side(final(self).spec_settings().spec_width(), final(self).spec_settings().spec_height())
                >= shorter_side(old(self).spec_settings().spec_width(), old(self).spec_settings().spec_height()),
            shuffle ==> !ascending(final(self).cells()),
    {
        let difficulty = self.settings.difficulty() + 1;
        *self = Self::generate_lvl1(difficulty, growth, win_size, tones, shuffle);
    }

    /// `(width, height)`.
    pub fn dimensions(&self) -> (r: (usize, usize))
        requires
            self.wf(),
        ensures
            r.0 == self.spec_settings().spec_width(),
            r.1 == self.spec_settings().spec_height(),
            r.0 * r.1 == self.cells().len(),
    {
        self.grid.dims()
    }

    /// The cell at linear index `index`.
    pub fn get(&self, index: usize) -> (r: &PuzzleCell)
        requires
            self.wf(),
            index < self.cells().len(),
        ensures
            *r == self.cells()[index as int],
    {
        self.grid.get(index)
    }

    /// Exchanges the cells at linear indices `a` and `b`; whether they are
    /// locked is the caller's concern.
    pub fn swap(&mut self, a: usize, b: usize)
        requires
            old(self).wf(),
            a < old(self).cells().len(),
            b < old(self).cells().len(),
        ensures
            final(self).wf(),
            final(self).spec_settings() == old(self).spec_settings(),
            final(self).cells() == swapped(old(self).cells(), a as int, b as int),
    {
        proof {
            lemma_swap_permuted(self.cells(), a as int, b as int);
        }
        self.grid.swap(a, b)
    }

    /// Walks the cells in linear order.
    pub fn iter(&self) -> (r: GridIter<'_, PuzzleCell>)
        requires
            self.wf(),
        ensures
            r.wf(),
            r.grid()@ == self.cells(),
            r.position() == 0,
    {
        self.grid.iter()
    }

    /// The cells in linear order.
    pub fn to_cells(&self) -> (r: Vec<PuzzleCell>)
        requires
            self.wf(),
        ensures
            r@ == self.cells(),
    {
        let n = self.settings.width() * self.settings.height();
        let mut r: Vec<PuzzleCell> = Vec::new();
        let mut i: usize = 0;
        while i < n
            invariant
                self.wf(),
                n == self.cells().len(),
                i <= n,
                r@ == self.cells().subrange(0, i as int),
            decreases n - i,
        {
            r.push(*self.grid.get(i));
            i = i + 1;
            assert(r@ =~= self.cells().subrange(0, i as int));
        }
        assert(r@ =~= self.cells());
        r
    }

    /// A puzzle from saved settings and cells, or `None` where the cells do
    /// not fit the settings or their solved positions are not distinct
    /// indices of the grid.
    pub fn from_parts(settings: PuzzleSettings, cells: Vec<PuzzleCell>) -> (r: Option<Self>)
        requires
            settings.wf(),
        ensures
            r is Some <==> restorable(settings, cells@),
            r matches Some(p) ==> p.wf() && p.spec_settings() == settings && p.cells() == cells@,
    {
        let width = settings.width();
        let height = settings.height();
        if cells.len() != width * height || !positions_are_permutation(&cells) {
            return None;
        }
        let ghost saved = cells@;
        let cell_at = move |x: usize, y: usize| -> (c: PuzzleCell)
            requires
                cells@.len() == width * height,
                x < width,
                y < height,
            ensures
                c == cells@[y * width + x],
            {
                proof {
                    assert(y * width + x < width * height) by (nonlinear_arith)
                        requires x < width, y < height;
                }
                cells[y * width + x]
            };
        let grid = Grid::from_closure(width, height, cell_at);
        proof {
            assert forall|i: int| 0 <= i < grid@.len() implies #[trigger] grid@[i] == saved[i] by {
                vstd::arithmetic::div_mod::lemma_fundamental_div_mod(i, width as int);
                vstd::arithmetic::div_mod::lemma_div_pos_is_pos(i, width as int);
                vstd::arithmetic::div_mod::lemma_mod_bound(i, width as int);
                let q = i / (width as int);
                assert(q < height) by (nonlinear_arith)
                    requires i == width * q + i % (width as int), 0 <= i % (width as int), i < width * height, width > 0;
                assert(q * width + i % (width as int) == i) by (nonlinear_arith)
                    requires i == width * q + i % (width as int);
            }
            assert(grid@ =~= saved);
        }
        Some(Puzzle { settings, grid })
    }

    /// Whether the solved positions never decrease along the grid; for a
    /// well-formed puzzle that is every cell at its own index.
    pub fn is_solved(&self) -> (r: bool)
        requires
            self.wf(),
        ensures
            r == ascending(self.cells()),
    {
        let mut iter = self.grid.iter();
        let first = iter.next();
        let mut prev: usize = match first {
            Some(cell) => cell.solved_position,
            None => {
                return true;
            },
        };
        loop
            invariant
                iter.wf(),
                iter.grid() == &self.grid,
                self.wf(),
                1 <= iter.position() <= self.cells().len(),
                prev == self.cells()[iter.position() - 1].solved_position,
                forall|i: int| 0 < i < iter.position() ==> (#[trigger] self.cells()[i - 1]).solved_position
                    <= self.cells()[i].solved_position,
            decreases self.cells().len() - iter.position(),
        {
            match iter.next() {
                Some(cell) => {
                    if prev > cell.solved_position {
                        return false;
                    }
                    prev = cell.solved_position;
                },
                None => {
                    return true;
                },
            }
        }
    }
}


/// A well-formed puzzle is restored from its settings and cells: what is
/// saved of a puzzle is accepted back, with the same settings and the same
/// cells in the same order.
pub proof fn lemma_restore_round_trip(p: Puzzle)
    requires
        p.wf(),
    ensures
        restorable(p.spec_settings(), p.cells()),
{
}

} // verus!
