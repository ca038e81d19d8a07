//! A fixed-size, row-major two-dimensional container.

use vstd::prelude::*;

verus! {

/// The element exchange of `<[T]>::swap`: the two indices trade places.
pub assume_specification<Elem>[ <[Elem]>::swap ](xs: &mut [Elem], first: usize, second: usize)
    requires
        first < old(xs)@.len(),
        second < old(xs)@.len(),
    ensures
        final(xs)@ == old(xs)@.update(first as int, old(xs)@[second as int]).update(
            second as int,
            old(xs)@[first as int],
        ),
;

/// The sequence `s` with the elements at `a` and `b` exchanged.
pub open spec fn swapped<T>(s: Seq<T>, a: int, b: int) -> Seq<T> {
    s.update(a, s[b]).update(b, s[a])
}

/// `width * height` cells stored linearly; index `i` stands for
/// the coordinates `(i % width, i / width)`.
#[derive(Debug, Clone)]
pub struct Grid<T> {
    width: usize,
    height: usize,
    cells: Vec<T>,
}

impl<T> View for Grid<T> {
    type V = Seq<T>;

    closed spec fn view(&self) -> Seq<T> {
        self.cells@
    }
}

impl<T> Grid<T> {
    pub closed spec fn spec_width(&self) -> nat {
        self.width as nat
    }

    pub closed spec fn spec_height(&self) -> nat {
        self.height as nat
    }

    /// The cell count matches the dimensions.
    pub closed spec fn wf(&self) -> bool {
        self.cells@.len() == self.width * self.height
    }

    /// Builds a grid by calling `closure(x, y)` once for every coordinate,
    /// `y` outer and `x` inner.
    pub fn from_closure<F>(width: usize, height: usize, closure: F) -> (r: Self) where
        F: Fn(usize, usize) -> T,

        requires
            width * height <= usize::MAX,
            forall|x: usize, y: usize| x < width && y < height ==> call_requires(closure, (x, y)),
        ensures
            r.wf(),
            r.spec_width() == width,
            r.spec_height() == height,
            r@.len() == width * height,
            forall|i: int|
                0 <= i < r@.len() ==> call_ensures(
                    closure,
                    ((i % width as int) as usize, (i / width as int) as usize),
                    #[trigger] r@[i],
                ),
    {
        let mut cells: Vec<T> = Vec::with_capacity(width * height);
        let mut y: usize = 0;
        while y < height
            invariant
                y <= height,
                width * height <= usize::MAX,
                cells@.len() == y * width,
                forall|x: usize, y: usize| x < width && y < height ==> call_requires(closure, (x, y)),
                forall|i: int|
                    0 <= i < cells@.len() ==> call_ensures(
                        closure,
                        ((i % width as int) as usize, (i / width as int) as usize),
                        #[trigger] cells@[i],
                    ),
            decreases height - y,
        {
            let mut x: usize = 0;
            while x < width
                invariant
                    x <= width,
                    y < height,
                    width * height <= usize::MAX,
                    cells@.len() == y * width + x,
                    forall|x: usize, y: usize| x < width && y < height ==> call_requires(closure, (x, y)),
                    forall|i: int|
                        0 <= i < cells@.len() ==> call_ensures(
                            closure,
                            ((i % width as int) as usize, (i / width as int) as usize),
                            #[trigger] cells@[i],
                        ),
                decreases width - x,
            {
                proof {
                    assert((y + 1) * width <= height * width) by (nonlinear_arith)
                        requires y < height;
                    assert((y * width + x) % width as int == x as int && (y * width + x) / width as int == y as int) by (nonlinear_arith)
                        requires x < width;
                }
                let cell = closure(x, y);
                cells.push(cell);
                x = x + 1;
            }
            proof {
                assert(y * width + width == (y + 1) * width) by (nonlinear_arith);
            }
            y = y + 1;
        }
        proof {
            assert(height * width == width * height) by (nonlinear_arith);
        }
        Grid { width, height, cells }
    }

    /// Walks the cells in linear index order.
    pub fn iter(&self) -> (r: Iter<'_, T>)
        requires
            self.wf(),
        ensures
            r.wf(),
            r.grid() == self,
            r.position() == 0,
    {
        Iter::new(self)
    }

    /// `(width, height)`.
    pub fn dims(&self) -> (r: (usize, usize))
        ensures
            r.0 == self.spec_width(),
            r.1 == self.spec_height(),
    {
        (self.width, self.height)
    }

    /// Exchanges the cells at linear indices `a` and `b`.
    pub fn swap(&mut self, a: usize, b: usize)
        requires
            a < old(self)@.len(),
            b < old(self)@.len(),
        ensures
            final(self)@ == swapped(old(self)@, a as int, b as int),
            final(self).spec_width() == old(self).spec_width(),
            final(self).spec_height() == old(self).spec_height(),
            final(self).wf() == old(self).wf(),
    {
        self.cells.as_mut_slice().swap(a, b);
    }

    /// The cell at linear index `idx`.
    pub fn get(&self, idx: usize) -> (r: &T)
        requires
            idx < self@.len(),
        ensures
            *r == self@[idx as int],
    {
        &self.cells[idx]
    }
}

/// Walks a grid's cells by linear index.
pub struct Iter<'a, T> {
    grid: &'a Grid<T>,
    index: usize,
}

impl<'a, T> Iter<'a, T> {
    pub closed spec fn grid(&self) -> &'a Grid<T> {
        self.grid
    }

    /// How many cells have been handed out.
    pub closed spec fn position(&self) -> nat {
        self.index as nat
    }

    pub closed spec fn wf(&self) -> bool {
        self.grid.wf() && self.index <= self.grid@.len()
    }

    /// Starts at the first cell of `grid`.
    pub fn new(grid: &'a Grid<T>) -> (r: Self)
        requires
            grid.wf(),
        ensures
            r.wf(),
            r.grid() == grid,
            r.position() == 0,
    {
        Iter { grid, index: 0 }
    }

    /// The next cell, or `None` once every cell has been handed out.
    pub fn next(&mut self) -> (r: Option<&'a T>)
        requires
            old(self).wf(),
        ensures
            final(self).wf(),
            final(self).grid() == old(self).grid(),
            old(self).position() < old(self).grid()@.len() ==> {
                &&& r == Some(&old(self).grid()@[old(self).position() as int])
                &&& final(self).position() == old(self).position() + 1
            },
            old(self).position() >= old(self).grid()@.len() ==> {
                &&& r is None
                &&& final(self).position() == old(self).position()
            },
    {
        if self.index < self.grid.cells.len() {
            let cell = &self.grid.cells[self.index];
            self.index = self.index + 1;
            Some(cell)
        } else {
            None
        }
    }
}


/// Exchanging the same two cells twice restores the arrangement, exchanging
/// `a` with `b` is exchanging `b` with `a`, and exchanging a cell with
/// itself changes nothing.
pub proof fn lemma_swap_involution<T>(s: Seq<T>, a: int, b: int)
    requires
        0 <= a < s.len(),
        0 <= b < s.len(),
    ensures
        swapped(swapped(s, a, b), a, b) == s,
        swapped(s, a, b) == swapped(s, b, a),
        swapped(s, a, a) == s,
{
    assert(swapped(swapped(s, a, b), a, b) =~= s);
    assert(swapped(s, a, b) =~= swapped(s, b, a));
    assert(swapped(s, a, a) =~= s);
}

} // verus!
