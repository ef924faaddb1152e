//! A dense row-major grid of samples with bounds-checked access.

use vstd::prelude::*;

verus! {

/// Position of cell `(x, y)` in the row-major storage of a grid `width` cells wide.
pub open spec fn flat_index(width: int, x: int, y: int) -> int {
    y * width + x
}

/// Every cell of a `width` x `height` grid lies within its storage.
pub proof fn lemma_flat_index_in_bounds(width: int, height: int, x: int, y: int)
    requires
        0 <= x < width,
        0 <= y < height,
    ensures
        0 <= flat_index(width, x, y) < width * height,
{
    assert(0 <= y * width + x < width * height) by (nonlinear_arith)
        requires
            0 <= x < width,
            0 <= y < height,
    ;
}

/// Two distinct cells of a grid have distinct positions in its storage.
pub proof fn lemma_flat_index_injective(width: int, x1: int, y1: int, x2: int, y2: int)
    requires
        0 <= x1 < width,
        0 <= x2 < width,
        0 <= y1,
        0 <= y2,
        flat_index(width, x1, y1) == flat_index(width, x2, y2),
    ensures
        x1 == x2,
        y1 == y2,
{
    if y1 < y2 {
        assert(y1 * width + x1 < y2 * width + x2) by (nonlinear_arith)
            requires
                0 <= x1 < width,
                0 <= x2,
                y1 < y2,
        ;
    } else if y2 < y1 {
        assert(y2 * width + x2 < y1 * width + x1) by (nonlinear_arith)
            requires
                0 <= x2 < width,
                0 <= x1,
                y2 < y1,
        ;
    }
}

/// A `width` x `height` grid of samples, stored row by row.
pub struct Grid<T> {
    width: usize,
    height: usize,
    data: Vec<T>,
}

impl<T> View for Grid<T> {
    type V = Seq<T>;

    /// The cells in row-major order.
    closed spec fn view(&self) -> Seq<T> {
        self.data@
    }
}

impl<T> Grid<T> {
    pub closed spec fn spec_width(&self) -> nat {
        self.width as nat
    }

    pub closed spec fn spec_height(&self) -> nat {
        self.height as nat
    }

    /// The storage holds exactly one sample per cell.
    pub open spec fn wf(&self) -> bool {
        &&& self@.len() == self.spec_width() * self.spec_height()
        &&& self.spec_width() * self.spec_height() <= usize::MAX
    }

    /// The sample at `(x, y)`.
    pub open spec fn cell(&self, x: int, y: int) -> T {
        self@[flat_index(self.spec_width() as int, x, y)]
    }

    /// `(x, y)` is a cell of the grid.
    pub open spec fn contains(&self, x: int, y: int) -> bool {
        0 <= x < self.spec_width() && 0 <= y < self.spec_height()
    }

    /// A grid of the given size whose every cell holds `value`.
    pub fn new(width: usize, height: usize, value: T) -> (g: Self)
        where
            T: Copy,
        requires
            width * height <= usize::MAX,
        ensures
            g.wf(),
            g.spec_width() == width,
            g.spec_height() == height,
            g@.len() == width * height,
            forall|i: int| 0 <= i < g@.len() ==> g@[i] == value,
    {
        let n: usize = width * height;
        let mut data: Vec<T> = Vec::new();
        let mut i: usize = 0;
        while i < n
            invariant
                i <= n,
                data@.len() == i,
                forall|j: int| 0 <= j < i ==> data@[j] == value,
            decreases n - i,
        {
            data.push(value);
            i = i + 1;
        }
        Grid { width, height, data }
    }

    /// Wraps row-major samples as a grid; `None` unless there is exactly one
    /// sample per cell.
    pub fn from_vec(width: usize, height: usize, data: Vec<T>) -> (r: Option<Self>)
        ensures
            r.is_some() <==> data@.len() == width * height,
            r matches Some(g) ==> {
                &&& g.wf()
                &&& g.spec_width() == width
                &&& g.spec_height() == height
                &&& g@ == data@
            },
    {
        let len: usize = data.len();
        match width.checked_mul(height) {
            Some(n) => {
                if len == n {
                    Some(Grid { width, height, data })
                } else {
                    None
                }
            },
            None => None,
        }
    }

    /// The samples in row-major order.
    pub fn into_vec(self) -> (v: Vec<T>)
        ensures
            v@ == self@,
    {
        self.data
    }

    pub fn width(&self) -> (w: usize)
        ensures
            w == self.spec_width(),
    {
        self.width
    }

    pub fn height(&self) -> (h: usize)
        ensures
            h == self.spec_height(),
    {
        self.height
    }

    /// The sample at `(x, y)`.
    pub fn get(&self, x: usize, y: usize) -> (v: T)
        where
            T: Copy,
        requires
            self.wf(),
            self.contains(x as int, y as int),
        ensures
            v == self.cell(x as int, y as int),
    {
        proof {
            lemma_flat_index_in_bounds(self.width as int, self.height as int, x as int, y as int);
        }
        self.data[y * self.width + x]
    }

    /// Overwrites the sample at `(x, y)` and nothing else.
    pub fn put(&mut self, x: usize, y: usize, value: T)
        requires
            old(self).wf(),
            old(self).contains(x as int, y as int),
        ensures
            final(self).wf(),
            final(self).spec_width() == old(self).spec_width(),
            final(self).spec_height() == old(self).spec_height(),
            final(self)@ == old(self)@.update(
                flat_index(old(self).spec_width() as int, x as int, y as int),
                value,
            ),
    {
        proof {
            lemma_flat_index_in_bounds(self.width as int, self.height as int, x as int, y as int);
        }
        let i: usize = y * self.width + x;
        self.data.set(i, value);
    }
}

} // verus!
