//! A fixed-size, row-major two-dimensional grid with toroidal addressing:
//! out-of-range coordinates wrap modulo the grid dimensions instead of
//! faulting, so every lookup is total.

use vstd::prelude::*;
use vstd::arithmetic::div_mod::{
    lemma_fundamental_div_mod, lemma_fundamental_div_mod_converse_mod, lemma_mod_add_multiples_vanish,
    lemma_mod_bound,
};

verus! {

/// A cell coordinate. Any pair of integers is a legal coordinate: it is
/// wrapped into range before indexing.
#[derive(Debug, Clone, Copy, PartialEq, Eq, Structural)]
pub struct GridPos {
    pub x: i32,
    pub y: i32,
}

impl GridPos {
    /// Builds the coordinate `(x, y)`.
    pub fn new(x: i32, y: i32) -> (r: GridPos)
        ensures
            r.x == x,
            r.y == y,
    {
        GridPos { x, y }
    }
}

/// A cell type with a designated initial value, used to fill new grids.
pub trait GridCell: Sized + Copy {
    /// The value every cell of a freshly allocated grid holds.
    spec fn spec_default() -> Self;

    /// Returns the initial cell value.
    fn default_value() -> (r: Self)
        ensures
            r == Self::spec_default(),
    ;
}

impl GridCell for i64 {
    open spec fn spec_default() -> i64 {
        0
    }

    fn default_value() -> (r: i64) {
        0
    }
}

impl GridCell for u32 {
    open spec fn spec_default() -> u32 {
        0
    }

    fn default_value() -> (r: u32) {
        0
    }
}

/// The row-major index addressed by the (wrapping) coordinate `(x, y)` on a
/// `w` by `h` grid.
pub open spec fn spec_pos_to_idx(x: int, y: int, w: int, h: int) -> int
    recommends
        w > 0,
        h > 0,
{
    (y % h) * w + (x % w)
}

/// Wraps the coordinate `c` into `[0, n)`, keeping its residue modulo `n`.
fn wrap_coord(c: i32, n: usize) -> (r: usize)
    requires
        n > 0,
    ensures
        r == (c as int) % (n as int),
        r < n,
{
    proof {
        lemma_mod_bound(c as int, n as int);
    }
    if c >= 0 {
        (c as usize) % n
    } else {
        let m: usize = ((-(c as i64)) as usize) % n;
        proof {
            let ci = c as int;
            let ni = n as int;
            let ai = -ci;
            lemma_mod_bound(ai, ni);
            lemma_fundamental_div_mod(ai, ni);
            let q = ai / ni;
            let mi = ai % ni;
            assert(ci == ni * (-q) + (-mi)) by (nonlinear_arith)
                requires
                    ai == ni * q + mi,
                    ci == -ai,
            ;
            if mi == 0 {
                lemma_fundamental_div_mod_converse_mod(ci, ni, -q, 0);
            } else {
                assert(ci == ni * (-q - 1) + (ni - mi)) by (nonlinear_arith)
                    requires
                        ci == ni * (-q) + (-mi),
                ;
                lemma_fundamental_div_mod_converse_mod(ci, ni, -q - 1, ni - mi);
            }
        }
        if m == 0 {
            0
        } else {
            n - m
        }
    }
}

/// The grid dimensions, with the coordinate-to-index mapping.
#[derive(Debug, Clone)]
struct GridSize {
    width: usize,
    height: usize,
}

impl GridSize {
    fn width(&self) -> (r: usize)
        ensures
            r == self.width,
    {
        self.width
    }

    fn height(&self) -> (r: usize)
        ensures
            r == self.height,
    {
        self.height
    }

    /// Maps a (wrapping) coordinate to its row-major index.
    fn pos_to_idx(&self, pos: GridPos) -> (r: usize)
        requires
            self.width > 0,
            self.height > 0,
            self.width * self.height <= usize::MAX,
        ensures
            r == spec_pos_to_idx(pos.x as int, pos.y as int, self.width as int, self.height as int),
            r < self.width * self.height,
    {
        let norm_x = wrap_coord(pos.x, self.width());
        let norm_y = wrap_coord(pos.y, self.height());
        proof {
            assert(norm_y * self.width + norm_x < self.width * self.height) by (nonlinear_arith)
                requires
                    norm_x < self.width,
                    norm_y < self.height,
                    self.width > 0,
                    self.height > 0,
            ;
        }
        norm_y * self.width() + norm_x
    }

    /// Maps a row-major index back to its in-range coordinate.
    fn idx_to_pos(&self, idx: usize) -> (r: GridPos)
        requires
            self.width > 0,
            idx < self.width * self.height,
            self.width <= i32::MAX,
            self.height <= i32::MAX,
        ensures
            r.x == (idx as int) % (self.width as int),
            r.y == (idx as int) / (self.width as int),
            0 <= r.x < self.width,
            0 <= r.y < self.height,
    {
        let x = idx % self.width;
        let y = idx / self.width;
        proof {
            let wi = self.width as int;
            let hi = self.height as int;
            let ii = idx as int;
            lemma_mod_bound(ii, wi);
            lemma_fundamental_div_mod(ii, wi);
            assert(ii / wi < hi) by (nonlinear_arith)
                requires
                    wi > 0,
                    ii < wi * hi,
                    ii == wi * (ii / wi) + (ii % wi),
                    0 <= ii % wi,
            ;
        }
        GridPos { x: x as i32, y: y as i32 }
    }
}

/// A dense rectangular buffer of cells, row-major, with toroidal indexing.
#[derive(Debug, Clone)]
pub struct Grid<T> {
    size: GridSize,
    entries: Vec<T>,
}

impl<T> Grid<T> {
    /// Number of columns.
    pub closed spec fn spec_width(&self) -> usize {
        self.size.width
    }

    /// Number of rows.
    pub closed spec fn spec_height(&self) -> usize {
        self.size.height
    }

    /// The cell contents in row-major order.
    pub closed spec fn cells(&self) -> Seq<T> {
        self.entries@
    }

    /// The buffer holds exactly one cell per coordinate and both dimensions
    /// fit the coordinate type.
    pub open spec fn wf(&self) -> bool {
        &&& self.cells().len() == self.spec_width() * self.spec_height()
        &&& self.cells().len() <= usize::MAX
        &&& self.spec_width() <= i32::MAX
        &&& self.spec_height() <= i32::MAX
    }

    /// The cell addressed by the (wrapping) coordinate `(x, y)`.
    pub open spec fn cell_at(&self, x: int, y: int) -> T
        recommends
            self.wf(),
            self.spec_width() > 0,
            self.spec_height() > 0,
    {
        self.cells()[spec_pos_to_idx(x, y, self.spec_width() as int, self.spec_height() as int)]
    }

    /// Number of columns.
    pub fn width(&self) -> (r: usize)
        ensures
            r == self.spec_width(),
    {
        self.size.width()
    }

    /// Number of rows.
    pub fn height(&self) -> (r: usize)
        ensures
            r == self.spec_height(),
    {
        self.size.height()
    }

    /// Reads the cell at `pos`, wrapping the coordinate into range.
    pub fn get(&self, pos: GridPos) -> (r: &T)
        requires
            self.wf(),
            self.spec_width() > 0,
            self.spec_height() > 0,
        ensures
            *r == self.cell_at(pos.x as int, pos.y as int),
    {
        let idx = self.size.pos_to_idx(pos);
        &self.entries[idx]
    }

    /// Borrows the cell at `pos` mutably, wrapping the coordinate into range.
    pub fn get_mut(&mut self, pos: GridPos) -> (r: &mut T)
        requires
            old(self).wf(),
            old(self).spec_width() > 0,
            old(self).spec_height() > 0,
        ensures
            *r == old(self).cell_at(pos.x as int, pos.y as int),
            final(self).cells() == old(self).cells().update(
                spec_pos_to_idx(
                    pos.x as int,
                    pos.y as int,
                    old(self).spec_width() as int,
                    old(self).spec_height() as int,
                ),
                *final(r),
            ),
            final(self).spec_width() == old(self).spec_width(),
            final(self).spec_height() == old(self).spec_height(),
            final(self).wf(),
    {
        let idx = self.size.pos_to_idx(pos);
        &mut self.entries[idx]
    }

    /// Overwrites the cell at `pos` with `value`, wrapping the coordinate
    /// into range.
    pub fn set(&mut self, pos: GridPos, value: T)
        requires
            old(self).wf(),
            old(self).spec_width() > 0,
            old(self).spec_height() > 0,
        ensures
            final(self).cells() == old(self).cells().update(
                spec_pos_to_idx(
                    pos.x as int,
                    pos.y as int,
                    old(self).spec_width() as int,
                    old(self).spec_height() as int,
                ),
                value,
            ),
            final(self).spec_width() == old(self).spec_width(),
            final(self).spec_height() == old(self).spec_height(),
            final(self).wf(),
    {
        *self.get_mut(pos) = value;
    }

    /// Starts a row-major traversal of every `(position, value)` pair.
    pub fn iter(&self) -> (r: Iter<'_, T>)
        ensures
            *r.grid == *self,
            r.idx == 0,
    {
        Iter { grid: self, idx: 0 }
    }

    /// Starts a row-major traversal over a grid held mutably.
    pub fn iter_mut(&mut self) -> (r: IterMut<'_, T>)
        ensures
            *final(self) == *old(self),
            *r.grid == *old(self),
            r.idx == 0,
    {
        IterMut { grid: &*self, idx: 0 }
    }
}

impl<T: GridCell> Grid<T> {
    /// Allocates a `width` by `height` grid with every cell set to the cell
    /// type's initial value.
    pub fn new(width: usize, height: usize) -> (r: Grid<T>)
        requires
            width * height <= usize::MAX,
            width <= i32::MAX,
            height <= i32::MAX,
        ensures
            r.wf(),
            r.spec_width() == width,
            r.spec_height() == height,
            forall|i: int| 0 <= i < r.cells().len() ==> r.cells()[i] == T::spec_default(),
    {
        let n = width * height;
        let mut entries: Vec<T> = Vec::new();
        let mut i: usize = 0;
        while i < n
            invariant
                i <= n,
                entries@.len() == i,
                forall|j: int| 0 <= j < i ==> entries@[j] == T::spec_default(),
            decreases n - i,
        {
            entries.push(T::default_value());
            i = i + 1;
        }
        Grid { size: GridSize { width, height }, entries }
    }
}

impl<T> Default for Grid<T> {
    /// An empty zero-by-zero grid.
    fn default() -> (r: Grid<T>)
        ensures
            r.wf(),
            r.spec_width() == 0,
            r.spec_height() == 0,
            r.cells() =~= Seq::<T>::empty(),
    {
        let r = Grid { size: GridSize { width: 0, height: 0 }, entries: Vec::new() };
        proof {
            assert(r.cells() =~= Seq::<T>::empty());
            assert(r.cells().len() == 0);
            assert(r.spec_width() == 0 && r.spec_height() == 0);
            assert(r.cells().len() == r.spec_width() * r.spec_height());
            assert(r.wf());
        }
        r
    }
}

/// A row-major cursor over a grid's `(position, value)` pairs.
pub struct Iter<'a, T> {
    pub grid: &'a Grid<T>,
    pub idx: usize,
}

impl<'a, T> Iter<'a, T> {
    /// Yields the next `(position, value)` pair, or `None` past the end.
    pub fn next(&mut self) -> (r: Option<(GridPos, &'a T)>)
        requires
            old(self).grid.wf(),
        ensures
            final(self).grid == old(self).grid,
            old(self).idx >= old(self).grid.cells().len() ==> r is None && final(self).idx == old(
                self,
            ).idx,
            old(self).idx < old(self).grid.cells().len() ==> {
                &&& final(self).idx == old(self).idx + 1
                &&& match r {
                    Some(pv) => {
                        &&& pv.0.x == (old(self).idx as int) % (old(self).grid.spec_width() as int)
                        &&& pv.0.y == (old(self).idx as int) / (old(self).grid.spec_width() as int)
                        &&& *pv.1 == old(self).grid.cells()[old(self).idx as int]
                    },
                    None => false,
                }
            },
    {
        if self.idx < self.grid.entries.len() {
            let idx = self.idx;
            proof {
                assert(self.grid.size.width > 0) by (nonlinear_arith)
                    requires
                        idx < self.grid.size.width * self.grid.size.height,
                ;
            }
            let pos = self.grid.size.idx_to_pos(idx);
            self.idx = idx + 1;
            Some((pos, &self.grid.entries[idx]))
        } else {
            None
        }
    }

    /// Number of pairs still to be yielded.
    pub fn len(&self) -> (r: usize)
        ensures
            r == if self.idx <= self.grid.cells().len() {
                self.grid.cells().len() - self.idx
            } else {
                0
            },
    {
        let total = self.grid.entries.len();
        if self.idx <= total {
            total - self.idx
        } else {
            0
        }
    }
}

/// A row-major cursor started from a mutably held grid.
pub struct IterMut<'a, T> {
    pub grid: &'a Grid<T>,
    pub idx: usize,
}

impl<'a, T> IterMut<'a, T> {
    /// Yields the next `(position, value)` pair, or `None` past the end.
    pub fn next(&mut self) -> (r: Option<(GridPos, &'a T)>)
        requires
            old(self).grid.wf(),
        ensures
            final(self).grid == old(self).grid,
            old(self).idx >= old(self).grid.cells().len() ==> r is None && final(self).idx == old(
                self,
            ).idx,
            old(self).idx < old(self).grid.cells().len() ==> {
                &&& final(self).idx == old(self).idx + 1
                &&& match r {
                    Some(pv) => {
                        &&& pv.0.x == (old(self).idx as int) % (old(self).grid.spec_width() as int)
                        &&& pv.0.y == (old(self).idx as int) / (old(self).grid.spec_width() as int)
                        &&& *pv.1 == old(self).grid.cells()[old(self).idx as int]
                    },
                    None => false,
                }
            },
    {
        if self.idx < self.grid.entries.len() {
            let idx = self.idx;
            proof {
                assert(self.grid.size.width > 0) by (nonlinear_arith)
                    requires
                        idx < self.grid.size.width * self.grid.size.height,
                ;
            }
            let pos = self.grid.size.idx_to_pos(idx);
            self.idx = idx + 1;
            Some((pos, &self.grid.entries[idx]))
        } else {
            None
        }
    }

    /// Number of pairs still to be yielded.
    pub fn len(&self) -> (r: usize)
        ensures
            r == if self.idx <= self.grid.cells().len() {
                self.grid.cells().len() - self.idx
            } else {
                0
            },
    {
        let total = self.grid.entries.len();
        if self.idx <= total {
            total - self.idx
        } else {
            0
        }
    }
}

/// Law: toroidal wrap. Shifting the x coordinate by a full width period, or
/// the y coordinate by a full height period, addresses the same cell, so a
/// value written at `pos` is read back at `pos + (width, 0)`.
pub proof fn lemma_wrap_full_period<T>(g: Grid<T>, x: int, y: int)
    requires
        g.spec_width() > 0,
        g.spec_height() > 0,
    ensures
        g.cell_at(x + g.spec_width(), y) == g.cell_at(x, y),
        g.cell_at(x, y + g.spec_height()) == g.cell_at(x, y),
{
    let w = g.spec_width() as int;
    let h = g.spec_height() as int;
    lemma_mod_add_multiples_vanish(x, w);
    lemma_mod_add_multiples_vanish(y, h);
    assert((x + w) % w == x % w);
    assert((y + h) % h == y % h);
}

} // verus!
