use vstd::prelude::*;

verus! {

/// The most entries that one cell holds.
pub const CELL_MAX: usize = 4;

/// One cell of the grid: up to `CELL_MAX` entries, in the order in which they came.
#[derive(Clone, Copy)]
pub struct GridCell<T> where T: Clone + Copy + Default {
    pub len: usize,
    pub elements: [T; 4],
}

impl<T> GridCell<T> where T: Clone + Copy + Default {
    /// The cell holds no more entries than it has room for.
    pub open spec fn wf(&self) -> bool {
        self.len <= CELL_MAX
    }

    /// The entries of the cell, in the order in which they came.
    pub open spec fn entries(&self) -> Seq<T> {
        self.elements@.take(self.len as int)
    }

    /// An empty cell whose unused places hold `fill`.
    pub fn new(fill: T) -> (cell: Self)
        ensures
            cell.wf(),
            cell.entries() == Seq::<T>::empty(),
    {
        let cell = Self { len: 0, elements: [fill; 4] };
        proof {
            assert(cell.entries() =~= Seq::<T>::empty());
        }
        cell
    }

    /// Adds `elem` at the end, unless the cell is full: then the cell stays as it is.
    pub fn push(&mut self, elem: T)
        requires
            old(self).wf(),
        ensures
            final(self).wf(),
            old(self).entries().len() < CELL_MAX ==> final(self).entries() == old(self).entries().push(elem),
            old(self).entries().len() >= CELL_MAX ==> *final(self) == *old(self),
    {
        if self.len < CELL_MAX {
            self.elements[self.len] = elem;
            self.len += 1;
            proof {
                assert(self.entries() =~= old(self).entries().push(elem));
            }
        }
    }

    /// Empties the cell.
    pub fn clear(&mut self)
        ensures
            final(self).wf(),
            final(self).entries() == Seq::<T>::empty(),
    {
        self.len = 0;
        proof {
            assert(self.entries() =~= Seq::<T>::empty());
        }
    }

    /// The entries of the cell, in the order in which they came.
    pub fn iter(&self) -> (entries: Vec<T>)
        requires
            self.wf(),
        ensures
            entries@ == self.entries(),
    {
        let mut entries: Vec<T> = Vec::new();
        let mut k: usize = 0;
        while k < self.len
            invariant
                k <= self.len <= CELL_MAX,
                entries@ == self.elements@.take(k as int),
            decreases self.len - k,
        {
            entries.push(self.elements[k]);
            proof {
                assert(entries@ =~= self.elements@.take(k + 1));
            }
            k += 1;
        }
        entries
    }
}

/// A grid of `width` columns and `height` rows of cells, stored column by column.
#[derive(Clone)]
pub struct Grid<T> where T: Clone + Copy + Default {
    pub width: usize,
    pub height: usize,
    pub grid: Vec<GridCell<T>>,
}

impl<T> Grid<T> where T: Clone + Copy + Default {
    /// The grid has `width * height` cells, none of them over-full.
    pub open spec fn wf(&self) -> bool {
        &&& self.grid@.len() == self.width * self.height
        &&& forall|k: int| 0 <= k < self.grid@.len() ==> (#[trigger] self.grid@[k]).wf()
    }

    /// The entries of each cell; cell `(i, j)` stands at place `i * height + j`.
    pub open spec fn cells(&self) -> Seq<Seq<T>> {
        Seq::new(self.grid@.len(), |k: int| self.grid@[k].entries())
    }

    /// The entries of cell `(i, j)`.
    pub open spec fn cell_at(&self, i: int, j: int) -> Seq<T> {
        self.cells()[i * self.height + j]
    }

    /// A well-formed grid has `width * height` cells of at most `CELL_MAX` entries each.
    pub proof fn lemma_cells_bounded(&self)
        requires
            self.wf(),
        ensures
            self.cells().len() == self.width * self.height,
            forall|k: int| 0 <= k < self.cells().len() ==> (#[trigger] self.cells()[k]).len() <= CELL_MAX,
    {
    }

    /// A grid of `width * height` empty cells.
    pub fn new(width: usize, height: usize) -> (grid: Self)
        requires
            width * height <= usize::MAX,
        ensures
            grid.wf(),
            grid.width == width,
            grid.height == height,
            grid.cells() == Seq::new((width * height) as nat, |k: int| Seq::<T>::empty()),
    {
        let total: usize = width * height;
        let mut cells: Vec<GridCell<T>> = Vec::new();
        let mut k: usize = 0;
        while k < total
            invariant
                k <= total,
                cells@.len() == k,
                forall|m: int| 0 <= m < k ==> (#[trigger] cells@[m]).wf() && cells@[m].entries() == Seq::<T>::empty(),
            decreases total - k,
        {
            cells.push(GridCell::new(T::default()));
            k += 1;
        }
        let grid = Self { width, height, grid: cells };
        proof {
            assert(grid.cells() =~= Seq::new((width * height) as nat, |k: int| Seq::<T>::empty()));
        }
        grid
    }

    /// Empties every cell.
    pub fn clear(&mut self)
        requires
            old(self).wf(),
        ensures
            final(self).wf(),
            final(self).width == old(self).width,
            final(self).height == old(self).height,
            final(self).cells() == Seq::new(old(self).cells().len(), |k: int| Seq::<T>::empty()),
    {
        let total = self.grid.len();
        let mut k: usize = 0;
        while k < total
            invariant
                k <= total,
                total == self.grid@.len(),
                self.width == old(self).width,
                self.height == old(self).height,
                self.grid@.len() == old(self).grid@.len(),
                forall|m: int| 0 <= m < total ==> (#[trigger] self.grid@[m]).wf(),
                forall|m: int| 0 <= m < k ==> (#[trigger] self.grid@[m]).entries() == Seq::<T>::empty(),
            decreases total - k,
        {
            let mut cell = self.grid[k];
            cell.clear();
            self.grid[k] = cell;
            k += 1;
        }
        proof {
            assert(self.cells() =~= Seq::new(old(self).cells().len(), |k: int| Seq::<T>::empty()));
        }
    }

    /// Adds `value` to cell `ind`, unless that cell is full: then the grid stays as it is.
    pub fn push(&mut self, ind: (usize, usize), value: T)
        requires
            old(self).wf(),
            ind.0 * old(self).height + ind.1 < old(self).width * old(self).height,
        ensures
            final(self).wf(),
            final(self).width == old(self).width,
            final(self).height == old(self).height,
            old(self).cell_at(ind.0 as int, ind.1 as int).len() < CELL_MAX ==> final(self).cells()
                == old(self).cells().update(
                ind.0 * old(self).height + ind.1,
                old(self).cell_at(ind.0 as int, ind.1 as int).push(value),
            ),
            old(self).cell_at(ind.0 as int, ind.1 as int).len() >= CELL_MAX ==> final(self).cells() == old(self).cells(),
    {
        let total = self.grid.len();
        proof {
            assert(ind.0 * self.height >= 0) by (nonlinear_arith);
            assert(ind.0 * self.height + ind.1 < total);
        }
        let at: usize = ind.0 * self.height + ind.1;
        let mut cell = self.grid[at];
        cell.push(value);
        self.grid[at] = cell;
        proof {
            let before = old(self).cells();
            if before[at as int].len() < CELL_MAX {
                assert(self.cells() =~= before.update(at as int, before[at as int].push(value)));
            } else {
                assert(self.cells() =~= before);
            }
        }
    }

    /// The entries of cell `ind`, in the order in which they came.
    pub fn cell(&self, ind: (usize, usize)) -> (entries: Vec<T>)
        requires
            self.wf(),
            ind.0 * self.height + ind.1 < self.width * self.height,
        ensures
            entries@ == self.cell_at(ind.0 as int, ind.1 as int),
            entries@.len() <= CELL_MAX,
    {
        let total = self.grid.len();
        proof {
            assert(ind.0 * self.height >= 0) by (nonlinear_arith);
            assert(ind.0 * self.height + ind.1 < total);
        }
        let at: usize = ind.0 * self.height + ind.1;
        self.grid[at].iter()
    }
}

} // verus!
