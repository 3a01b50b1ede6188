use crate::grid::Grid;
use vstd::prelude::*;

verus! {

/// Number of strips of a phase in a grid of `width` columns. A phase is the column, 1 or 3,
/// at which its first strip starts.
pub open spec fn strip_count(width: int, phase: int) -> int {
    if width - 1 > phase {
        (width - 1 - phase + 3) / 4
    } else {
        0
    }
}

/// First column of the `k`-th strip of a phase.
pub open spec fn strip_start(phase: int, k: int) -> int {
    phase + 4 * k
}

/// The column after the last one of the `k`-th strip of a phase: a strip has two columns,
/// or one where the interior of the grid ends.
pub open spec fn strip_end(width: int, phase: int, k: int) -> int {
    if phase + 4 * k + 2 <= width - 1 {
        phase + 4 * k + 2
    } else {
        width - 1
    }
}

/// The strips of a phase, left to right, each as first column and column after the last.
pub open spec fn strips(width: int, phase: int) -> Seq<(usize, usize)> {
    Seq::new(
        strip_count(width, phase) as nat,
        |k: int| (strip_start(phase, k) as usize, strip_end(width, phase, k) as usize),
    )
}

/// The strips of one phase of a grid of `width` columns.
fn strips_of(width: usize, phase: usize) -> (out: Vec<(usize, usize)>)
    requires
        width >= 1,
        phase == 1 || phase == 3,
    ensures
        out@ == strips(width as int, phase as int),
{
    let mut out: Vec<(usize, usize)> = Vec::new();
    let last: usize = width - 1;
    let mut i: usize = phase;
    let mut k: usize = 0;
    let mut done: bool = i >= last;
    while !done
        invariant
            last == width - 1,
            phase == 1 || phase == 3,
            !done ==> i == phase + 4 * k,
            out@.len() == k,
            !done ==> i < last,
            done ==> k == strip_count(width as int, phase as int),
            k <= strip_count(width as int, phase as int),
            forall|m: int|
                0 <= m < k ==> out@[m] == (
                    strip_start(phase as int, m) as usize,
                    strip_end(width as int, phase as int, m) as usize,
                ),
        decreases
                (if done {
                    0int
                } else {
                    1int
                }) + last - i,
    {
        let end: usize = if last - i >= 2 {
            i + 2
        } else {
            last
        };
        out.push((i, end));
        k += 1;
        if last - i <= 4 {
            done = true;
        } else {
            i += 4;
        }
    }
    proof {
        assert(out@ =~= strips(width as int, phase as int));
    }
    out
}

/// The two groups of column strips that are scanned one after the other: the strips that
/// start at columns 1, 5, 9, ... and those that start at columns 3, 7, 11, ...
pub fn column_groups(width: usize) -> (groups: (Vec<(usize, usize)>, Vec<(usize, usize)>))
    requires
        width >= 1,
    ensures
        groups.0@ == strips(width as int, 1),
        groups.1@ == strips(width as int, 3),
{
    (strips_of(width, 1), strips_of(width, 3))
}

/// The phase whose strips hold column `col`.
pub open spec fn phase_of(col: int) -> int {
    if col % 4 == 1 || col % 4 == 2 {
        1
    } else {
        3
    }
}

/// Every interior column lies in a strip: the one whose phase and number its position
/// gives.
pub proof fn lemma_strips_cover(width: int, col: int)
    requires
        1 <= col < width - 1,
    ensures
        0 <= (col - phase_of(col)) / 4 < strip_count(width, phase_of(col)),
        strip_start(phase_of(col), (col - phase_of(col)) / 4) <= col,
        col < strip_end(width, phase_of(col), (col - phase_of(col)) / 4),
{
}

/// No column lies in two strips.
pub proof fn lemma_strip_unique(width: int, col: int, phase: int, k: int)
    requires
        phase == 1 || phase == 3,
        0 <= k < strip_count(width, phase),
        strip_start(phase, k) <= col < strip_end(width, phase, k),
    ensures
        phase == phase_of(col),
        k == (col - phase) / 4,
{
}

/// Column `c` is column `col` or one of the two beside it.
pub open spec fn next_to(c: int, col: int) -> bool {
    col - 1 <= c <= col + 1
}

/// Strips of one phase keep apart: columns of two different strips are at least three
/// columns from each other, so no column is next to both.
pub proof fn lemma_strips_apart(width: int, phase: int, k1: int, k2: int, c1: int, c2: int)
    requires
        phase == 1 || phase == 3,
        0 <= k1 < k2 < strip_count(width, phase),
        strip_start(phase, k1) <= c1 < strip_end(width, phase, k1),
        strip_start(phase, k2) <= c2 < strip_end(width, phase, k2),
    ensures
        c1 + 3 <= c2,
        forall|c: int| !(#[trigger] next_to(c, c1) && next_to(c, c2)),
{
}

/// The pairs `(i, j)` for the entries `j` of `others` that are not `i`, in their order.
pub open spec fn pairs_with(i: usize, others: Seq<usize>) -> Seq<(usize, usize)>
    decreases others.len(),
{
    if others.len() == 0 {
        Seq::empty()
    } else if others.last() != i {
        pairs_with(i, others.drop_last()).push((i, others.last()))
    } else {
        pairs_with(i, others.drop_last())
    }
}

/// The `n`-th of the nine cells around `(col, row)`, itself included: columns left to
/// right and, within a column, rows bottom to top.
pub open spec fn neighbour(cells: Seq<Seq<usize>>, height: int, col: int, row: int, n: int) -> Seq<
    usize,
> {
    cells[(col + n / 3 - 1) * height + (row + n % 3 - 1)]
}

/// The pairs of `i` with the entries of the first `n` cells around `(col, row)`.
pub open spec fn pairs_around(
    cells: Seq<Seq<usize>>,
    height: int,
    col: int,
    row: int,
    i: usize,
    n: int,
) -> Seq<(usize, usize)>
    decreases n,
{
    if n <= 0 {
        Seq::empty()
    } else {
        pairs_around(cells, height, col, row, i, n - 1) + pairs_with(
            i,
            neighbour(cells, height, col, row, n - 1),
        )
    }
}

/// The pairs of the first `m` entries of cell `(col, row)` with the entries around them.
pub open spec fn pairs_of_cell(cells: Seq<Seq<usize>>, height: int, col: int, row: int, m: int) -> Seq<
    (usize, usize),
>
    decreases m,
{
    if m <= 0 {
        Seq::empty()
    } else {
        pairs_of_cell(cells, height, col, row, m - 1) + pairs_around(
            cells,
            height,
            col,
            row,
            cells[col * height + row][m - 1],
            9,
        )
    }
}

/// The pairs of the cells of column `col` in rows `1` to `rows - 1`, bottom to top.
pub open spec fn pairs_of_column(cells: Seq<Seq<usize>>, height: int, col: int, rows: int) -> Seq<
    (usize, usize),
>
    decreases rows,
{
    if rows <= 1 {
        Seq::empty()
    } else {
        pairs_of_column(cells, height, col, rows - 1) + pairs_of_cell(
            cells,
            height,
            col,
            rows - 1,
            cells[col * height + rows - 1].len() as int,
        )
    }
}

/// The pairs of the interior cells of columns `from` to `to - 1`, left to right.
pub open spec fn pairs_of_columns(cells: Seq<Seq<usize>>, height: int, from: int, to: int) -> Seq<
    (usize, usize),
>
    decreases to - from,
{
    if to <= from {
        Seq::empty()
    } else {
        pairs_of_columns(cells, height, from, to - 1) + pairs_of_column(
            cells,
            height,
            to - 1,
            height - 1,
        )
    }
}

/// The pairs of the interior cells of the given strips, strip by strip.
pub open spec fn pairs_of_strips(
    cells: Seq<Seq<usize>>,
    height: int,
    group: Seq<(usize, usize)>,
) -> Seq<(usize, usize)>
    decreases group.len(),
{
    if group.len() == 0 {
        Seq::empty()
    } else {
        pairs_of_strips(cells, height, group.drop_last()) + pairs_of_columns(
            cells,
            height,
            group.last().0 as int,
            group.last().1 as int,
        )
    }
}

/// The candidate pairs of one sweep over the grid, in the order in which they are to be
/// resolved: first the strips that start at columns 1, 5, 9, ..., then those that start
/// at columns 3, 7, 11, ...
pub open spec fn sweep_pairs(cells: Seq<Seq<usize>>, width: int, height: int) -> Seq<
    (usize, usize),
> {
    pairs_of_strips(cells, height, strips(width, 1)) + pairs_of_strips(
        cells,
        height,
        strips(width, 3),
    )
}

/// Cell `(c, r)` of a grid stands at a place below `width * height`.
proof fn lemma_flat_index(c: int, r: int, width: int, height: int)
    requires
        0 <= c < width,
        0 <= r < height,
    ensures
        0 <= c * height,
        0 <= c * height + r < width * height,
{
    assert(0 <= c * height) by (nonlinear_arith)
        requires
            0 <= c,
            0 <= height,
    ;
    assert(c * height + height <= width * height) by (nonlinear_arith)
        requires
            c + 1 <= width,
            0 <= height,
    ;
}

fn push_pairs_with(out: &mut Vec<(usize, usize)>, i: usize, others: &Vec<usize>)
    ensures
        final(out)@ == old(out)@ + pairs_with(i, others@),
{
    let mut k: usize = 0;
    proof {
        assert(others@.take(0) =~= Seq::empty());
        assert(out@ =~= old(out)@ + pairs_with(i, others@.take(0)));
    }
    while k < others.len()
        invariant
            k <= others@.len(),
            out@ == old(out)@ + pairs_with(i, others@.take(k as int)),
        decreases others@.len() - k,
    {
        let j = others[k];
        proof {
            assert(others@.take(k + 1).drop_last() =~= others@.take(k as int));
            assert(others@.take(k + 1).last() == j);
        }
        if i != j {
            out.push((i, j));
        }
        proof {
            assert(out@ =~= old(out)@ + pairs_with(i, others@.take(k + 1)));
        }
        k += 1;
    }
    proof {
        assert(others@.take(k as int) =~= others@);
    }
}

fn push_pairs_around(
    out: &mut Vec<(usize, usize)>,
    grid: &Grid<usize>,
    col: usize,
    row: usize,
    i: usize,
)
    requires
        grid.wf(),
        1 <= col < grid.width - 1,
        1 <= row < grid.height - 1,
    ensures
        final(out)@ == old(out)@ + pairs_around(
            grid.cells(),
            grid.height as int,
            col as int,
            row as int,
            i,
            9,
        ),
{
    let mut n: usize = 0;
    proof {
        assert(out@ =~= old(out)@ + pairs_around(
            grid.cells(),
            grid.height as int,
            col as int,
            row as int,
            i,
            0,
        ));
    }
    while n < 9
        invariant
            n <= 9,
            grid.wf(),
            1 <= col < grid.width - 1,
            1 <= row < grid.height - 1,
            out@ == old(out)@ + pairs_around(
                grid.cells(),
                grid.height as int,
                col as int,
                row as int,
                i,
                n as int,
            ),
        decreases 9 - n,
    {
        let c: usize = col - 1 + n / 3;
        let r: usize = row - 1 + n % 3;
        proof {
            lemma_flat_index(c as int, r as int, grid.width as int, grid.height as int);
        }
        let others = grid.cell((c, r));
        proof {
            assert(others@ == neighbour(
                grid.cells(),
                grid.height as int,
                col as int,
                row as int,
                n as int,
            ));
        }
        push_pairs_with(out, i, &others);
        proof {
            assert(out@ =~= old(out)@ + pairs_around(
                grid.cells(),
                grid.height as int,
                col as int,
                row as int,
                i,
                n + 1,
            ));
        }
        n += 1;
    }
}

fn push_pairs_of_cell(out: &mut Vec<(usize, usize)>, grid: &Grid<usize>, col: usize, row: usize)
    requires
        grid.wf(),
        1 <= col < grid.width - 1,
        1 <= row < grid.height - 1,
    ensures
        final(out)@ == old(out)@ + pairs_of_cell(
            grid.cells(),
            grid.height as int,
            col as int,
            row as int,
            grid.cell_at(col as int, row as int).len() as int,
        ),
{
    proof {
        lemma_flat_index(col as int, row as int, grid.width as int, grid.height as int);
    }
    let own = grid.cell((col, row));
    let mut m: usize = 0;
    proof {
        assert(out@ =~= old(out)@ + pairs_of_cell(
            grid.cells(),
            grid.height as int,
            col as int,
            row as int,
            0,
        ));
    }
    while m < own.len()
        invariant
            m <= own@.len(),
            grid.wf(),
            1 <= col < grid.width - 1,
            1 <= row < grid.height - 1,
            own@ == grid.cell_at(col as int, row as int),
            out@ == old(out)@ + pairs_of_cell(
                grid.cells(),
                grid.height as int,
                col as int,
                row as int,
                m as int,
            ),
        decreases own@.len() - m,
    {
        push_pairs_around(out, grid, col, row, own[m]);
        proof {
            assert(out@ =~= old(out)@ + pairs_of_cell(
                grid.cells(),
                grid.height as int,
                col as int,
                row as int,
                m + 1,
            ));
        }
        m += 1;
    }
}

fn push_pairs_of_column(out: &mut Vec<(usize, usize)>, grid: &Grid<usize>, col: usize)
    requires
        grid.wf(),
        grid.height >= 1,
        1 <= col < grid.width - 1,
    ensures
        final(out)@ == old(out)@ + pairs_of_column(
            grid.cells(),
            grid.height as int,
            col as int,
            grid.height - 1,
        ),
{
    let mut row: usize = 1;
    proof {
        assert(out@ =~= old(out)@ + pairs_of_column(
            grid.cells(),
            grid.height as int,
            col as int,
            1,
        ));
    }
    while row < grid.height - 1
        invariant
            1 <= row,
            grid.height >= 1,
            row <= grid.height - 1 || row == 1,
            grid.wf(),
            1 <= col < grid.width - 1,
            out@ == old(out)@ + pairs_of_column(
                grid.cells(),
                grid.height as int,
                col as int,
                row as int,
            ),
        decreases grid.height - row,
    {
        push_pairs_of_cell(out, grid, col, row);
        proof {
            assert(out@ =~= old(out)@ + pairs_of_column(
                grid.cells(),
                grid.height as int,
                col as int,
                row + 1,
            ));
        }
        row += 1;
    }
    proof {
        if grid.height <= 1 {
            assert(pairs_of_column(grid.cells(), grid.height as int, col as int, grid.height - 1)
                =~= Seq::empty());
            assert(pairs_of_column(grid.cells(), grid.height as int, col as int, 1)
                =~= Seq::empty());
        }
        assert(out@ =~= old(out)@ + pairs_of_column(
            grid.cells(),
            grid.height as int,
            col as int,
            grid.height - 1,
        ));
    }
}

fn push_pairs_of_columns(out: &mut Vec<(usize, usize)>, grid: &Grid<usize>, from: usize, to: usize)
    requires
        grid.wf(),
        grid.height >= 1,
        1 <= from,
        to <= grid.width - 1,
    ensures
        final(out)@ == old(out)@ + pairs_of_columns(
            grid.cells(),
            grid.height as int,
            from as int,
            to as int,
        ),
{
    let mut col: usize = from;
    proof {
        assert(out@ =~= old(out)@ + pairs_of_columns(
            grid.cells(),
            grid.height as int,
            from as int,
            from as int,
        ));
    }
    while col < to
        invariant
            from <= col,
            col <= to || col == from,
            grid.wf(),
            grid.height >= 1,
            1 <= from,
            to <= grid.width - 1,
            out@ == old(out)@ + pairs_of_columns(
                grid.cells(),
                grid.height as int,
                from as int,
                col as int,
            ),
        decreases to - col,
    {
        push_pairs_of_column(out, grid, col);
        proof {
            assert(out@ =~= old(out)@ + pairs_of_columns(
                grid.cells(),
                grid.height as int,
                from as int,
                col + 1,
            ));
        }
        col += 1;
    }
    proof {
        if to <= from {
            assert(pairs_of_columns(grid.cells(), grid.height as int, from as int, to as int)
                =~= Seq::empty());
            assert(pairs_of_columns(grid.cells(), grid.height as int, from as int, from as int)
                =~= Seq::empty());
        }
        assert(out@ =~= old(out)@ + pairs_of_columns(
            grid.cells(),
            grid.height as int,
            from as int,
            to as int,
        ));
    }
}

fn push_pairs_of_strips(
    out: &mut Vec<(usize, usize)>,
    grid: &Grid<usize>,
    group: &Vec<(usize, usize)>,
)
    requires
        grid.wf(),
        grid.height >= 1,
        forall|k: int| 0 <= k < group@.len() ==> 1 <= (#[trigger] group@[k]).0 && group@[k].1
            <= grid.width - 1,
    ensures
        final(out)@ == old(out)@ + pairs_of_strips(grid.cells(), grid.height as int, group@),
{
    let mut k: usize = 0;
    proof {
        assert(group@.take(0) =~= Seq::empty());
        assert(out@ =~= old(out)@ + pairs_of_strips(
            grid.cells(),
            grid.height as int,
            group@.take(0),
        ));
    }
    while k < group.len()
        invariant
            k <= group@.len(),
            grid.wf(),
            grid.height >= 1,
            forall|k: int| 0 <= k < group@.len() ==> 1 <= (#[trigger] group@[k]).0 && group@[k].1
                <= grid.width - 1,
            out@ == old(out)@ + pairs_of_strips(
                grid.cells(),
                grid.height as int,
                group@.take(k as int),
            ),
        decreases group@.len() - k,
    {
        let strip = group[k];
        push_pairs_of_columns(out, grid, strip.0, strip.1);
        proof {
            assert(group@.take(k + 1).drop_last() =~= group@.take(k as int));
            assert(group@.take(k + 1).last() == strip);
            assert(out@ =~= old(out)@ + pairs_of_strips(
                grid.cells(),
                grid.height as int,
                group@.take(k + 1),
            ));
        }
        k += 1;
    }
    proof {
        assert(group@.take(k as int) =~= group@);
    }
}

/// The ordered pairs of entries `(i, j)` whose collision one sweep over the grid resolves,
/// in the order of the sweep. Each interior cell is visited once; each of its entries is
/// paired with every other entry of the nine cells around it, the cell itself included.
pub fn collision_pairs(grid: &Grid<usize>) -> (pairs: Vec<(usize, usize)>)
    requires
        grid.wf(),
        grid.width >= 1,
        grid.height >= 1,
    ensures
        pairs@ == sweep_pairs(grid.cells(), grid.width as int, grid.height as int),
{
    let groups = column_groups(grid.width);
    let mut pairs: Vec<(usize, usize)> = Vec::new();
    push_pairs_of_strips(&mut pairs, grid, &groups.0);
    push_pairs_of_strips(&mut pairs, grid, &groups.1);
    pairs
}

} // verus!
