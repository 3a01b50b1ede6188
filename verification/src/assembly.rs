use crate::particle::{Particle, Vec2};
use crate::scalar::positive;
use crate::controller::Spawn;
use crate::solver::{connections_valid, partners_valid, shifted, Connection, Constraint, Link, Solver};
use rand::Rng;
use vstd::prelude::*;

verus! {

/// `Rng::gen_range` on the thread's generator, for the range from zero up to `len`: a
/// number below `len`, chosen at random. The range must not be empty.
#[verifier::external_body]
fn random_index(len: usize) -> (i: usize)
    requires
        len > 0,
    ensures
        i < len,
{
    rand::thread_rng().gen_range(0..len)
}

/// A grid of places packed in a triangular pattern, stored column by column: every
/// second row is shifted by half a place.
pub struct TriangularGrid<T> {
    pub bounds: (Vec2, Vec2),
    pub width: usize,
    pub height: usize,
    pub grid: Vec<T>,
}

/// A place of a layer: empty, or the number of the particle that stands there and the
/// colour of the pixel that it was made from.
pub type Place = Option<(usize, [u8; 4])>;

/// The `n`-th of the seven places around place `(i, j)`, itself first.
pub open spec fn around(i: int, j: int, n: int) -> (int, int) {
    let lean: int = if j % 2 == 1 {
        0
    } else {
        1
    };
    if n == 0 {
        (i, j)
    } else if n == 1 {
        (i + 1, j)
    } else if n == 2 {
        (i - 1, j)
    } else if n == 3 {
        (i + lean, j + 1)
    } else if n == 4 {
        (i + lean - 1, j + 1)
    } else if n == 5 {
        (i + lean, j - 1)
    } else {
        (i + lean - 1, j - 1)
    }
}

/// How many of the first `n` places around `(i, j)` hold a particle with a higher number
/// than the one at `(i, j)`; zero if `(i, j)` is empty.
pub open spec fn later_around(cells: Seq<Place>, height: int, i: int, j: int, n: int) -> int
    decreases n,
{
    if n <= 0 {
        0
    } else {
        let rest = later_around(cells, height, i, j, n - 1);
        let at = around(i, j, n - 1);
        match (cells[i * height + j], cells[at.0 * height + at.1]) {
            (Some((own, _)), Some((other, _))) if other > own => rest + 1,
            _ => rest,
        }
    }
}

/// The count of `later_around` over the places of column `i` in rows `1` to `rows - 1`.
pub open spec fn links_in_column(cells: Seq<Place>, height: int, i: int, rows: int) -> int
    decreases rows,
{
    if rows <= 1 {
        0
    } else {
        links_in_column(cells, height, i, rows - 1) + later_around(cells, height, i, rows - 1, 7)
    }
}

/// The count of `later_around` over the interior places of columns `1` to `cols - 1`.
pub open spec fn links_in_columns(cells: Seq<Place>, height: int, cols: int) -> int
    decreases cols,
{
    if cols <= 1 {
        0
    } else {
        links_in_columns(cells, height, cols - 1) + links_in_column(
            cells,
            height,
            cols - 1,
            height - 1,
        )
    }
}

/// Place `(c, r)` of a grid stands below `width * height`.
proof fn lemma_place(c: int, r: int, width: int, height: int)
    requires
        0 <= c < width,
        0 <= r < height,
    ensures
        0 <= c * height,
        0 <= c * height + r < width * height,
{
    assert(0 <= c * height) by (nonlinear_arith)
        requires
            0 <= c,
            0 <= height,
    ;
    assert(c * height + height <= width * height) by (nonlinear_arith)
        requires
            c + 1 <= width,
            0 <= height,
    ;
}

impl<T> TriangularGrid<T> where T: Default + Clone + Copy {
    /// The grid has `width * height` places.
    pub open spec fn wf(&self) -> bool {
        self.grid@.len() == self.width * self.height
    }

    /// A grid of `cells_x + 3` columns and `cells_y + 3` rows, every place holding `fill`.
    pub fn new(bounds: (Vec2, Vec2), cells_x: usize, cells_y: usize, fill: T) -> (grid: Self)
        requires
            (cells_x + 3) * (cells_y + 3) <= usize::MAX,
        ensures
            grid.wf(),
            grid.bounds == bounds,
            grid.width == cells_x + 3,
            grid.height == cells_y + 3,
            grid.grid@ == Seq::new(((cells_x + 3) * (cells_y + 3)) as nat, |k: int| fill),
    {
        proof {
            assert(cells_x + 3 <= (cells_x + 3) * (cells_y + 3)) by (nonlinear_arith);
            assert(cells_y + 3 <= (cells_x + 3) * (cells_y + 3)) by (nonlinear_arith);
        }
        let width = cells_x + 3;
        let height = cells_y + 3;
        let total = width * height;
        let mut grid: Vec<T> = Vec::new();
        let mut k: usize = 0;
        while k < total
            invariant
                k <= total,
                grid@ == Seq::new(k as nat, |m: int| fill),
            decreases total - k,
        {
            grid.push(fill);
            proof {
                assert(grid@ =~= Seq::new((k + 1) as nat, |m: int| fill));
            }
            k += 1;
        }
        Self { bounds, width, height, grid }
    }

    /// What stands at place `ind`.
    pub fn get(&self, ind: (usize, usize)) -> (value: &T)
        requires
            ind.0 * self.height + ind.1 < self.grid@.len(),
        ensures
            *value == self.grid@[ind.0 * self.height + ind.1],
    {
        let total = self.grid.len();
        proof {
            assert(ind.0 * self.height >= 0) by (nonlinear_arith);
        }
        &self.grid[ind.0 * self.height + ind.1]
    }

    /// Puts `value` at place `ind`.
    pub fn set(&mut self, ind: (usize, usize), value: T)
        requires
            ind.0 * old(self).height + ind.1 < old(self).grid@.len(),
        ensures
            final(self).grid@ == old(self).grid@.update(
                ind.0 * old(self).height + ind.1,
                value,
            ),
            final(self).width == old(self).width,
            final(self).height == old(self).height,
            final(self).bounds == old(self).bounds,
    {
        let total = self.grid.len();
        proof {
            assert(ind.0 * self.height >= 0) by (nonlinear_arith);
        }
        let at = ind.0 * self.height + ind.1;
        self.grid[at] = value;
    }
}

/// The seven places around `ind`, itself first.
pub fn adjacent(ind: (usize, usize)) -> (out: [(usize, usize); 7])
    requires
        1 <= ind.0 < usize::MAX,
        1 <= ind.1 < usize::MAX,
    ensures
        forall|n: int|
            0 <= n < 7 ==> (#[trigger] out@[n]).0 == around(ind.0 as int, ind.1 as int, n).0
                && out@[n].1 == around(ind.0 as int, ind.1 as int, n).1,
{
    let (i, j) = ind;
    if j % 2 == 1 {
        [(i, j), (i + 1, j), (i - 1, j), (i, j + 1), (i - 1, j + 1), (i, j - 1), (i - 1, j - 1)]
    } else {
        [(i, j), (i + 1, j), (i - 1, j), (i + 1, j + 1), (i, j + 1), (i + 1, j - 1), (i, j - 1)]
    }
}

/// Counts, over the interior places that hold a particle, the places around each that
/// hold a particle with a higher number: the number of neighbouring pairs of the packing.
pub fn count_links(grid: &TriangularGrid<Place>) -> (count: usize)
    requires
        grid.wf(),
        grid.width >= 1,
        grid.height >= 1,
        7 * (grid.width * grid.height) <= usize::MAX,
    ensures
        count == links_in_columns(grid.grid@, grid.height as int, grid.width - 1),
{
    let mut count: usize = 0;
    let mut i: usize = 1;
    let ghost cells = grid.grid@;
    let ghost height = grid.height as int;
    while i < grid.width - 1
        invariant
            1 <= i,
            i <= grid.width - 1 || i == 1,
            grid.wf(),
            grid.width >= 1,
            grid.height >= 1,
            cells == grid.grid@,
            height == grid.height,
            7 * (grid.width * grid.height) <= usize::MAX,
            count == links_in_columns(cells, height, i as int),
            count <= 7 * (i * grid.height),
        decreases grid.width - i,
    {
        let mut j: usize = 1;
        let ghost base = count;
        while j < grid.height - 1
            invariant
                1 <= j,
                j <= grid.height - 1 || j == 1,
                1 <= i < grid.width - 1,
                grid.wf(),
                grid.height >= 1,
                cells == grid.grid@,
                height == grid.height,
                7 * (grid.width * grid.height) <= usize::MAX,
                base <= 7 * (i * grid.height),
                count == base + links_in_column(cells, height, i as int, j as int),
                count <= base + 7 * j,
            decreases grid.height - j,
        {
            proof {
                lemma_place(i as int, j as int, grid.width as int, grid.height as int);
                lemma_place(i + 1, j as int, grid.width as int, grid.height as int);
                assert(7 * (i * grid.height + grid.height) <= 7 * (grid.width * grid.height))
                    by (nonlinear_arith)
                    requires
                        i + 1 <= grid.width,
                        0 <= grid.height,
                ;
            }
            let own = *grid.get((i, j));
            let places = adjacent((i, j));
            let mut n: usize = 0;
            let ghost start = count;
            while n < 7
                invariant
                    n <= 7,
                    1 <= i < grid.width - 1,
                    1 <= j < grid.height - 1,
                    grid.wf(),
                    cells == grid.grid@,
                    height == grid.height,
                    own == cells[i * height + j],
                    forall|m: int|
                        0 <= m < 7 ==> (#[trigger] places@[m]).0 == around(i as int, j as int, m).0
                            && places@[m].1 == around(i as int, j as int, m).1,
                    count == start + later_around(cells, height, i as int, j as int, n as int),
                    count <= start + n,
                    start + 7 <= usize::MAX,
                decreases 7 - n,
            {
                let at = places[n];
                proof {
                    assert(places@[n as int].0 == around(i as int, j as int, n as int).0);
                    lemma_place(at.0 as int, at.1 as int, grid.width as int, grid.height as int);
                }
                let other = *grid.get(at);
                match (own, other) {
                    (Some((a, _)), Some((b, _))) => {
                        if b > a {
                            count += 1;
                        }
                    },
                    _ => {},
                }
                n += 1;
            }
            j += 1;
        }
        proof {
            assert(7 * (i * grid.height) + 7 * grid.height == 7 * ((i + 1) * grid.height))
                by (nonlinear_arith);
        }
        i += 1;
    }
    count
}

/// Draws `count` pairs of particle numbers below `len` at random: for each pair the
/// first number, then the second.
pub fn sample_pairs(count: usize, len: usize) -> (pairs: Vec<(usize, usize)>)
    requires
        count == 0 || len > 0,
    ensures
        pairs@.len() == count,
        forall|k: int| 0 <= k < pairs@.len() ==> (#[trigger] pairs@[k]).0 < len && pairs@[k].1 < len,
{
    let mut pairs: Vec<(usize, usize)> = Vec::new();
    let mut k: usize = 0;
    while k < count
        invariant
            k <= count,
            len > 0 || count == 0,
            pairs@.len() == k,
            forall|m: int| 0 <= m < pairs@.len() ==> (#[trigger] pairs@[m]).0 < len && pairs@[m].1
                < len,
        decreases count - k,
    {
        let i = random_index(len);
        let j = random_index(len);
        pairs.push((i, j));
        k += 1;
    }
    pairs
}

/// The connections for the first `n` pairs: a pair whose particles are a distance above
/// zero apart is connected by `link` with that distance as its length; the others are
/// left out.
pub open spec fn linked(pairs: Seq<(usize, usize)>, lengths: Seq<u32>, link: Link, n: int) -> Seq<
    Connection,
>
    decreases n,
{
    if n <= 0 {
        Seq::empty()
    } else if positive(lengths[n - 1]) {
        linked(pairs, lengths, link, n - 1).push(
            (
                pairs[n - 1].0,
                pairs[n - 1].1,
                match link {
                    Link::Force(f) => Link::Force(f),
                    Link::Rigid { length: _, durability, elasticity } => Link::Rigid {
                        length: lengths[n - 1],
                        durability,
                        elasticity,
                    },
                },
            ),
        )
    } else {
        linked(pairs, lengths, link, n - 1)
    }
}

/// Turns sampled pairs into connections, given for each pair the distance between its
/// particles.
pub fn link_pairs(pairs: &Vec<(usize, usize)>, lengths: &Vec<u32>, link: Link) -> (out: Vec<
    Connection,
>)
    requires
        pairs@.len() == lengths@.len(),
    ensures
        out@ == linked(pairs@, lengths@, link, pairs@.len() as int),
{
    let mut out: Vec<Connection> = Vec::new();
    let mut k: usize = 0;
    while k < pairs.len()
        invariant
            k <= pairs@.len(),
            pairs@.len() == lengths@.len(),
            out@ == linked(pairs@, lengths@, link, k as int),
        decreases pairs@.len() - k,
    {
        if crate::scalar::is_positive(lengths[k]) {
            out.push((pairs[k].0, pairs[k].1, link.with_length(lengths[k])));
        }
        k += 1;
    }
    out
}

/// Particles and connections of the first `n` layers as one: the particles of the layers
/// one after the other, and the connections of each layer renumbered by the number of
/// particles before it.
pub open spec fn baked(layers: Seq<(Vec<Particle>, Vec<Connection>)>, n: int) -> (
    Seq<Particle>,
    Seq<Connection>,
)
    decreases n,
{
    if n <= 0 {
        (Seq::empty(), Seq::empty())
    } else {
        let prev = baked(layers, n - 1);
        (
            prev.0 + layers[n - 1].0@,
            prev.1 + shifted(layers[n - 1].1@, prev.0.len() as int),
        )
    }
}

/// Each layer's connections join particles of that layer.
pub open spec fn layers_valid(layers: Seq<(Vec<Particle>, Vec<Connection>)>) -> bool {
    forall|k: int|
        0 <= k < layers.len() ==> connections_valid(
            (#[trigger] layers[k]).1@,
            layers[k].0@.len() as int,
        )
}

/// Merges the layers of a map into one list of particles and one of connections.
pub fn bake_layers(layers: &Vec<(Vec<Particle>, Vec<Connection>)>) -> (out: (
    Vec<Particle>,
    Vec<Connection>,
))
    requires
        layers_valid(layers@),
        baked(layers@, layers@.len() as int).0.len() <= usize::MAX,
    ensures
        (out.0@, out.1@) == baked(layers@, layers@.len() as int),
{
    let mut particles: Vec<Particle> = Vec::new();
    let mut connections: Vec<Connection> = Vec::new();
    let mut n: usize = 0;
    while n < layers.len()
        invariant
            n <= layers@.len(),
            layers_valid(layers@),
            baked(layers@, layers@.len() as int).0.len() <= usize::MAX,
            (particles@, connections@) == baked(layers@, n as int),
        decreases layers@.len() - n,
    {
        let layer = &layers[n];
        let offset = particles.len();
        proof {
            lemma_baked_grows(layers@, n + 1, layers@.len() as int);
            assert(connections_valid(layers@[n as int].1@, layers@[n as int].0@.len() as int));
        }
        let ghost before = connections@;
        let ghost links = layer.1@;
        let mut c: usize = 0;
        while c < layer.1.len()
            invariant
                c <= links.len(),
                links == layer.1@,
                connections_valid(links, layer.0@.len() as int),
                offset + layer.0@.len() <= usize::MAX,
                connections@ == before + shifted(links, offset as int).take(c as int),
            decreases links.len() - c,
        {
            let link = layer.1[c];
            proof {
                assert(links[c as int].0 < layer.0@.len());
            }
            connections.push((link.0 + offset, link.1 + offset, link.2));
            proof {
                assert(connections@ =~= before + shifted(links, offset as int).take(c + 1));
            }
            c += 1;
        }
        proof {
            assert(shifted(links, offset as int).take(c as int) =~= shifted(links, offset as int));
        }
        let ghost had = particles@;
        let mut m: usize = 0;
        while m < layer.0.len()
            invariant
                m <= layer.0@.len(),
                particles@ == had + layer.0@.take(m as int),
            decreases layer.0@.len() - m,
        {
            particles.push(layer.0[m]);
            proof {
                assert(particles@ =~= had + layer.0@.take(m + 1));
            }
            m += 1;
        }
        proof {
            assert(layer.0@.take(m as int) =~= layer.0@);
        }
        n += 1;
    }
    (particles, connections)
}

/// A map: the volume, what is in it when the game starts, where the tanks start, and
/// the number of its textures.
pub struct GameMap {
    pub name: String,
    pub constraint: Constraint,
    pub particles: Vec<Particle>,
    pub connections: Vec<Connection>,
    pub spawns: Vec<Spawn>,
    pub textures_num: usize,
}

impl GameMap {
    /// A solver that holds what the map holds. The volume is `cells_x` whole cells wide
    /// and `cells_y` high.
    pub fn solver(&self, cells_x: usize, cells_y: usize) -> (solver: Solver)
        requires
            connections_valid(self.connections@, self.particles@.len() as int),
            partners_valid(self.particles@, 0, self.particles@.len() as int),
            (cells_x + 3) * (cells_y + 3) <= usize::MAX,
        ensures
            solver.wf(),
            solver.constraint == self.constraint,
            solver.particles@ == self.particles@,
            solver.connections@ == self.connections@,
            solver.special@ == Seq::<usize>::empty(),
            solver.grid.width == cells_x + 3,
            solver.grid.height == cells_y + 3,
            solver.grid.cells() == Seq::new(
                ((cells_x + 3) * (cells_y + 3)) as nat,
                |k: int| Seq::<usize>::empty(),
            ),
    {
        Solver::new(
            self.constraint,
            self.particles.as_slice(),
            self.connections.as_slice(),
            cells_x,
            cells_y,
        )
    }
}

/// More layers never make fewer particles.
pub proof fn lemma_baked_grows(layers: Seq<(Vec<Particle>, Vec<Connection>)>, n: int, m: int)
    requires
        0 <= n <= m,
    ensures
        baked(layers, n).0.len() <= baked(layers, m).0.len(),
        n >= 1 ==> baked(layers, n).0.len() == baked(layers, n - 1).0.len() + layers[n - 1].0@.len(),
    decreases m - n,
{
    if n < m {
        lemma_baked_grows(layers, n + 1, m);
    }
}

} // verus!
