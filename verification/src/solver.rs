use crate::broad_phase::{collision_pairs, sweep_pairs};
use crate::grid::{Grid, CELL_MAX};
use crate::particle::{Kind, Particle, Vec2};
use crate::scalar::{negative, FIVE, HUNDRED, ONE};
use vstd::prelude::*;
use vstd::slice::slice_to_vec;

verus! {

/// What ties two particles together.
#[derive(Clone, Copy, Debug, PartialEq, Eq, Structural)]
pub enum Link {
    /// A constant force along the line between the two.
    Force(u32),
    /// A rod of the given length that wears out when stretched or squeezed beyond its
    /// elasticity, a percentage of its length.
    Rigid { length: u32, durability: u32, elasticity: u32 },
}

impl Link {
    pub fn with_length(&self, length: u32) -> (link: Self)
        ensures
            link == match *self {
                Link::Force(f) => Link::Force(f),
                Link::Rigid { length: _, durability, elasticity } => Link::Rigid {
                    length,
                    durability,
                    elasticity,
                },
            },
    {
        match *self {
            Link::Force(f) => Link::Force(f),
            Link::Rigid { length: _, durability, elasticity } => Link::Rigid {
                length,
                durability,
                elasticity,
            },
        }
    }

    pub fn with_durability(&self, durability: u32) -> (link: Self)
        ensures
            link == match *self {
                Link::Force(f) => Link::Force(f),
                Link::Rigid { length, durability: _, elasticity } => Link::Rigid {
                    length,
                    durability,
                    elasticity,
                },
            },
    {
        match *self {
            Link::Force(f) => Link::Force(f),
            Link::Rigid { length, durability: _, elasticity } => Link::Rigid {
                length,
                durability,
                elasticity,
            },
        }
    }

    pub fn with_elasticity(&self, elasticity: u32) -> (link: Self)
        ensures
            link == match *self {
                Link::Force(f) => Link::Force(f),
                Link::Rigid { length, durability, elasticity: _ } => Link::Rigid {
                    length,
                    durability,
                    elasticity,
                },
            },
    {
        match *self {
            Link::Force(f) => Link::Force(f),
            Link::Rigid { length, durability, elasticity: _ } => Link::Rigid {
                length,
                durability,
                elasticity,
            },
        }
    }

    /// Durability of a rod; a force counts as one.
    pub open spec fn spec_durability(&self) -> u32 {
        match *self {
            Link::Rigid { length: _, durability, elasticity: _ } => durability,
            Link::Force(_) => ONE,
        }
    }

    #[verifier::when_used_as_spec(spec_durability)]
    pub fn durability(&self) -> (d: u32)
        ensures
            d == self.spec_durability(),
    {
        match *self {
            Link::Rigid { length: _, durability, elasticity: _ } => durability,
            Link::Force(_) => ONE,
        }
    }

    /// Elasticity of a rod; a force counts as one hundred.
    pub fn elasticity(&self) -> (e: u32)
        ensures
            e == match *self {
                Link::Rigid { length: _, durability: _, elasticity } => elasticity,
                Link::Force(_) => HUNDRED,
            },
    {
        match *self {
            Link::Rigid { length: _, durability: _, elasticity } => elasticity,
            Link::Force(_) => HUNDRED,
        }
    }

    /// A rod whose durability is below zero: it no longer acts.
    pub fn is_inert(&self) -> (r: bool)
        ensures
            r == (*self is Rigid && negative(self.spec_durability())),
    {
        match *self {
            Link::Rigid { length: _, durability, elasticity: _ } => crate::scalar::is_negative(
                durability,
            ),
            Link::Force(_) => false,
        }
    }
}

/// Two particles, by index, and what ties them.
pub type Connection = (usize, usize, Link);

/// The volume that holds all particles.
#[derive(Clone, Copy, Debug, PartialEq, Eq, Structural)]
pub enum Constraint {
    /// A rectangle, by its bottom-left and top-right corners.
    Box(Vec2, Vec2),
}

impl Constraint {
    pub fn bounds(&self) -> (b: (Vec2, Vec2))
        ensures
            self == Constraint::Box(b.0, b.1),
    {
        match *self {
            Constraint::Box(bl, tr) => (bl, tr),
        }
    }
}

/// A prefab: particles, connections between them by their place in the prefab, and the
/// point by which it is placed.
pub struct Model {
    pub center: Vec2,
    pub particles: Vec<Particle>,
    pub connections: Vec<Connection>,
}

/// The rod by which a sticky particle binds: length one, durability one, elasticity five.
pub open spec fn bond() -> Link {
    Link::Rigid { length: ONE, durability: ONE, elasticity: FIVE }
}

/// Every connection joins two different particles among the first `n`.
pub open spec fn connections_valid(connections: Seq<Connection>, n: int) -> bool {
    forall|c: int|
        0 <= c < connections.len() ==> (#[trigger] connections[c]).0 < n && connections[c].1 < n
            && connections[c].0 != connections[c].1
}

/// The partner that particle `i` waits to be bound to, if any, is another particle among
/// the first `n`.
pub open spec fn partner_valid(p: Particle, i: int, n: int) -> bool {
    match p.kind {
        Kind::Sticky(_, Some(j)) => j < n && j != i,
        _ => true,
    }
}

/// Every particle's partner is valid.
pub open spec fn partners_valid(particles: Seq<Particle>, shift: int, n: int) -> bool {
    forall|i: int| 0 <= i < particles.len() ==> partner_valid(#[trigger] particles[i], shift + i, n)
}

/// The connections with both indices raised by `shift`.
pub open spec fn shifted(connections: Seq<Connection>, shift: int) -> Seq<Connection> {
    Seq::new(
        connections.len(),
        |c: int|
            (
                (connections[c].0 + shift) as usize,
                (connections[c].1 + shift) as usize,
                connections[c].2,
            ),
    )
}

/// The indices, raised by `shift`, of the special particles among the first `n`.
pub open spec fn specials(particles: Seq<Particle>, shift: int, n: int) -> Seq<usize>
    decreases n,
{
    if n <= 0 {
        Seq::empty()
    } else if particles[n - 1].is_special() {
        specials(particles, shift, n - 1).push((shift + n - 1) as usize)
    } else {
        specials(particles, shift, n - 1)
    }
}

/// The grid cell for a particle whose distance from the bottom-left corner is `raw`
/// cells, rounded down, along each axis: one cell further in, held back to the last
/// column and row.
pub open spec fn clamped(raw: (usize, usize), width: int, height: int) -> (int, int) {
    (
        if raw.0 + 1 <= width - 1 {
            raw.0 + 1
        } else {
            width - 1
        },
        if raw.1 + 1 <= height - 1 {
            raw.1 + 1
        } else {
            height - 1
        },
    )
}

/// The cells of a grid after the first `n` particles were put into it, particle `i` into
/// the cell that `raw[i]` gives. A particle that finds its cell full is left out.
pub open spec fn filled(
    cells: Seq<Seq<usize>>,
    width: int,
    height: int,
    raw: Seq<(usize, usize)>,
    n: int,
) -> Seq<Seq<usize>>
    decreases n,
{
    if n <= 0 {
        cells
    } else {
        let prev = filled(cells, width, height, raw, n - 1);
        let c = clamped(raw[n - 1], width, height);
        let at = c.0 * height + c.1;
        if prev[at].len() < CELL_MAX {
            prev.update(at, prev[at].push((n - 1) as usize))
        } else {
            prev
        }
    }
}

/// Particles and connections after the first `n` special particles were looked at: each
/// sticky one that waits for a partner is bound to it by a new rod and waits no longer.
pub open spec fn after_special(
    state: (Seq<Particle>, Seq<Connection>),
    special: Seq<usize>,
    n: int,
) -> (Seq<Particle>, Seq<Connection>)
    decreases n,
{
    if n <= 0 {
        state
    } else {
        let prev = after_special(state, special, n - 1);
        let i = special[n - 1];
        match prev.0[i as int].kind {
            Kind::Sticky(left, Some(j)) => (
                prev.0.update(
                    i as int,
                    Particle { kind: Kind::Sticky(left, None), ..prev.0[i as int] },
                ),
                prev.1.push((i, j, bond())),
            ),
            _ => prev,
        }
    }
}

/// The state of the simulation: the particles, what connects them, the volume that holds
/// them, and the grid by which neighbours are found.
pub struct Solver {
    pub constraint: Constraint,
    pub particles: Vec<Particle>,
    pub connections: Vec<Connection>,
    pub cell_size: u32,
    /// Indices of the special particles.
    pub special: Vec<usize>,
    pub grid: Grid<usize>,
}

impl Solver {
    /// Indices refer to particles that exist, and the grid has an interior.
    pub open spec fn wf(&self) -> bool {
        &&& self.grid.wf()
        &&& self.grid.width >= 3
        &&& self.grid.height >= 3
        &&& connections_valid(self.connections@, self.particles@.len() as int)
        &&& partners_valid(self.particles@, 0, self.particles@.len() as int)
        &&& forall|k: int|
            0 <= k < self.special@.len() ==> (#[trigger] self.special@[k]) < self.particles@.len()
    }

    /// A solver over the given particles and connections. The volume is `cells_x` whole
    /// cells wide and `cells_y` high; the grid has three columns and rows more.
    pub fn new(
        constraint: Constraint,
        particles: &[Particle],
        connections: &[Connection],
        cells_x: usize,
        cells_y: usize,
    ) -> (solver: Self)
        requires
            connections_valid(connections@, particles@.len() as int),
            partners_valid(particles@, 0, particles@.len() as int),
            (cells_x + 3) * (cells_y + 3) <= usize::MAX,
        ensures
            solver.wf(),
            solver.constraint == constraint,
            solver.particles@ == particles@,
            solver.connections@ == connections@,
            solver.cell_size == ONE,
            solver.special@ == Seq::<usize>::empty(),
            solver.grid.width == cells_x + 3,
            solver.grid.height == cells_y + 3,
            solver.grid.cells() == Seq::new(
                ((cells_x + 3) * (cells_y + 3)) as nat,
                |k: int| Seq::<usize>::empty(),
            ),
    {
        proof {
            assert(cells_x + 3 <= (cells_x + 3) * (cells_y + 3)) by (nonlinear_arith);
            assert(cells_y + 3 <= (cells_x + 3) * (cells_y + 3)) by (nonlinear_arith);
        }
        Solver {
            constraint,
            particles: slice_to_vec(particles),
            connections: slice_to_vec(connections),
            cell_size: ONE,
            special: Vec::new(),
            grid: Grid::new(cells_x + 3, cells_y + 3),
        }
    }

    /// Number of particles.
    pub fn size(&self) -> (n: usize)
        ensures
            n == self.particles@.len(),
    {
        self.particles.len()
    }

    /// The grid cell for a particle whose distance from the bottom-left corner is `raw`
    /// cells, rounded down, along each axis.
    pub fn cell_of(&self, raw: (usize, usize)) -> (cell: (usize, usize))
        requires
            self.wf(),
        ensures
            (cell.0 as int, cell.1 as int) == clamped(
                raw,
                self.grid.width as int,
                self.grid.height as int,
            ),
            1 <= cell.0 < self.grid.width,
            1 <= cell.1 < self.grid.height,
    {
        let col = if raw.0 < self.grid.width - 1 {
            raw.0 + 1
        } else {
            self.grid.width - 1
        };
        let row = if raw.1 < self.grid.height - 1 {
            raw.1 + 1
        } else {
            self.grid.height - 1
        };
        (col, row)
    }

    /// Empties the grid and puts every particle into its cell: particle `i` into the cell
    /// that `raw[i]` gives, in the order of the particles.
    pub fn populate_grid(&mut self, raw: &Vec<(usize, usize)>)
        requires
            old(self).wf(),
            raw@.len() == old(self).particles@.len(),
        ensures
            final(self).wf(),
            final(self).constraint == old(self).constraint,
            final(self).particles == old(self).particles,
            final(self).connections == old(self).connections,
            final(self).cell_size == old(self).cell_size,
            final(self).special == old(self).special,
            final(self).grid.width == old(self).grid.width,
            final(self).grid.height == old(self).grid.height,
            final(self).grid.cells() == filled(
                Seq::new(old(self).grid.cells().len(), |k: int| Seq::<usize>::empty()),
                old(self).grid.width as int,
                old(self).grid.height as int,
                raw@,
                raw@.len() as int,
            ),
    {
        self.grid.clear();
        let ghost start = self.grid.cells();
        let n = self.particles.len();
        let mut i: usize = 0;
        while i < n
            invariant
                i <= n,
                n == raw@.len(),
                n == self.particles@.len(),
                self.wf(),
                self.constraint == old(self).constraint,
                self.particles == old(self).particles,
                self.connections == old(self).connections,
                self.cell_size == old(self).cell_size,
                self.special == old(self).special,
                self.grid.width == old(self).grid.width,
                self.grid.height == old(self).grid.height,
                self.grid.cells() == filled(
                    start,
                    self.grid.width as int,
                    self.grid.height as int,
                    raw@,
                    i as int,
                ),
            decreases n - i,
        {
            let cell = self.cell_of(raw[i]);
            proof {
                assert(cell.0 * self.grid.height + cell.1 < self.grid.width * self.grid.height)
                    by (nonlinear_arith)
                    requires
                        cell.0 + 1 <= self.grid.width,
                        cell.1 < self.grid.height,
                ;
            }
            self.grid.push(cell, i);
            i += 1;
        }
    }

    /// The ordered pairs of particles whose collision one step resolves, in the order in
    /// which it resolves them.
    pub fn collision_pairs(&self) -> (pairs: Vec<(usize, usize)>)
        requires
            self.wf(),
        ensures
            pairs@ == sweep_pairs(
                self.grid.cells(),
                self.grid.width as int,
                self.grid.height as int,
            ),
    {
        collision_pairs(&self.grid)
    }

    /// Particle `i` touched particle `j`: a sticky particle notes its partner.
    pub fn touch(&mut self, i: usize, j: usize)
        requires
            old(self).wf(),
            i < old(self).particles@.len(),
            j < old(self).particles@.len(),
            i != j,
        ensures
            final(self).wf(),
            final(self).particles@ == old(self).particles@.update(
                i as int,
                Particle {
                    kind: old(self).particles@[i as int].kind.touched(j),
                    ..old(self).particles@[i as int]
                },
            ),
            final(self).constraint == old(self).constraint,
            final(self).connections == old(self).connections,
            final(self).cell_size == old(self).cell_size,
            final(self).special == old(self).special,
            final(self).grid == old(self).grid,
    {
        let mut p = self.particles[i];
        p.kind.touch(j);
        self.particles[i] = p;
        proof {
            assert forall|k: int| 0 <= k < self.particles@.len() implies partner_valid(
                #[trigger] self.particles@[k],
                k,
                self.particles@.len() as int,
            ) by {
                if k != i {
                    assert(self.particles@[k] == old(self).particles@[k]);
                }
            }
        }
    }

    /// Binds every sticky particle that waits for a partner to that partner, by a rod of
    /// length one, durability one and elasticity five.
    pub fn resolve_special(&mut self)
        requires
            old(self).wf(),
        ensures
            final(self).wf(),
            (final(self).particles@, final(self).connections@) == after_special(
                (old(self).particles@, old(self).connections@),
                old(self).special@,
                old(self).special@.len() as int,
            ),
            final(self).particles@.len() == old(self).particles@.len(),
            final(self).constraint == old(self).constraint,
            final(self).cell_size == old(self).cell_size,
            final(self).special == old(self).special,
            final(self).grid == old(self).grid,
    {
        let ghost start = (self.particles@, self.connections@);
        let mut k: usize = 0;
        while k < self.special.len()
            invariant
                k <= self.special@.len(),
                self.wf(),
                (self.particles@, self.connections@) == after_special(
                    start,
                    self.special@,
                    k as int,
                ),
                self.particles@.len() == old(self).particles@.len(),
                self.constraint == old(self).constraint,
                self.cell_size == old(self).cell_size,
                self.special == old(self).special,
                self.grid == old(self).grid,
            decreases self.special@.len() - k,
        {
            let i = self.special[k];
            let p = self.particles[i];
            let ghost before = self.particles@;
            match p.kind {
                Kind::Sticky(left, Some(j)) => {
                    proof {
                        assert(partner_valid(before[i as int], i as int, before.len() as int));
                    }
                    self.connections.push(
                        (i, j, Link::Rigid { length: ONE, durability: ONE, elasticity: FIVE }),
                    );
                    self.particles[i] = Particle { kind: Kind::Sticky(left, None), ..p };
                    proof {
                        assert forall|m: int| 0 <= m < self.particles@.len() implies partner_valid(
                            #[trigger] self.particles@[m],
                            m,
                            self.particles@.len() as int,
                        ) by {
                            if m != i {
                                assert(self.particles@[m] == before[m]);
                                assert(partner_valid(before[m], m, before.len() as int));
                            }
                        }
                    }
                },
                _ => {},
            }
            k += 1;
        }
    }

    /// Adds a particle at the end; a special one is noted as such.
    pub fn add_particle(&mut self, particle: Particle)
        requires
            old(self).wf(),
            partner_valid(
                particle,
                old(self).particles@.len() as int,
                old(self).particles@.len() as int,
            ),
        ensures
            final(self).wf(),
            final(self).particles@ == old(self).particles@.push(particle),
            final(self).special@ == if particle.is_special() {
                old(self).special@.push(old(self).particles@.len() as usize)
            } else {
                old(self).special@
            },
            final(self).constraint == old(self).constraint,
            final(self).connections == old(self).connections,
            final(self).cell_size == old(self).cell_size,
            final(self).grid == old(self).grid,
    {
        let ind = self.particles.len();
        self.particles.push(particle);
        if particle.is_special() {
            self.special.push(ind);
        }
        proof {
            assert forall|m: int| 0 <= m < self.particles@.len() implies partner_valid(
                #[trigger] self.particles@[m],
                m,
                self.particles@.len() as int,
            ) by {
                if m < ind {
                    assert(self.particles@[m] == old(self).particles@[m]);
                    assert(partner_valid(old(self).particles@[m], m, ind as int));
                }
            }
        }
    }

    /// Connects particles `i` and `j` by a rod.
    pub fn add_rib(&mut self, i: usize, j: usize, length: u32, durability: u32, elasticity: u32)
        requires
            old(self).wf(),
            i < old(self).particles@.len(),
            j < old(self).particles@.len(),
            i != j,
        ensures
            final(self).wf(),
            final(self).connections@ == old(self).connections@.push(
                (i, j, Link::Rigid { length, durability, elasticity }),
            ),
            final(self).constraint == old(self).constraint,
            final(self).particles == old(self).particles,
            final(self).cell_size == old(self).cell_size,
            final(self).special == old(self).special,
            final(self).grid == old(self).grid,
    {
        self.connections.push((i, j, Link::Rigid { length, durability, elasticity }));
    }

    /// Connects particles `i` and `j` by a constant force.
    pub fn add_spring(&mut self, i: usize, j: usize, force: u32)
        requires
            old(self).wf(),
            i < old(self).particles@.len(),
            j < old(self).particles@.len(),
            i != j,
        ensures
            final(self).wf(),
            final(self).connections@ == old(self).connections@.push((i, j, Link::Force(force))),
            final(self).constraint == old(self).constraint,
            final(self).particles == old(self).particles,
            final(self).cell_size == old(self).cell_size,
            final(self).special == old(self).special,
            final(self).grid == old(self).grid,
    {
        self.connections.push((i, j, Link::Force(force)));
    }

    /// Stamps a model into the solver: its particles, as they are, come after those that
    /// the solver has, and its connections and special particles are renumbered to match.
    pub fn add_model(&mut self, model: &Model)
        requires
            old(self).wf(),
            connections_valid(model.connections@, model.particles@.len() as int),
            partners_valid(
                model.particles@,
                old(self).particles@.len() as int,
                (old(self).particles@.len() + model.particles@.len()) as int,
            ),
            old(self).particles@.len() + model.particles@.len() <= usize::MAX,
        ensures
            final(self).wf(),
            final(self).particles@ == old(self).particles@ + model.particles@,
            final(self).connections@ == old(self).connections@ + shifted(
                model.connections@,
                old(self).particles@.len() as int,
            ),
            final(self).special@ == old(self).special@ + specials(
                model.particles@,
                old(self).particles@.len() as int,
                model.particles@.len() as int,
            ),
            final(self).constraint == old(self).constraint,
            final(self).cell_size == old(self).cell_size,
            final(self).grid == old(self).grid,
    {
        let base = self.particles.len();
        let total = model.particles.len();
        let ghost links = model.connections@;
        let mut m: usize = 0;
        while m < total
            invariant
                m <= total,
                total == model.particles@.len(),
                base == old(self).particles@.len(),
                base + total <= usize::MAX,
                self.particles@ == old(self).particles@ + model.particles@.take(m as int),
                self.special@ == old(self).special@ + specials(
                    model.particles@,
                    base as int,
                    m as int,
                ),
                self.connections == old(self).connections,
                self.constraint == old(self).constraint,
                self.cell_size == old(self).cell_size,
                self.grid == old(self).grid,
            decreases total - m,
        {
            let p = model.particles[m];
            self.particles.push(p);
            if p.is_special() {
                self.special.push(base + m);
            }
            proof {
                assert(self.particles@ =~= old(self).particles@ + model.particles@.take(m + 1));
                assert(self.special@ =~= old(self).special@ + specials(
                    model.particles@,
                    base as int,
                    m + 1,
                ));
            }
            m += 1;
        }
        proof {
            assert(model.particles@.take(total as int) =~= model.particles@);
        }
        let count = model.connections.len();
        let mut c: usize = 0;
        while c < count
            invariant
                c <= count,
                count == links.len(),
                links == model.connections@,
                total == model.particles@.len(),
                base + total <= usize::MAX,
                connections_valid(links, total as int),
                self.connections@ == old(self).connections@ + shifted(links, base as int).take(
                    c as int,
                ),
                self.particles@ == old(self).particles@ + model.particles@,
                self.special@ == old(self).special@ + specials(
                    model.particles@,
                    base as int,
                    total as int,
                ),
                self.constraint == old(self).constraint,
                self.cell_size == old(self).cell_size,
                self.grid == old(self).grid,
            decreases count - c,
        {
            let link = model.connections[c];
            proof {
                assert(links[c as int].0 < total);
            }
            self.connections.push((link.0 + base, link.1 + base, link.2));
            proof {
                assert(self.connections@ =~= old(self).connections@ + shifted(
                    links,
                    base as int,
                ).take(c + 1));
            }
            c += 1;
        }
        proof {
            let n = base + total;
            assert(shifted(links, base as int).take(count as int) =~= shifted(links, base as int));
            assert forall|k: int| 0 <= k < self.connections@.len() implies (
            #[trigger] self.connections@[k]).0 < n && self.connections@[k].1 < n
                && self.connections@[k].0 != self.connections@[k].1 by {
                if k < old(self).connections@.len() {
                    assert(self.connections@[k] == old(self).connections@[k]);
                } else {
                    let r = k - old(self).connections@.len();
                    assert(self.connections@[k] == shifted(links, base as int)[r]);
                    assert(links[r].0 < total);
                }
            }
            assert forall|i: int| 0 <= i < self.particles@.len() implies partner_valid(
                #[trigger] self.particles@[i],
                i,
                n as int,
            ) by {
                if i < base {
                    assert(self.particles@[i] == old(self).particles@[i]);
                    assert(partner_valid(old(self).particles@[i], i, base as int));
                } else {
                    assert(self.particles@[i] == model.particles@[i - base]);
                    assert(partner_valid(model.particles@[i - base], base + (i - base), n as int));
                }
            }
            lemma_specials_bounded(model.particles@, base as int, total as int);
            assert forall|k: int| 0 <= k < self.special@.len() implies (
            #[trigger] self.special@[k]) < n by {
                if k < old(self).special@.len() {
                    assert(self.special@[k] == old(self).special@[k]);
                } else {
                    let r = k - old(self).special@.len();
                    assert(self.special@[k] == specials(
                        model.particles@,
                        base as int,
                        total as int,
                    )[r]);
                }
            }
        }
    }
}

/// The indices of special particles lie within the range that was renumbered.
pub proof fn lemma_specials_bounded(particles: Seq<Particle>, shift: int, n: int)
    requires
        0 <= shift,
        0 <= n <= particles.len(),
        shift + n <= usize::MAX,
    ensures
        forall|k: int|
            0 <= k < specials(particles, shift, n).len() ==> shift <= (#[trigger] specials(
                particles,
                shift,
                n,
            )[k]) < shift + n,
    decreases n,
{
    if n > 0 {
        lemma_specials_bounded(particles, shift, n - 1);
        let prev = specials(particles, shift, n - 1);
        let all = specials(particles, shift, n);
        assert forall|k: int| 0 <= k < all.len() implies shift <= (#[trigger] all[k]) < shift
            + n by {
            if k < prev.len() {
                assert(all[k] == prev[k]);
            }
        }
    }
}

} // verus!
