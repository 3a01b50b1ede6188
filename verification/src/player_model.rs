use crate::particle::Particle;
use crate::solver::{connections_valid, partners_valid, Connection, Model, Solver};
use std::ops::Range;
use vstd::prelude::*;

verus! {

/// Durability of the rod that stands for a tank's health: seven.
pub const TANK_HP: u32 = 0x40e0_0000;

/// Durability of a pistol rod: seven.
pub const PISTOL_HP: u32 = 0x40e0_0000;

/// A tank as a prefab: its particles and connections, and which of them the player
/// controls, all by their place in the prefab.
pub struct RawPlayerModel {
    pub particles: Vec<Particle>,
    pub connections: Vec<Connection>,
    pub left_motors: Vec<usize>,
    pub right_motors: Vec<usize>,
    /// The rods that aim the muzzle.
    pub pistols: Vec<usize>,
    /// The main particle.
    pub center: usize,
    /// The end of the muzzle.
    pub muzzle: usize,
    /// The rod whose durability is the tank's health.
    pub center_connection: usize,
}

/// A tank in a solver: which particles and connections of the solver are its own.
#[derive(Debug)]
pub struct PlayerModel {
    /// The tank's particles.
    pub range: Range<usize>,
    pub left_motors: Vec<usize>,
    pub right_motors: Vec<usize>,
    pub pistols: Vec<usize>,
    pub center: usize,
    pub muzzle: usize,
    pub center_connection: usize,
}

/// Every index is below `n`.
pub open spec fn all_below(v: Seq<usize>, n: int) -> bool {
    forall|k: int| 0 <= k < v.len() ==> (#[trigger] v[k]) < n
}

/// The indices raised by `by`.
pub open spec fn raised(v: Seq<usize>, by: int) -> Seq<usize> {
    Seq::new(v.len(), |k: int| (v[k] + by) as usize)
}

/// The indices raised by `by`.
fn raise(v: &Vec<usize>, by: usize, n: usize) -> (out: Vec<usize>)
    requires
        all_below(v@, n as int),
        n + by <= usize::MAX,
    ensures
        out@ == raised(v@, by as int),
        all_below(out@, n + by),
{
    let mut out: Vec<usize> = Vec::new();
    let mut k: usize = 0;
    while k < v.len()
        invariant
            k <= v@.len(),
            all_below(v@, n as int),
            n + by <= usize::MAX,
            out@ == raised(v@, by as int).take(k as int),
        decreases v@.len() - k,
    {
        out.push(v[k] + by);
        proof {
            assert(out@ =~= raised(v@, by as int).take(k + 1));
        }
        k += 1;
    }
    proof {
        assert(raised(v@, by as int).take(k as int) =~= raised(v@, by as int));
    }
    out
}

impl PlayerModel {
    /// Every index of the model refers to a particle or a connection of a solver with
    /// `particles` particles and `connections` connections.
    pub open spec fn fits(&self, particles: int, connections: int) -> bool {
        &&& self.range.start <= self.range.end <= particles
        &&& all_below(self.left_motors@, particles)
        &&& all_below(self.right_motors@, particles)
        &&& all_below(self.pistols@, connections)
        &&& self.center < particles
        &&& self.muzzle < particles
        &&& self.center_connection < connections
    }

    /// The indices of the tank's particles, in rising order.
    pub fn indices(&self) -> (out: Vec<usize>)
        ensures
            out@ == Seq::new(
                if self.range.end >= self.range.start {
                    (self.range.end - self.range.start) as nat
                } else {
                    0
                },
                |k: int| (self.range.start + k) as usize,
            ),
    {
        let mut out: Vec<usize> = Vec::new();
        let mut i: usize = self.range.start;
        while i < self.range.end
            invariant
                self.range.start <= i,
                i <= self.range.end || i == self.range.start,
                out@ == Seq::new(
                    (i - self.range.start) as nat,
                    |k: int| (self.range.start + k) as usize,
                ),
            decreases self.range.end - i,
        {
            out.push(i);
            i += 1;
            proof {
                assert(out@ =~= Seq::new(
                    (i - self.range.start) as nat,
                    |k: int| (self.range.start + k) as usize,
                ));
            }
        }
        out
    }
}

impl PlayerModel {
    /// Calls `f` on the index of each of the tank's particles, in rising order.
    pub fn for_each<F: FnMut(usize)>(&self, mut f: F)
        requires
            forall|i: usize| self.range.start <= i < self.range.end ==> f.requires((i,)),
    {
        let mut i: usize = self.range.start;
        while i < self.range.end
            invariant
                self.range.start <= i,
                forall|i: usize| self.range.start <= i < self.range.end ==> f.requires((i,)),
            decreases self.range.end - i,
        {
            f(i);
            i += 1;
        }
    }
}

impl RawPlayerModel {
    /// Every index of the prefab refers to one of its own particles or connections.
    pub open spec fn wf(&self) -> bool {
        &&& all_below(self.left_motors@, self.particles@.len() as int)
        &&& all_below(self.right_motors@, self.particles@.len() as int)
        &&& all_below(self.pistols@, self.connections@.len() as int)
        &&& self.center < self.particles@.len()
        &&& self.muzzle < self.particles@.len()
        &&& self.center_connection < self.connections@.len()
        &&& connections_valid(self.connections@, self.particles@.len() as int)
    }

    /// The prefab as a model, placed by its main particle.
    pub fn model(self) -> (m: Model)
        requires
            self.center < self.particles@.len(),
        ensures
            m.center == self.particles@[self.center as int].pos,
            m.particles == self.particles,
            m.connections == self.connections,
    {
        let center = self.particles[self.center].pos;
        Model { particles: self.particles, center, connections: self.connections }
    }

    /// Stamps the tank into the solver, its particles as they are, and tells which
    /// particles and connections of the solver are now the tank's.
    pub fn place_in_solver(self, solver: &mut Solver) -> (placed: PlayerModel)
        requires
            self.wf(),
            old(solver).wf(),
            partners_valid(
                self.particles@,
                old(solver).particles@.len() as int,
                (old(solver).particles@.len() + self.particles@.len()) as int,
            ),
            old(solver).particles@.len() + self.particles@.len() <= usize::MAX,
            old(solver).connections@.len() + self.connections@.len() <= usize::MAX,
        ensures
            final(solver).wf(),
            final(solver).particles@ == old(solver).particles@ + self.particles@,
            final(solver).connections@ == old(solver).connections@ + crate::solver::shifted(
                self.connections@,
                old(solver).particles@.len() as int,
            ),
            final(solver).special@ == old(solver).special@ + crate::solver::specials(
                self.particles@,
                old(solver).particles@.len() as int,
                self.particles@.len() as int,
            ),
            final(solver).constraint == old(solver).constraint,
            final(solver).grid == old(solver).grid,
            placed.range.start == old(solver).particles@.len(),
            placed.range.end == old(solver).particles@.len() + self.particles@.len(),
            placed.left_motors@ == raised(self.left_motors@, old(solver).particles@.len() as int),
            placed.right_motors@ == raised(
                self.right_motors@,
                old(solver).particles@.len() as int,
            ),
            placed.pistols@ == raised(self.pistols@, old(solver).connections@.len() as int),
            placed.center == self.center + old(solver).particles@.len(),
            placed.muzzle == self.muzzle + old(solver).particles@.len(),
            placed.center_connection == self.center_connection + old(solver).connections@.len(),
            placed.fits(
                final(solver).particles@.len() as int,
                final(solver).connections@.len() as int,
            ),
    {
        let particles = solver.size();
        let connections = solver.connections.len();
        let count = self.particles.len();
        let links = self.connections.len();
        let placed = PlayerModel {
            range: particles..particles + count,
            left_motors: raise(&self.left_motors, particles, count),
            right_motors: raise(&self.right_motors, particles, count),
            pistols: raise(&self.pistols, connections, links),
            center: self.center + particles,
            muzzle: self.muzzle + particles,
            center_connection: self.center_connection + connections,
        };
        let model = self.model();
        solver.add_model(&model);
        placed
    }
}

} // verus!
