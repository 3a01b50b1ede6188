use crate::game_packets::{GamePacket, IndexedGamePacket};
use crate::particle::{
    projectile_heavy, projectile_impulse, projectile_sticky, Kind, Particle, Vec2,
};
use crate::player_model::PlayerModel;
use crate::scalar::{negate, negated, positive, QUARTER, TWO};
use crate::solver::{Connection, Solver};
use vstd::prelude::*;

verus! {

/// A place where a tank starts, and the team of the tank that starts there.
#[derive(Clone, Copy, Debug, PartialEq, Eq, Structural)]
pub struct Spawn {
    pub pos: Vec2,
    pub team: usize,
}

/// A countdown in ticks.
#[derive(Clone, Copy, Debug, PartialEq, Eq, Structural)]
pub struct TickTimer {
    /// Ticks left; ready when not above zero.
    pub tick: isize,
    /// The number of ticks that the countdown was last set to.
    pub last: isize,
}

impl TickTimer {
    pub fn new() -> (t: Self)
        ensures
            t.tick == 0,
            t.last == 0,
    {
        Self { tick: 0, last: 0 }
    }

    pub fn set(&mut self, ticks: isize)
        ensures
            final(self).tick == ticks,
            final(self).last == ticks,
    {
        self.tick = ticks;
        self.last = ticks;
    }

    /// One tick passes.
    pub fn update(&mut self)
        requires
            old(self).tick > isize::MIN,
        ensures
            final(self).tick == old(self).tick - 1,
            final(self).last == old(self).last,
    {
        self.tick -= 1;
    }

    pub open spec fn spec_ready(&self) -> bool {
        self.tick <= 0
    }

    #[verifier::when_used_as_spec(spec_ready)]
    pub fn ready(&self) -> (r: bool)
        ensures
            r == (self.tick <= 0),
    {
        self.tick <= 0
    }

    pub fn not_ready(&self) -> (r: bool)
        ensures
            r == (self.tick > 0),
    {
        self.tick > 0
    }

    /// If the countdown is over, starts it again at `ticks` and gives what `f` returns;
    /// else gives `default` and leaves the countdown as it is.
    pub fn map_or<U, F: FnOnce() -> U>(&mut self, default: U, ticks: isize, f: F) -> (out: U)
        requires
            old(self).ready() ==> f.requires(()),
        ensures
            old(self).ready() ==> final(self).tick == ticks && final(self).last == ticks
                && f.ensures((), out),
            !old(self).ready() ==> *final(self) == *old(self) && out == default,
    {
        if self.ready() {
            self.set(ticks);
            f()
        } else {
            default
        }
    }
}

/// The highest gear.
pub const MAX_GEAR: usize = 5;

/// Ticks between two dashes.
pub const DASH_TICKS: isize = 4800;

/// One participant of the game.
pub struct Player {
    pub id: u8,
    pub team: usize,
    pub _name: String,
    pub model: PlayerModel,
    pub gear: usize,
    /// The type of projectile that the player has chosen.
    pub projectile: u8,
    pub reload_timer: TickTimer,
    pub dash_timer: TickTimer,
    /// Left and right thrust.
    pub thrust: (u32, u32),
    /// The point that the player aims at, if any.
    pub aim: Option<Vec2>,
}

/// A player in gear zero, with the first projectile chosen, both countdowns over, no
/// thrust and no aim.
pub open spec fn fresh(id: u8, team: usize, name: String, model: PlayerModel) -> Player {
    Player {
        id,
        team,
        _name: name,
        model,
        gear: 0,
        projectile: 0,
        reload_timer: TickTimer { tick: 0, last: 0 },
        dash_timer: TickTimer { tick: 0, last: 0 },
        thrust: (0, 0),
        aim: None,
    }
}

impl Player {
    /// A player in gear zero, with the first projectile chosen, both countdowns over, no
    /// thrust and no aim.
    pub fn new(id: u8, team: usize, name: String, model: PlayerModel) -> (p: Self)
        ensures
            p == fresh(id, team, name, model),
    {
        Player {
            id,
            team,
            _name: name,
            model,
            gear: 0,
            projectile: 0,
            reload_timer: TickTimer::new(),
            dash_timer: TickTimer::new(),
            thrust: (0, 0),
            aim: None,
        }
    }

    /// Engine power: sixteen, doubled for every gear.
    pub fn get_power(&self) -> (power: u32)
        requires
            self.gear <= MAX_GEAR,
        ensures
            power == 0x4180_0000 + self.gear * 0x0080_0000,
    {
        0x4180_0000u32 + (self.gear as u32) * 0x0080_0000u32
    }

    /// One gear up, but not above the highest.
    pub fn gear_up(&mut self)
        ensures
            final(self).gear == if old(self).gear < MAX_GEAR {
                old(self).gear + 1
            } else {
                MAX_GEAR as int
            },
            *final(self) == (Player { gear: final(self).gear, ..*old(self) }),
    {
        if self.gear < MAX_GEAR {
            self.gear += 1;
        } else {
            self.gear = MAX_GEAR;
        }
    }

    /// One gear down, but not below zero.
    pub fn gear_down(&mut self)
        ensures
            final(self).gear == if old(self).gear >= 1 {
                old(self).gear - 1
            } else {
                0
            },
            *final(self) == (Player { gear: final(self).gear, ..*old(self) }),
    {
        if self.gear >= 1 {
            self.gear -= 1;
        }
    }
}

/// What is left to do after a packet was handled: the part that moves particles.
#[derive(Clone, Copy, Debug, PartialEq, Eq)]
pub enum Effect {
    Nothing,
    /// A ground particle appears at the given point, falling at half a unit per step.
    Spawn(Vec2),
    /// The tank of the player at this place in the list dashes.
    Dash { player: usize, coeff: u32 },
    /// The tank of the player at this place in the list fires the given projectile with
    /// the given force.
    Fire { player: usize, projectile: Particle, force: u32 },
}

/// The place of the first player with the given id at or after `from`; the number of
/// players if there is none.
pub open spec fn first_index(players: Seq<Player>, id: u8, from: int) -> int
    decreases players.len() - from,
{
    if from >= players.len() {
        players.len() as int
    } else if players[from].id == id {
        from
    } else {
        first_index(players, id, from + 1)
    }
}

/// A tank is alive while the durability of its health rod is above zero.
pub open spec fn alive(player: Player, connections: Seq<Connection>) -> bool {
    positive(connections[player.model.center_connection as int].2.spec_durability())
}

/// The projectile for a projectile type, and the force with which it is fired.
pub open spec fn projectile_of(bullet: u8) -> Option<(Particle, u32)> {
    if bullet == 0 {
        Some((Particle { mass: crate::scalar::TEN, texture: 2, color: crate::particle::red(), ..crate::particle::blank() }, 0x3f19_999au32))
    } else if bullet == 1 {
        Some((Particle { mass: TWO, texture: 2, color: crate::particle::red(), kind: Kind::Impulse(crate::scalar::THOUSAND), ..crate::particle::blank() }, QUARTER))
    } else if bullet == 2 {
        Some((Particle { mass: TWO, texture: 2, color: crate::particle::red(), kind: Kind::Sticky(1, None), ..crate::particle::blank() }, 0x3dcc_cccdu32))
    } else {
        None
    }
}

/// What a command of the player at place `k` does: the effect left to do, the players
/// and the particles after it.
pub open spec fn outcome(
    players: Seq<Player>,
    particles: Seq<Particle>,
    k: int,
    contents: GamePacket,
) -> (Effect, Seq<Player>, Seq<Particle>) {
    match contents {
        GamePacket::Noop => (Effect::Nothing, players, particles),
        GamePacket::Spawn(x, y) => (Effect::Spawn(Vec2 { x, y }), players, particles),
        GamePacket::Motor(ind, acc) => if ind < particles.len() && particles[ind as int].is_motor() {
            (
                Effect::Nothing,
                players,
                particles.update(
                    ind as int,
                    Particle { kind: Kind::Motor(acc), ..particles[ind as int] },
                ),
            )
        } else {
            (Effect::Nothing, players, particles)
        },
        GamePacket::Muzzle(x, y) => (
            Effect::Nothing,
            players.update(k, Player { aim: Some(Vec2 { x, y }), ..players[k] }),
            particles,
        ),
        GamePacket::ResetMuzzle => (
            Effect::Nothing,
            players.update(k, Player { aim: None, ..players[k] }),
            particles,
        ),
        GamePacket::Fire(bullet) => match projectile_of(bullet) {
            Some((projectile, force)) => (
                Effect::Fire { player: k as usize, projectile, force },
                players,
                particles,
            ),
            None => (Effect::Nothing, players, particles),
        },
        GamePacket::Thrust(left, right) => (
            Effect::Nothing,
            players.update(k, Player { thrust: (left, right), ..players[k] }),
            particles,
        ),
        GamePacket::Dash(coeff) => (Effect::Dash { player: k as usize, coeff }, players, particles),
    }
}

/// What a packet does: nothing unless a player has the sender's id and the tank of the
/// first such player is alive; else what its command does.
pub open spec fn step(
    players: Seq<Player>,
    particles: Seq<Particle>,
    connections: Seq<Connection>,
    packet: IndexedGamePacket,
) -> (Effect, Seq<Player>, Seq<Particle>) {
    let k = first_index(players, packet.id, 0);
    if k < players.len() && alive(players[k], connections) {
        outcome(players, particles, k, packet.contents)
    } else {
        (Effect::Nothing, players, particles)
    }
}

/// Effects, players and particles after the first `n` packets were handled in order.
pub open spec fn run(
    players: Seq<Player>,
    particles: Seq<Particle>,
    connections: Seq<Connection>,
    packets: Seq<IndexedGamePacket>,
    n: int,
) -> (Seq<Effect>, Seq<Player>, Seq<Particle>)
    decreases n,
{
    if n <= 0 {
        (Seq::empty(), players, particles)
    } else {
        let prev = run(players, particles, connections, packets, n - 1);
        let next = step(prev.1, prev.2, connections, packets[n - 1]);
        (prev.0.push(next.0), next.1, next.2)
    }
}

/// The teams of all players whose tanks are alive are `team`.
pub open spec fn only_team_alive(
    players: Seq<Player>,
    connections: Seq<Connection>,
    team: usize,
) -> bool {
    forall|k: int|
        0 <= k < players.len() && alive(#[trigger] players[k], connections) ==> players[k].team
            == team
}

/// The players among the first `n` whose tanks are alive, in their order.
pub open spec fn alive_players(players: Seq<Player>, connections: Seq<Connection>, n: int) -> Seq<
    Player,
>
    decreases n,
{
    if n <= 0 {
        Seq::empty()
    } else if alive(players[n - 1], connections) {
        alive_players(players, connections, n - 1).push(players[n - 1])
    } else {
        alive_players(players, connections, n - 1)
    }
}

/// The player after one tick: both countdowns are one tick further.
pub open spec fn ticked(player: Player) -> Player {
    Player {
        reload_timer: TickTimer {
            tick: (player.reload_timer.tick - 1) as isize,
            last: player.reload_timer.last,
        },
        dash_timer: TickTimer {
            tick: (player.dash_timer.tick - 1) as isize,
            last: player.dash_timer.last,
        },
        ..player
    }
}

/// What the first `n` packets do depends on those packets alone: two batches that agree
/// on them leave the same effects, players and particles behind.
pub proof fn lemma_replay(
    players: Seq<Player>,
    particles: Seq<Particle>,
    connections: Seq<Connection>,
    one: Seq<IndexedGamePacket>,
    other: Seq<IndexedGamePacket>,
    n: int,
)
    requires
        0 <= n <= one.len(),
        n <= other.len(),
        forall|k: int| 0 <= k < n ==> one[k] == other[k],
    ensures
        run(players, particles, connections, one, n) == run(
            players,
            particles,
            connections,
            other,
            n,
        ),
        run(players, particles, connections, one, n).0.len() == n,
    decreases n,
{
    if n > 0 {
        lemma_replay(players, particles, connections, one, other, n - 1);
    }
}

/// The rules of the game, beside a solver: who plays, and what their commands do.
pub struct Controller {
    pub tick: u128,
    pub player: Player,
    pub players: Vec<Player>,
}

impl Controller {
    /// The tanks of all players are in a solver with this many particles and connections.
    pub open spec fn fits(&self, particles: int, connections: int) -> bool {
        forall|k: int|
            0 <= k < self.players@.len() ==> (#[trigger] self.players@[k]).model.fits(
                particles,
                connections,
            )
    }

    /// A controller at tick zero. Each player's team is that of the spawn with the
    /// player's id as its number.
    pub fn new(
        id: u8,
        name: String,
        model: PlayerModel,
        players: Vec<(u8, String, PlayerModel)>,
        spawns: &Vec<Spawn>,
    ) -> (c: Self)
        requires
            id < spawns@.len(),
            forall|k: int| 0 <= k < players@.len() ==> (#[trigger] players@[k]).0 < spawns@.len(),
        ensures
            c.tick == 0,
            c.player == fresh(id, spawns@[id as int].team, name, model),
            c.players@.len() == players@.len(),
            forall|k: int|
                0 <= k < players@.len() ==> (#[trigger] c.players@[k]) == fresh(
                    players@[k].0,
                    spawns@[players@[k].0 as int].team,
                    players@[k].1,
                    players@[k].2,
                ),
    {
        let mut rest = players;
        let mut list: Vec<Player> = Vec::new();
        while rest.len() > 0
            invariant
                list@.len() + rest@.len() == players@.len(),
                forall|k: int|
                    0 <= k < rest@.len() ==> (#[trigger] rest@[k]) == players@[list@.len() + k],
                forall|k: int|
                    0 <= k < players@.len() ==> (#[trigger] players@[k]).0 < spawns@.len(),
                forall|k: int|
                    0 <= k < list@.len() ==> (#[trigger] list@[k]) == fresh(
                        players@[k].0,
                        spawns@[players@[k].0 as int].team,
                        players@[k].1,
                        players@[k].2,
                    ),
            decreases rest@.len(),
        {
            proof {
                assert(rest@[0] == players@[list@.len() as int + 0]);
            }
            let p = rest.remove(0);
            let team = spawns[p.0 as usize].team;
            list.push(Player::new(p.0, team, p.1, p.2));
        }
        Self { tick: 0, player: Player::new(id, spawns[id as usize].team, name, model), players: list }
    }

    /// The place in the list of the first player with the given id.
    pub fn player_index(&self, id: u8) -> (found: Option<usize>)
        ensures
            match found {
                Some(k) => k < self.players@.len() && k == first_index(self.players@, id, 0),
                None => first_index(self.players@, id, 0) == self.players@.len(),
            },
    {
        let mut k: usize = 0;
        while k < self.players.len()
            invariant
                k <= self.players@.len(),
                first_index(self.players@, id, 0) == first_index(self.players@, id, k as int),
            decreases self.players@.len() - k,
        {
            if self.players[k].id == id {
                return Some(k);
            }
            k += 1;
        }
        None
    }

    /// The first player with the given id.
    pub fn get_player(&self, id: u8) -> (found: Option<&Player>)
        ensures
            match found {
                Some(p) => first_index(self.players@, id, 0) < self.players@.len() && *p
                    == self.players@[first_index(self.players@, id, 0)],
                None => first_index(self.players@, id, 0) == self.players@.len(),
            },
    {
        match self.player_index(id) {
            Some(k) => Some(&self.players[k]),
            None => None,
        }
    }

    /// Whether the player's tank is alive.
    pub fn player_alive(player: &Player, solver: &Solver) -> (r: bool)
        requires
            player.model.center_connection < solver.connections@.len(),
        ensures
            r == alive(*player, solver.connections@),
    {
        let link = solver.connections[player.model.center_connection].2;
        crate::scalar::is_positive(link.durability())
    }

    /// The durability of the player's health rod.
    pub fn get_player_durability(&self, player: &Player, solver: &Solver) -> (d: u32)
        requires
            player.model.center_connection < solver.connections@.len(),
        ensures
            d == solver.connections@[player.model.center_connection as int].2.spec_durability(),
    {
        solver.connections[player.model.center_connection].2.durability()
    }

    /// The position of the player's main particle.
    pub fn get_player_pos(&self, player: &Player, solver: &Solver) -> (pos: Vec2)
        requires
            player.model.center < solver.particles@.len(),
        ensures
            pos == solver.particles@[player.model.center as int].pos,
    {
        solver.particles[player.model.center].pos
    }

    /// The winning team and its living players: there is a winner when some tank is
    /// alive and all living tanks are of one team.
    pub fn get_winners(&self, solver: &Solver) -> (winners: Option<(usize, Vec<&Player>)>)
        requires
            self.fits(solver.particles@.len() as int, solver.connections@.len() as int),
        ensures
            match winners {
                Some((team, members)) => {
                    &&& only_team_alive(self.players@, solver.connections@, team)
                    &&& members@.len() > 0
                    &&& members@.map_values(|p: &Player| *p) == alive_players(
                        self.players@,
                        solver.connections@,
                        self.players@.len() as int,
                    )
                },
                None => alive_players(
                    self.players@,
                    solver.connections@,
                    self.players@.len() as int,
                ).len() == 0 || !exists|team: usize|
                    only_team_alive(self.players@, solver.connections@, team),
            },
    {
        let mut members: Vec<&Player> = Vec::new();
        let mut team: usize = 0;
        let mut split: bool = false;
        let ghost mut one: int = 0;
        let ghost mut two: int = 0;
        let mut k: usize = 0;
        while k < self.players.len()
            invariant
                k <= self.players@.len(),
                self.fits(solver.particles@.len() as int, solver.connections@.len() as int),
                members@.map_values(|p: &Player| *p) == alive_players(
                    self.players@,
                    solver.connections@,
                    k as int,
                ),
                members@.len() == 0 ==> forall|m: int|
                    0 <= m < k ==> !alive(#[trigger] self.players@[m], solver.connections@),
                members@.len() > 0 ==> 0 <= one < k && alive(
                    self.players@[one],
                    solver.connections@,
                ) && self.players@[one].team == team,
                split ==> 0 <= two < k && alive(self.players@[two], solver.connections@)
                    && self.players@[two].team != team && members@.len() > 0,
                !split ==> forall|m: int|
                    0 <= m < k && alive(#[trigger] self.players@[m], solver.connections@)
                        ==> self.players@[m].team == team,
            decreases self.players@.len() - k,
        {
            let p = &self.players[k];
            proof {
                assert(self.players@[k as int].model.fits(
                    solver.particles@.len() as int,
                    solver.connections@.len() as int,
                ));
            }
            if Self::player_alive(p, solver) {
                if members.len() == 0 {
                    team = p.team;
                    proof {
                        one = k as int;
                    }
                } else if p.team != team {
                    split = true;
                    proof {
                        two = k as int;
                    }
                }
                let ghost before = members@.map_values(|p: &Player| *p);
                members.push(p);
                proof {
                    assert(members@.map_values(|p: &Player| *p) =~= before.push(*p));
                }
            }
            k += 1;
        }
        if members.len() == 0 || split {
            proof {
                if split {
                    assert forall|t: usize|
                        !only_team_alive(self.players@, solver.connections@, t) by {
                        if t == team {
                            assert(alive(self.players@[two], solver.connections@));
                        } else {
                            assert(alive(self.players@[one], solver.connections@));
                        }
                    }
                }
            }
            None
        } else {
            Some((team, members))
        }
    }

    /// One tick passes for the controller and the player's countdowns.
    pub fn update_timers(&mut self)
        requires
            old(self).tick < u128::MAX,
            old(self).player.reload_timer.tick > isize::MIN,
            old(self).player.dash_timer.tick > isize::MIN,
        ensures
            final(self).tick == old(self).tick + 1,
            final(self).player == ticked(old(self).player),
            final(self).players == old(self).players,
    {
        self.tick += 1;
        self.player.reload_timer.update();
        self.player.dash_timer.update();
    }

    /// Whether this is a tick on which thrust and aim act: every eighth.
    pub fn steers(&self) -> (r: bool)
        ensures
            r == (self.tick % 8 == 0),
    {
        self.tick % 8 == 0
    }

    /// Handles one packet: a command counts only if its sender is a player whose tank is
    /// alive. What moves particles is left to do and returned.
    pub fn handle_packet(&mut self, solver: &mut Solver, packet: &IndexedGamePacket) -> (effect:
        Effect)
        requires
            old(self).fits(
                old(solver).particles@.len() as int,
                old(solver).connections@.len() as int,
            ),
        ensures
            (effect, final(self).players@, final(solver).particles@) == step(
                old(self).players@,
                old(solver).particles@,
                old(solver).connections@,
                *packet,
            ),
            final(self).tick == old(self).tick,
            final(self).player == old(self).player,
            final(solver).particles@.len() == old(solver).particles@.len(),
            final(solver).connections == old(solver).connections,
            final(solver).constraint == old(solver).constraint,
            final(solver).cell_size == old(solver).cell_size,
            final(solver).special == old(solver).special,
            final(solver).grid == old(solver).grid,
            final(self).fits(
                final(solver).particles@.len() as int,
                final(solver).connections@.len() as int,
            ),
            old(solver).wf() ==> final(solver).wf(),
    {
        let ghost players = self.players@;
        let ghost particles = solver.particles@;
        let k = match self.player_index(packet.id) {
            Some(k) => k,
            None => {
                return Effect::Nothing;
            },
        };
        proof {
            assert(self.players@[k as int].model.fits(
                solver.particles@.len() as int,
                solver.connections@.len() as int,
            ));
        }
        if !Self::player_alive(&self.players[k], solver) {
            return Effect::Nothing;
        }
        match packet.contents {
            GamePacket::Noop => Effect::Nothing,
            GamePacket::Spawn(x, y) => Effect::Spawn(Vec2 { x, y }),
            GamePacket::Motor(ind, acc) => {
                let ind = ind as usize;
                if ind < solver.particles.len() && solver.particles[ind].is_motor() {
                    let mut p = solver.particles[ind];
                    p.set_kind(Kind::Motor(acc));
                    solver.particles[ind] = p;
                    proof {
                        if old(solver).wf() {
                            assert forall|m: int|
                                0 <= m < solver.particles@.len() implies crate::solver::partner_valid(
                                #[trigger] solver.particles@[m],
                                m,
                                solver.particles@.len() as int,
                            ) by {
                                if m != ind {
                                    assert(solver.particles@[m] == particles[m]);
                                }
                            }
                        }
                    }
                }
                Effect::Nothing
            },
            GamePacket::Muzzle(x, y) => {
                self.players[k].aim = Some(Vec2 { x, y });
                proof {
                    assert(self.players@ =~= players.update(
                        k as int,
                        Player { aim: Some(Vec2 { x, y }), ..players[k as int] },
                    ));
                    assert forall|m: int| 0 <= m < self.players@.len() implies (
                    #[trigger] self.players@[m]).model.fits(
                        solver.particles@.len() as int,
                        solver.connections@.len() as int,
                    ) by {
                        assert(self.players@[m].model == players[m].model);
                    }
                }
                Effect::Nothing
            },
            GamePacket::ResetMuzzle => {
                self.players[k].aim = None;
                proof {
                    assert(self.players@ =~= players.update(
                        k as int,
                        Player { aim: None, ..players[k as int] },
                    ));
                    assert forall|m: int| 0 <= m < self.players@.len() implies (
                    #[trigger] self.players@[m]).model.fits(
                        solver.particles@.len() as int,
                        solver.connections@.len() as int,
                    ) by {
                        assert(self.players@[m].model == players[m].model);
                    }
                }
                Effect::Nothing
            },
            GamePacket::Fire(bullet) => {
                if bullet == 0 {
                    Effect::Fire { player: k, projectile: projectile_heavy(), force: 0x3f19_999a }
                } else if bullet == 1 {
                    Effect::Fire { player: k, projectile: projectile_impulse(), force: QUARTER }
                } else if bullet == 2 {
                    Effect::Fire { player: k, projectile: projectile_sticky(), force: 0x3dcc_cccd }
                } else {
                    Effect::Nothing
                }
            },
            GamePacket::Thrust(left, right) => {
                self.players[k].thrust = (left, right);
                proof {
                    assert(self.players@ =~= players.update(
                        k as int,
                        Player { thrust: (left, right), ..players[k as int] },
                    ));
                    assert forall|m: int| 0 <= m < self.players@.len() implies (
                    #[trigger] self.players@[m]).model.fits(
                        solver.particles@.len() as int,
                        solver.connections@.len() as int,
                    ) by {
                        assert(self.players@[m].model == players[m].model);
                    }
                }
                Effect::Nothing
            },
            GamePacket::Dash(coeff) => Effect::Dash { player: k, coeff },
        }
    }

    /// One tick: the countdowns move on, then the packets are handled in their order.
    /// Returns, packet by packet, what is left to do.
    pub fn handle_packets(&mut self, solver: &mut Solver, packets: &Vec<IndexedGamePacket>) -> (effects:
        Vec<Effect>)
        requires
            old(self).fits(
                old(solver).particles@.len() as int,
                old(solver).connections@.len() as int,
            ),
            old(self).tick < u128::MAX,
            old(self).player.reload_timer.tick > isize::MIN,
            old(self).player.dash_timer.tick > isize::MIN,
        ensures
            (effects@, final(self).players@, final(solver).particles@) == run(
                old(self).players@,
                old(solver).particles@,
                old(solver).connections@,
                packets@,
                packets@.len() as int,
            ),
            final(self).tick == old(self).tick + 1,
            final(self).player == ticked(old(self).player),
            final(solver).connections == old(solver).connections,
            final(solver).constraint == old(solver).constraint,
            final(solver).cell_size == old(solver).cell_size,
            final(solver).special == old(solver).special,
            final(solver).grid == old(solver).grid,
            final(self).fits(
                final(solver).particles@.len() as int,
                final(solver).connections@.len() as int,
            ),
            old(solver).wf() ==> final(solver).wf(),
    {
        self.update_timers();
        let mut effects: Vec<Effect> = Vec::new();
        let mut n: usize = 0;
        while n < packets.len()
            invariant
                n <= packets@.len(),
                (effects@, self.players@, solver.particles@) == run(
                    old(self).players@,
                    old(solver).particles@,
                    old(solver).connections@,
                    packets@,
                    n as int,
                ),
                self.tick == old(self).tick + 1,
                self.player == ticked(old(self).player),
                solver.connections == old(solver).connections,
                solver.constraint == old(solver).constraint,
                solver.cell_size == old(solver).cell_size,
                solver.special == old(solver).special,
                solver.grid == old(solver).grid,
                self.fits(solver.particles@.len() as int, solver.connections@.len() as int),
                old(solver).wf() ==> solver.wf(),
            decreases packets@.len() - n,
        {
            let effect = self.handle_packet(solver, &packets[n]);
            effects.push(effect);
            n += 1;
        }
        effects
    }

    /// The command that spawns a particle at `pos`.
    pub fn add_particle(&self, pos: Vec2) -> (out: Vec<GamePacket>)
        ensures
            out@ == seq![GamePacket::Spawn(pos.x, pos.y)],
    {
        vec![GamePacket::Spawn(pos.x, pos.y)]
    }

    /// The commands that drive the tank: the left motors with acceleration `acc`, then the
    /// right motors with the opposite one.
    pub fn move_tank(&self, acc: u32) -> (out: Vec<GamePacket>)
        ensures
            out@ == Seq::new(
                self.player.model.left_motors@.len(),
                |k: int| GamePacket::Motor(self.player.model.left_motors@[k] as u32, acc),
            ) + Seq::new(
                self.player.model.right_motors@.len(),
                |k: int| GamePacket::Motor(self.player.model.right_motors@[k] as u32, negated(acc)),
            ),
    {
        let mut out: Vec<GamePacket> = Vec::new();
        let left = &self.player.model.left_motors;
        let right = &self.player.model.right_motors;
        let ghost first = Seq::new(left@.len(), |k: int| GamePacket::Motor(left@[k] as u32, acc));
        let ghost second = Seq::new(
            right@.len(),
            |k: int| GamePacket::Motor(right@[k] as u32, negated(acc)),
        );
        let mut k: usize = 0;
        while k < left.len()
            invariant
                k <= left@.len(),
                first == Seq::new(left@.len(), |k: int| GamePacket::Motor(left@[k] as u32, acc)),
                out@ == first.take(k as int),
            decreases left@.len() - k,
        {
            let ind = #[verifier::truncate]
            (left[k] as u32);
            out.push(GamePacket::Motor(ind, acc));
            proof {
                assert(ind == left@[k as int] as u32);
                assert(first[k as int] == GamePacket::Motor(ind, acc));
                assert(out@ =~= first.take(k + 1));
            }
            k += 1;
        }
        let back = negate(acc);
        let mut k: usize = 0;
        while k < right.len()
            invariant
                k <= right@.len(),
                back == negated(acc),
                second == Seq::new(
                    right@.len(),
                    |k: int| GamePacket::Motor(right@[k] as u32, negated(acc)),
                ),
                out@ == first + second.take(k as int),
            decreases right@.len() - k,
        {
            let ind = #[verifier::truncate]
            (right[k] as u32);
            out.push(GamePacket::Motor(ind, back));
            proof {
                assert(second[k as int] == GamePacket::Motor(ind, back));
                assert(out@ =~= first + second.take(k + 1));
            }
            k += 1;
        }
        proof {
            assert(out@ =~= first + second);
        }
        out
    }

    /// The command that aims at `desired_pos`.
    pub fn move_muzzle(&self, desired_pos: Vec2) -> (out: Vec<GamePacket>)
        ensures
            out@ == seq![GamePacket::Muzzle(desired_pos.x, desired_pos.y)],
    {
        vec![GamePacket::Muzzle(desired_pos.x, desired_pos.y)]
    }

    /// The command that stops aiming.
    pub fn reset_muzzle(&self) -> (out: Vec<GamePacket>)
        ensures
            out@ == seq![GamePacket::ResetMuzzle],
    {
        vec![GamePacket::ResetMuzzle]
    }

    /// Ticks that reloading takes after a projectile of the given type.
    pub open spec fn reload_ticks(projectile: u8) -> isize {
        if projectile == 0 {
            400
        } else if projectile == 1 {
            1500
        } else if projectile == 2 {
            16
        } else {
            0
        }
    }

    /// The command that fires the chosen projectile, if reloading is over: then reloading
    /// starts again. No command while reloading.
    pub fn fire(&mut self) -> (out: Vec<GamePacket>)
        ensures
            old(self).player.reload_timer.tick > 0 ==> out@ == Seq::<GamePacket>::empty()
                && *final(self) == *old(self),
            old(self).player.reload_timer.tick <= 0 ==> out@ == seq![
                GamePacket::Fire(old(self).player.projectile),
            ] && final(self).player.reload_timer == (TickTimer {
                tick: Self::reload_ticks(old(self).player.projectile),
                last: Self::reload_ticks(old(self).player.projectile),
            }) && final(self).player.dash_timer == old(self).player.dash_timer && final(self).player.projectile == old(self).player.projectile && final(self).players == old(self).players && final(self).tick == old(self).tick,
    {
        if self.player.reload_timer.not_ready() {
            return vec![];
        }
        let projectile = self.player.projectile;
        let ticks: isize = if projectile == 0 {
            400
        } else if projectile == 1 {
            1500
        } else if projectile == 2 {
            16
        } else {
            0
        };
        self.player.reload_timer.set(ticks);
        vec![GamePacket::Fire(projectile)]
    }

    /// The command that turns the tank: thrust `force` on the left, the opposite on the
    /// right.
    pub fn rotate_tank(&self, force: u32) -> (out: Vec<GamePacket>)
        ensures
            out@ == seq![GamePacket::Thrust(force, negated(force))],
    {
        vec![GamePacket::Thrust(force, negate(force))]
    }

    /// The command that dashes with coefficient two, if the countdown between dashes is
    /// over: then the countdown starts again. No command before that.
    pub fn dash(&mut self) -> (out: Vec<GamePacket>)
        ensures
            old(self).player.dash_timer.tick > 0 ==> out@ == Seq::<GamePacket>::empty()
                && *final(self) == *old(self),
            old(self).player.dash_timer.tick <= 0 ==> out@ == seq![GamePacket::Dash(TWO)]
                && final(self).player.dash_timer == (TickTimer {
                tick: DASH_TICKS,
                last: DASH_TICKS,
            }) && final(self).player.reload_timer == old(self).player.reload_timer && final(self).players == old(self).players && final(self).tick == old(self).tick,
    {
        if self.player.dash_timer.ready() {
            self.player.dash_timer.set(DASH_TICKS);
            vec![GamePacket::Dash(TWO)]
        } else {
            vec![]
        }
    }
}

} // verus!
