use smog::controller::{Controller, Effect, Player, Spawn, TickTimer, DASH_TICKS, MAX_GEAR};
use smog::game_packets::{GamePacket, IndexedGamePacket};
use smog::lobby::{
    after_read, after_write, handshake_step, lobby_step, swapped_id, ClientError, ClientPacket,
    Handshake, HandshakeAction, LobbyAction, LobbyInfo, ServerError, ServerPacket, Transfer,
    Verdict,
};
use smog::packet::IndexedPacket;
use smog::particle::{
    ground, metal, motor, projectile_heavy, projectile_impulse, projectile_sticky, Kind, Vec2,
};
use smog::player_model::{PlayerModel, RawPlayerModel, PISTOL_HP, TANK_HP};
use smog::scalar::{negate, ONE, TEN, TWO};
use smog::solver::{Connection, Constraint, Link, Solver};

fn arena() -> Constraint {
    Constraint::Box(
        Vec2 { x: (-10f32).to_bits(), y: (-10f32).to_bits() },
        Vec2 { x: 10f32.to_bits(), y: 10f32.to_bits() },
    )
}

fn rod(durability: f32) -> Link {
    Link::Rigid { length: ONE, durability: durability.to_bits(), elasticity: TEN }
}

/// A tank of four particles: two metal, two motors; rod 0 is a pistol, rod 1 its health.
fn tank(hp: f32) -> RawPlayerModel {
    RawPlayerModel {
        particles: vec![metal(), metal(), motor(), motor()],
        connections: vec![(0, 1, rod(7.)), (1, 0, rod(hp)), (2, 3, rod(3.))],
        left_motors: vec![2],
        right_motors: vec![3],
        pistols: vec![0],
        center: 1,
        muzzle: 0,
        center_connection: 1,
    }
}

fn spawns() -> Vec<Spawn> {
    let pos = Vec2 { x: 0, y: 0 };
    vec![Spawn { pos, team: 0 }, Spawn { pos, team: 0 }, Spawn { pos, team: 1 }]
}

/// A solver with one ground particle and the tanks of players 0, 1 and 2.
fn game(hp: [f32; 3]) -> (Controller, Solver) {
    let mut solver = Solver::new(arena(), &[ground()], &[], 20, 20);
    let own = tank(hp[0]).place_in_solver(&mut solver);
    let mut players = vec![];
    for (k, name) in ["a", "b", "c"].iter().enumerate() {
        let model = if k == 0 {
            PlayerModel {
                range: own.range.clone(),
                left_motors: own.left_motors.clone(),
                right_motors: own.right_motors.clone(),
                pistols: own.pistols.clone(),
                center: own.center,
                muzzle: own.muzzle,
                center_connection: own.center_connection,
            }
        } else {
            tank(hp[k]).place_in_solver(&mut solver)
        };
        players.push((k as u8, name.to_string(), model));
    }
    let controller = Controller::new(0, "a".to_string(), own, players, &spawns());
    (controller, solver)
}

fn from(id: u8, contents: GamePacket) -> IndexedGamePacket {
    IndexedPacket::new(id, contents)
}

#[test]
fn tick_timer_counts_down() {
    let mut t = TickTimer::new();
    assert!(t.ready());
    assert!(!t.not_ready());
    t.set(2);
    assert_eq!((t.tick, t.last), (2, 2));
    assert!(t.not_ready());
    t.update();
    assert!(!t.ready());
    t.update();
    assert!(t.ready());
    t.update();
    assert_eq!(t.tick, -1);
    assert!(t.ready());
    assert_eq!(t.map_or(0, 5, || 9), 9);
    assert_eq!((t.tick, t.last), (5, 5));
    assert_eq!(t.map_or(0, 7, || 9), 0);
    assert_eq!((t.tick, t.last), (5, 5));
}

#[test]
fn gears_stay_in_range() {
    let mut p = Player::new(3, 1, "p".to_string(), tank(7.).place_in_solver(&mut Solver::new(arena(), &[], &[], 2, 2)));
    assert_eq!((p.id, p.team, p.gear, p.projectile), (3, 1, 0, 0));
    assert_eq!(p.thrust, (0, 0));
    assert_eq!(p.aim, None);
    p.gear_down();
    assert_eq!(p.gear, 0);
    for k in 0..=MAX_GEAR {
        assert_eq!(p.gear, k);
        assert_eq!(f32::from_bits(p.get_power()), 16. * f32::powf(2., k as f32));
        p.gear_up();
    }
    assert_eq!(p.gear, MAX_GEAR);
    p.gear_down();
    assert_eq!(p.gear, MAX_GEAR - 1);
}

#[test]
fn tank_is_placed_behind_what_is_there() {
    let mut solver = Solver::new(arena(), &[ground(), ground()], &[(0, 1, rod(1.))], 20, 20);
    let placed = tank(7.).place_in_solver(&mut solver);
    assert_eq!(placed.range, 2..6);
    assert_eq!(placed.indices(), vec![2, 3, 4, 5]);
    assert_eq!(placed.left_motors, vec![4]);
    assert_eq!(placed.right_motors, vec![5]);
    assert_eq!(placed.pistols, vec![1]);
    assert_eq!((placed.center, placed.muzzle, placed.center_connection), (3, 2, 2));
    assert_eq!(solver.size(), 6);
    let expected: Vec<Connection> =
        vec![(0, 1, rod(1.)), (2, 3, rod(7.)), (3, 2, rod(7.)), (4, 5, rod(3.))];
    assert_eq!(solver.connections, expected);
    let model = tank(7.).model();
    assert_eq!(model.center, metal().pos);
    assert_eq!(model.particles.len(), 4);
    assert_eq!(f32::from_bits(TANK_HP), 7.);
    assert_eq!(f32::from_bits(PISTOL_HP), 7.);
}

#[test]
fn players_get_the_team_of_their_spawn() {
    let (c, solver) = game([7., 7., 7.]);
    assert_eq!(c.tick, 0);
    assert_eq!(c.player.id, 0);
    let teams: Vec<usize> = c.players.iter().map(|p| p.team).collect();
    assert_eq!(teams, vec![0, 0, 1]);
    assert_eq!(c.players[2]._name, "c");
    assert_eq!(c.players[1].model.range, 5..9);
    assert_eq!(c.get_player(1).map(|p| p.id), Some(1));
    assert!(c.get_player(9).is_none());
    assert_eq!(c.player_index(2), Some(2));
    assert_eq!(c.get_player_pos(&c.players[0], &solver), metal().pos);
    assert_eq!(f32::from_bits(c.get_player_durability(&c.players[0], &solver)), 7.);
}

#[test]
fn winner_is_the_only_team_alive() {
    let (c, solver) = game([7., 7., 7.]);
    assert!(c.get_winners(&solver).is_none());
    let (c, solver) = game([7., 0.5, -1.]);
    let (team, members) = c.get_winners(&solver).unwrap();
    assert_eq!(team, 0);
    assert_eq!(members.iter().map(|p| p.id).collect::<Vec<u8>>(), vec![0, 1]);
    let (c, solver) = game([0., -3., 2.]);
    let (team, members) = c.get_winners(&solver).unwrap();
    assert_eq!(team, 1);
    assert_eq!(members.len(), 1);
    assert_eq!(members[0].id, 2);
    let (c, solver) = game([0., -3., f32::NAN]);
    assert!(c.get_winners(&solver).is_none());
    assert!(Controller::player_alive(&c.players[0], &solver) == false);
}

#[test]
fn commands_of_living_players_count() {
    let (mut c, mut solver) = game([7., 7., -1.]);
    let acc = 53.2f32.to_bits();
    // player 0's left motor is particle 3
    assert_eq!(c.players[0].model.left_motors, vec![3]);
    let e = c.handle_packet(&mut solver, &from(0, GamePacket::Motor(3, acc)));
    assert_eq!(e, Effect::Nothing);
    assert_eq!(solver.particles[3].kind, Kind::Motor(acc));
    // not a motor, out of range: nothing
    let before = solver.particles.clone();
    c.handle_packet(&mut solver, &from(0, GamePacket::Motor(0, acc)));
    c.handle_packet(&mut solver, &from(0, GamePacket::Motor(69000, acc)));
    assert_eq!(solver.particles, before);

    let x = 1.5f32.to_bits();
    let y = (-2f32).to_bits();
    assert_eq!(c.handle_packet(&mut solver, &from(1, GamePacket::Muzzle(x, y))), Effect::Nothing);
    assert_eq!(c.players[1].aim, Some(Vec2 { x, y }));
    assert_eq!(c.players[0].aim, None);
    c.handle_packet(&mut solver, &from(1, GamePacket::Thrust(x, y)));
    assert_eq!(c.players[1].thrust, (x, y));
    c.handle_packet(&mut solver, &from(1, GamePacket::ResetMuzzle));
    assert_eq!(c.players[1].aim, None);

    assert_eq!(
        c.handle_packet(&mut solver, &from(1, GamePacket::Spawn(x, y))),
        Effect::Spawn(Vec2 { x, y })
    );
    assert_eq!(
        c.handle_packet(&mut solver, &from(1, GamePacket::Dash(TWO))),
        Effect::Dash { player: 1, coeff: TWO }
    );
    assert_eq!(c.handle_packet(&mut solver, &from(0, GamePacket::Noop)), Effect::Nothing);
    assert_eq!(solver.size(), 13);
}

#[test]
fn projectile_table() {
    let (mut c, mut solver) = game([7., 7., 7.]);
    assert_eq!(
        c.handle_packet(&mut solver, &from(2, GamePacket::Fire(0))),
        Effect::Fire { player: 2, projectile: projectile_heavy(), force: 0.6f32.to_bits() }
    );
    assert_eq!(
        c.handle_packet(&mut solver, &from(2, GamePacket::Fire(1))),
        Effect::Fire { player: 2, projectile: projectile_impulse(), force: 0.25f32.to_bits() }
    );
    assert_eq!(
        c.handle_packet(&mut solver, &from(2, GamePacket::Fire(2))),
        Effect::Fire { player: 2, projectile: projectile_sticky(), force: 0.1f32.to_bits() }
    );
    assert_eq!(c.handle_packet(&mut solver, &from(2, GamePacket::Fire(10))), Effect::Nothing);
}

#[test]
fn commands_of_dead_and_unknown_players_are_dropped() {
    let (mut c, mut solver) = game([7., 7., -1.]);
    let x = ONE;
    assert_eq!(c.handle_packet(&mut solver, &from(2, GamePacket::Spawn(x, x))), Effect::Nothing);
    assert_eq!(c.handle_packet(&mut solver, &from(2, GamePacket::Fire(0))), Effect::Nothing);
    c.handle_packet(&mut solver, &from(2, GamePacket::Thrust(x, x)));
    assert_eq!(c.players[2].thrust, (0, 0));
    // the dead player's motor is particle 11
    c.handle_packet(&mut solver, &from(2, GamePacket::Motor(11, x)));
    assert_eq!(solver.particles[11].kind, Kind::Motor(0));
    assert_eq!(c.handle_packet(&mut solver, &from(77, GamePacket::Dash(x))), Effect::Nothing);
}

#[test]
fn a_batch_is_handled_in_order() {
    let (mut c, mut solver) = game([7., 7., 7.]);
    let x = ONE;
    let y = TWO;
    let batch = vec![
        from(0, GamePacket::Thrust(x, y)),
        from(1, GamePacket::Fire(2)),
        from(0, GamePacket::Thrust(y, x)),
        from(9, GamePacket::Fire(2)),
        from(2, GamePacket::Spawn(x, y)),
    ];
    c.fire();
    assert_eq!(c.player.reload_timer.tick, 400);
    let effects = c.handle_packets(&mut solver, &batch);
    assert_eq!(
        effects,
        vec![
            Effect::Nothing,
            Effect::Fire { player: 1, projectile: projectile_sticky(), force: 0.1f32.to_bits() },
            Effect::Nothing,
            Effect::Nothing,
            Effect::Spawn(Vec2 { x, y }),
        ]
    );
    assert_eq!(c.players[0].thrust, (y, x));
    assert_eq!(c.tick, 1);
    assert_eq!(c.player.reload_timer.tick, 399);
    assert_eq!(c.player.dash_timer.tick, -1);
    assert!(!c.steers());
    for _ in 0..7 {
        c.handle_packets(&mut solver, &vec![]);
    }
    assert_eq!(c.tick, 8);
    assert!(c.steers());
}

#[test]
fn two_peers_stay_identical() {
    let (mut a, mut sa) = game([7., 7., 7.]);
    let (mut b, mut sb) = game([7., 7., 7.]);
    for tick in 0..200u32 {
        let mut batch = vec![];
        if tick == 100 {
            batch.push(from(0, GamePacket::Fire(0)));
        }
        if tick == 120 {
            batch.push(from(0, GamePacket::Motor(3, 16f32.to_bits())));
            batch.push(from(1, GamePacket::Thrust(ONE, negate(ONE))));
        }
        let ea = a.handle_packets(&mut sa, &batch);
        let eb = b.handle_packets(&mut sb, &batch);
        assert_eq!(ea, eb);
        let raw: Vec<(usize, usize)> = (0..sa.size()).map(|i| (i % 7, (i + tick as usize) % 5)).collect();
        sa.populate_grid(&raw);
        sb.populate_grid(&raw);
        assert_eq!(sa.collision_pairs(), sb.collision_pairs());
        sa.resolve_special();
        sb.resolve_special();
        assert_eq!(sa.particles, sb.particles);
        assert_eq!(sa.connections, sb.connections);
    }
    assert_eq!(a.tick, 200);
    assert_eq!(sa.particles[3].kind, Kind::Motor(16f32.to_bits()));
}

#[test]
fn fire_waits_for_the_reload() {
    let (mut c, _) = game([7., 7., 7.]);
    assert_eq!(c.fire(), vec![GamePacket::Fire(0)]);
    assert_eq!((c.player.reload_timer.tick, c.player.reload_timer.last), (400, 400));
    assert_eq!(c.fire(), vec![]);
    assert_eq!(c.player.reload_timer.tick, 400);
    for (projectile, ticks) in [(1u8, 1500isize), (2, 16), (3, 0), (200, 0)] {
        c.player.reload_timer.set(0);
        c.player.projectile = projectile;
        assert_eq!(c.fire(), vec![GamePacket::Fire(projectile)]);
        assert_eq!(c.player.reload_timer.tick, ticks);
    }
}

#[test]
fn dash_waits_for_its_countdown() {
    let (mut c, _) = game([7., 7., 7.]);
    assert_eq!(c.dash(), vec![GamePacket::Dash(2f32.to_bits())]);
    assert_eq!(c.player.dash_timer.tick, DASH_TICKS);
    assert_eq!(DASH_TICKS, 4800);
    assert_eq!(c.dash(), vec![]);
    c.player.dash_timer.set(1);
    assert_eq!(c.dash(), vec![]);
    c.player.dash_timer.update();
    assert_eq!(c.dash(), vec![GamePacket::Dash(TWO)]);
}

#[test]
fn commands_of_the_local_player() {
    let (c, _) = game([7., 7., 7.]);
    let pos = Vec2 { x: 1.5f32.to_bits(), y: 2.5f32.to_bits() };
    assert_eq!(c.add_particle(pos), vec![GamePacket::Spawn(pos.x, pos.y)]);
    assert_eq!(c.move_muzzle(pos), vec![GamePacket::Muzzle(pos.x, pos.y)]);
    assert_eq!(c.reset_muzzle(), vec![GamePacket::ResetMuzzle]);
    assert_eq!(
        c.rotate_tank(0.4f32.to_bits()),
        vec![GamePacket::Thrust(0.4f32.to_bits(), (-0.4f32).to_bits())]
    );
    let acc = (0.5f32 * 16.).to_bits();
    assert_eq!(
        c.move_tank(acc),
        vec![GamePacket::Motor(3, 8f32.to_bits()), GamePacket::Motor(4, (-8f32).to_bits())]
    );
}

#[test]
fn client_follows_the_lobby() {
    let mut info = LobbyInfo { id: 0, map: "default".to_string(), players: vec![] };
    assert!(matches!(lobby_step(&mut info, ServerPacket::SetId(4), false), LobbyAction::Continue));
    assert_eq!(info.id, 4);
    assert!(matches!(
        lobby_step(&mut info, ServerPacket::SetMap("hills".to_string()), false),
        LobbyAction::RequestMap
    ));
    assert_eq!(info.map, "hills");
    assert!(matches!(
        lobby_step(&mut info, ServerPacket::SetMap("dunes".to_string()), true),
        LobbyAction::ConfirmMap
    ));
    assert_eq!(info.map, "dunes");
    let file = ServerPacket::CreateFile { name: "map.smog".to_string(), contents: vec![1, 2, 3] };
    match lobby_step(&mut info, file, false) {
        LobbyAction::StoreFile { name, contents } => {
            assert_eq!(name, "map.smog");
            assert_eq!(contents, vec![1, 2, 3]);
        }
        other => panic!("wrong action: {:?}", other),
    }
    let roster = vec![(0u8, "a".to_string()), (4, "b".to_string())];
    assert!(matches!(
        lobby_step(&mut info, ServerPacket::SetPlayers(roster.clone()), false),
        LobbyAction::Continue
    ));
    assert_eq!(info.players, roster);
    assert!(matches!(lobby_step(&mut info, ServerPacket::StartGame, false), LobbyAction::Start));
    assert_eq!((info.id, info.map.as_str()), (4, "dunes"));
}

#[test]
fn server_admits_a_client_that_gives_its_name() {
    let (state, action) = handshake_step(Handshake::AwaitName, ClientPacket::SetName("ann".to_string()));
    assert_eq!(action, HandshakeAction::Greet);
    assert!(matches!(&state, Handshake::AwaitMapReply { name } if name == "ann"));
    let (state, action) = handshake_step(state, ClientPacket::RequestMap);
    assert_eq!(action, HandshakeAction::SendMap);
    assert!(matches!(&state, Handshake::Joined { name } if name == "ann"));

    let (state, _) = handshake_step(Handshake::AwaitName, ClientPacket::SetName("bob".to_string()));
    let (state, action) = handshake_step(state, ClientPacket::Ready);
    assert_eq!(action, HandshakeAction::Proceed);
    assert!(matches!(&state, Handshake::Joined { name } if name == "bob"));
}

#[test]
fn server_turns_away_a_client_without_a_name() {
    for first in [ClientPacket::RequestMap, ClientPacket::Ready] {
        let (state, action) = handshake_step(Handshake::AwaitName, first);
        assert_eq!(action, HandshakeAction::Reject(ServerError::AuthenticationError));
        assert!(matches!(state, Handshake::Rejected));
    }
    assert_eq!(ServerError::AuthenticationError.message(), "Client-side authentication error");
    assert_eq!(ClientError::AuthenticationError.message(), "Server-side authentication error");
    assert_eq!(ClientError::NoConnectionToServer.message(), "No connection to server");
    assert_eq!(ClientError::ServerClosedConnection.message(), "Server closed connection");
}

#[test]
fn socket_outcomes() {
    assert_eq!(after_read(Transfer::Done(0)), Verdict::Close);
    assert_eq!(after_read(Transfer::Done(9)), Verdict::Accept);
    assert_eq!(after_read(Transfer::Done(4)), Verdict::Accept);
    assert_eq!(after_read(Transfer::WouldBlock), Verdict::Retry);
    assert_eq!(after_read(Transfer::Failed), Verdict::Close);
    assert_eq!(after_write(Transfer::Done(160)), Verdict::Next);
    assert_eq!(after_write(Transfer::WouldBlock), Verdict::Retry);
    assert_eq!(after_write(Transfer::Failed), Verdict::Next);
    assert_eq!(swapped_id(1, 1, 2), 2);
    assert_eq!(swapped_id(2, 1, 2), 1);
    assert_eq!(swapped_id(3, 1, 2), 3);
    assert_eq!(swapped_id(1, 1, 1), 1);
}

#[test]
fn for_each_visits_the_tank_in_rising_order() {
    let mut solver = Solver::new(arena(), &[ground(), ground()], &[], 20, 20);
    let placed = tank(7.).place_in_solver(&mut solver);
    let mut seen = vec![];
    placed.for_each(|i| seen.push(i));
    assert_eq!(seen, vec![2, 3, 4, 5]);
    let empty = PlayerModel {
        range: 5..5,
        left_motors: vec![],
        right_motors: vec![],
        pistols: vec![],
        center: 0,
        muzzle: 0,
        center_connection: 0,
    };
    let mut count = 0;
    empty.for_each(|_| count += 1);
    assert_eq!(count, 0);
    assert!(empty.indices().is_empty());
}
