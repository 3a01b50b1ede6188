use smog::broad_phase::{collision_pairs, column_groups};
use smog::grid::{Grid, GridCell, CELL_MAX};
use smog::particle::{
    ground, metal, motor, projectile_heavy, projectile_impulse, projectile_sticky, spike, Color,
    Kind, Particle, Vec2, PARTICLE_RADIUS,
};
use smog::scalar::{
    is_negative, is_positive, negate, FIFTH, FIVE, HALF, HUNDRED, INFINITY, ONE, QUARTER, TEN,
    THOUSAND, THREE, TWO, ZERO,
};
use smog::solver::{Connection, Constraint, Link, Model, Solver};

fn at(p: Particle, x: f32, y: f32) -> Particle {
    p.with_position(Vec2 { x: x.to_bits(), y: y.to_bits() })
}

fn arena() -> Constraint {
    Constraint::Box(
        Vec2 { x: (-10f32).to_bits(), y: (-10f32).to_bits() },
        Vec2 { x: 10f32.to_bits(), y: 10f32.to_bits() },
    )
}

#[test]
fn constants_are_the_bit_patterns_of_their_values() {
    assert_eq!(ZERO, 0f32.to_bits());
    assert_eq!(ONE, 1f32.to_bits());
    assert_eq!(TWO, 2f32.to_bits());
    assert_eq!(THREE, 3f32.to_bits());
    assert_eq!(FIVE, 5f32.to_bits());
    assert_eq!(TEN, 10f32.to_bits());
    assert_eq!(HUNDRED, 100f32.to_bits());
    assert_eq!(THOUSAND, 1000f32.to_bits());
    assert_eq!(HALF, 0.5f32.to_bits());
    assert_eq!(QUARTER, 0.25f32.to_bits());
    assert_eq!(FIFTH, 0.2f32.to_bits());
    assert_eq!(INFINITY, f32::INFINITY.to_bits());
    assert_eq!(PARTICLE_RADIUS, 0.5f32.to_bits());
}

#[test]
fn sign_tests_agree_with_floats() {
    let samples = [
        0f32,
        -0f32,
        1.0,
        -1.0,
        1e-40,
        -1e-40,
        f32::MIN_POSITIVE,
        f32::MAX,
        f32::MIN,
        f32::INFINITY,
        f32::NEG_INFINITY,
        f32::NAN,
        -f32::NAN,
        7.0,
        -0.03,
    ];
    for x in samples {
        assert_eq!(is_positive(x.to_bits()), x > 0., "{x}");
        assert_eq!(is_negative(x.to_bits()), x < 0., "{x}");
        assert_eq!(negate(x.to_bits()), (-x).to_bits(), "{x}");
    }
}

#[test]
fn palette_particles() {
    let null = Particle::null();
    assert_eq!(f32::from_bits(null.radius), 0.5);
    assert_eq!(f32::from_bits(null.mass), 1.);
    assert_eq!(null.kind, Kind::Plain);
    assert_eq!(null.texture, 0);
    assert_eq!(null.color, Color { r: ONE, g: ONE, b: ONE, a: ONE });
    assert_eq!(null.pos, null.pos_old);
    assert_eq!((ground().texture, f32::from_bits(ground().mass)), (1, 1.));
    assert_eq!((metal().texture, f32::from_bits(metal().mass)), (2, 3.));
    assert_eq!(motor().kind, Kind::Motor(ZERO));
    assert_eq!(motor().texture, 3);
    assert_eq!(f32::from_bits(spike().mass), 0.2);
    assert_eq!(f32::from_bits(spike().radius), 0.25);
    assert_eq!(spike().kind, Kind::Spike);
    assert_eq!(f32::from_bits(projectile_heavy().mass), 10.);
    assert_eq!(projectile_impulse().kind, Kind::Impulse(1000f32.to_bits()));
    assert_eq!(projectile_sticky().kind, Kind::Sticky(1, None));
    assert_eq!(projectile_sticky().color, Color { r: ONE, g: ZERO, b: ZERO, a: ONE });
}

#[test]
fn particle_builders() {
    let pos = Vec2 { x: 3f32.to_bits(), y: 4f32.to_bits() };
    let p = metal().with_position(pos).with_kind(Kind::Spike);
    assert_eq!(p.pos, pos);
    assert_eq!(p.pos_old, pos);
    assert_eq!(p.kind, Kind::Spike);
    assert_eq!(p.mass, THREE);
    let c = Color { r: HALF, g: ZERO, b: ONE, a: ONE };
    assert_eq!(p.with_color(c).color, c);
    let q = Particle::new(HALF, TWO, pos, 7, Kind::Motor(ONE), c);
    assert_eq!(q.pos_old, pos);
    assert_eq!(q.acc, Vec2 { x: 0, y: 0 });
    assert!(q.is_motor());
    assert!(!q.is_special());

    let mut m = q;
    m.acc = Vec2 { x: ONE, y: TWO };
    let to = Vec2 { x: ONE, y: ONE };
    m.set_position(to, true);
    assert_eq!(m.pos, to);
    assert_eq!(m.pos_old, pos);
    assert_eq!(m.acc, Vec2 { x: ONE, y: TWO });
    m.set_position(pos, false);
    assert_eq!(m.acc, Vec2 { x: 0, y: 0 });
    m.set_kind(Kind::Plain);
    assert!(m.kind.none());
}

#[test]
fn only_motor_and_spike_pass_through_each_other() {
    let kinds = [
        Kind::Plain,
        Kind::Spike,
        Kind::Motor(ONE),
        Kind::Impulse(TEN),
        Kind::Sticky(1, None),
    ];
    for a in kinds {
        for b in kinds {
            let pass = matches!((a, b), (Kind::Motor(_), Kind::Spike) | (Kind::Spike, Kind::Motor(_)));
            assert_eq!(a.can_collide_with(&b), !pass);
            assert_eq!(a.can_collide_with(&b), b.can_collide_with(&a));
        }
    }
    assert!(Kind::Motor(ZERO).is_motor());
    assert!(!Kind::Spike.is_motor());
    assert!(Kind::Sticky(0, None).is_special());
    assert!(!Kind::Impulse(ONE).is_special());
}

#[test]
fn sticky_notes_one_partner() {
    let mut k = Kind::Sticky(2, None);
    k.touch(5);
    assert_eq!(k, Kind::Sticky(1, Some(5)));
    k.touch(6);
    assert_eq!(k, Kind::Sticky(1, Some(5)));
    let mut spent = Kind::Sticky(0, None);
    spent.touch(3);
    assert_eq!(spent, Kind::Sticky(0, None));
    let mut plain = Kind::Motor(ONE);
    plain.touch(3);
    assert_eq!(plain, Kind::Motor(ONE));
}

#[test]
fn link_builders_and_getters() {
    let rod = Link::Rigid { length: ONE, durability: TWO, elasticity: TEN };
    assert_eq!(rod.with_length(FIVE), Link::Rigid { length: FIVE, durability: TWO, elasticity: TEN });
    assert_eq!(rod.with_durability(FIVE), Link::Rigid { length: ONE, durability: FIVE, elasticity: TEN });
    assert_eq!(rod.with_elasticity(FIVE), Link::Rigid { length: ONE, durability: TWO, elasticity: FIVE });
    assert_eq!(rod.durability(), TWO);
    assert_eq!(rod.elasticity(), TEN);
    let force = Link::Force(THREE);
    assert_eq!(force.with_length(FIVE), force);
    assert_eq!(force.with_durability(FIVE), force);
    assert_eq!(force.with_elasticity(FIVE), force);
    assert_eq!(f32::from_bits(force.durability()), 1.);
    assert_eq!(f32::from_bits(force.elasticity()), 100.);
    assert!(!rod.is_inert());
    assert!(!rod.with_durability(ZERO).is_inert());
    assert!(rod.with_durability((-0.5f32).to_bits()).is_inert());
    assert!(!Link::Force((-1f32).to_bits()).is_inert());
    let (bl, tr) = arena().bounds();
    assert_eq!(f32::from_bits(bl.x), -10.);
    assert_eq!(f32::from_bits(tr.y), 10.);
}

#[test]
fn cell_holds_four() {
    let mut cell = GridCell::<usize>::new(0);
    assert!(cell.iter().is_empty());
    for k in 0..6 {
        cell.push(10 + k);
    }
    assert_eq!(cell.len, CELL_MAX);
    assert_eq!(cell.iter(), vec![10, 11, 12, 13]);
    cell.clear();
    assert_eq!(cell.len, 0);
    assert!(cell.iter().is_empty());
    cell.push(9);
    assert_eq!(cell.iter(), vec![9]);
}

#[test]
fn grid_cells_are_stored_by_column() {
    let mut grid = Grid::<usize>::new(3, 4);
    assert_eq!((grid.width, grid.height), (3, 4));
    assert_eq!(grid.grid.len(), 12);
    grid.push((1, 2), 5);
    grid.push((1, 2), 6);
    grid.push((2, 3), 7);
    assert_eq!(grid.cell((1, 2)), vec![5, 6]);
    assert_eq!(grid.cell((2, 3)), vec![7]);
    assert_eq!(grid.grid[1 * 4 + 2].len, 2);
    assert!(grid.cell((0, 0)).is_empty());
    for k in 0..10 {
        grid.push((0, 1), k);
    }
    assert_eq!(grid.cell((0, 1)), vec![0, 1, 2, 3]);
    grid.clear();
    for i in 0..3 {
        for j in 0..4 {
            assert!(grid.cell((i, j)).is_empty());
        }
    }
}

#[test]
fn columns_are_split_into_two_groups_of_strips() {
    assert_eq!(column_groups(1), (vec![], vec![]));
    assert_eq!(column_groups(2), (vec![], vec![]));
    assert_eq!(column_groups(3), (vec![(1, 2)], vec![]));
    assert_eq!(column_groups(4), (vec![(1, 3)], vec![]));
    assert_eq!(column_groups(5), (vec![(1, 3)], vec![(3, 4)]));
    assert_eq!(column_groups(6), (vec![(1, 3)], vec![(3, 5)]));
    assert_eq!(column_groups(7), (vec![(1, 3), (5, 6)], vec![(3, 5)]));
    assert_eq!(
        column_groups(12),
        (vec![(1, 3), (5, 7), (9, 11)], vec![(3, 5), (7, 9)])
    );
    // every interior column once, and strips of a group three columns apart
    for width in 1..40usize {
        let (even, odd) = column_groups(width);
        let mut seen = vec![0; width];
        for group in [&even, &odd] {
            for (a, b) in group.iter() {
                for c in *a..*b {
                    seen[c] += 1;
                }
            }
            for pair in group.windows(2) {
                assert!(pair[0].1 + 2 <= pair[1].0);
            }
        }
        for (c, n) in seen.iter().enumerate() {
            let interior = c >= 1 && c + 1 < width;
            assert_eq!(*n, if interior { 1 } else { 0 });
        }
    }
}

#[test]
fn sweep_visits_pairs_in_a_fixed_order() {
    let mut grid = Grid::<usize>::new(5, 5);
    grid.push((1, 1), 0);
    grid.push((2, 2), 1);
    grid.push((3, 3), 2);
    assert_eq!(collision_pairs(&grid), vec![(0, 1), (1, 0), (1, 2), (2, 1)]);

    let mut grid = Grid::<usize>::new(4, 4);
    grid.push((1, 1), 7);
    grid.push((1, 1), 8);
    grid.push((1, 2), 9);
    // entries in the apron are seen as neighbours but never scanned themselves
    grid.push((0, 0), 3);
    assert_eq!(
        collision_pairs(&grid),
        vec![(7, 3), (7, 8), (7, 9), (8, 3), (8, 7), (8, 9), (9, 7), (9, 8)]
    );
    assert!(collision_pairs(&Grid::<usize>::new(1, 1)).is_empty());
    assert!(collision_pairs(&Grid::<usize>::new(3, 2)).is_empty());
}

#[test]
fn solver_fills_its_grid() {
    let particles = vec![at(ground(), -9.5, -9.5), at(ground(), -8.5, -8.5), at(metal(), -7.5, -7.5)];
    let mut solver = Solver::new(arena(), &particles, &[], 2, 2);
    assert_eq!(solver.size(), 3);
    assert_eq!((solver.grid.width, solver.grid.height), (5, 5));
    assert_eq!(solver.cell_size, ONE);
    assert!(solver.special.is_empty());
    assert_eq!(solver.cell_of((0, 0)), (1, 1));
    assert_eq!(solver.cell_of((3, 1)), (4, 2));
    assert_eq!(solver.cell_of((4, 9)), (4, 4));
    assert_eq!(solver.cell_of((usize::MAX, usize::MAX)), (4, 4));
    solver.populate_grid(&vec![(0, 0), (1, 1), (2, 2)]);
    assert_eq!(solver.grid.cell((1, 1)), vec![0]);
    assert_eq!(solver.grid.cell((2, 2)), vec![1]);
    assert_eq!(solver.grid.cell((3, 3)), vec![2]);
    assert_eq!(solver.collision_pairs(), vec![(0, 1), (1, 0), (1, 2), (2, 1)]);
    // the grid is rebuilt from nothing each time
    solver.populate_grid(&vec![(0, 0), (0, 0), (0, 0)]);
    assert_eq!(solver.grid.cell((1, 1)), vec![0, 1, 2]);
    assert!(solver.grid.cell((2, 2)).is_empty());
}

#[test]
fn crowded_cell_spills() {
    let particles: Vec<Particle> = (0..6).map(|_| ground()).collect();
    let mut solver = Solver::new(arena(), &particles, &[], 1, 1);
    solver.populate_grid(&vec![(0, 0); 6]);
    assert_eq!(solver.grid.cell((1, 1)), vec![0, 1, 2, 3]);
    for cell in solver.grid.grid.iter() {
        assert!(cell.len <= 4);
    }
}

#[test]
fn sticky_binds_once() {
    let mut solver = Solver::new(arena(), &[], &[], 20, 20);
    solver.add_particle(at(projectile_sticky(), 0., 0.));
    solver.add_particle(at(ground(), 0.3, 0.));
    assert_eq!(solver.special, vec![0]);
    // first tick: the two touch, each seen from both sides
    solver.touch(0, 1);
    solver.touch(1, 0);
    assert_eq!(solver.particles[0].kind, Kind::Sticky(0, Some(1)));
    assert_eq!(solver.particles[1].kind, Kind::Plain);
    solver.resolve_special();
    let bond = Link::Rigid { length: ONE, durability: ONE, elasticity: FIVE };
    assert_eq!(solver.connections, vec![(0, 1, bond)]);
    assert_eq!(bond, Link::Rigid {
        length: 1f32.to_bits(),
        durability: 1f32.to_bits(),
        elasticity: 5f32.to_bits(),
    });
    assert_eq!(solver.particles[0].kind, Kind::Sticky(0, None));
    // second tick: they touch again, nothing is added
    solver.touch(0, 1);
    solver.touch(1, 0);
    solver.resolve_special();
    assert_eq!(solver.connections.len(), 1);
    assert_eq!(solver.particles[0].kind, Kind::Sticky(0, None));
}

#[test]
fn ribs_and_springs_are_appended() {
    let particles = vec![ground(), ground(), ground()];
    let mut solver = Solver::new(arena(), &particles, &[], 20, 20);
    solver.add_rib(0, 1, ONE, TEN, FIVE);
    solver.add_spring(2, 1, THREE);
    solver.add_rib(0, 1, ONE, TEN, FIVE);
    let rod = Link::Rigid { length: ONE, durability: TEN, elasticity: FIVE };
    assert_eq!(
        solver.connections,
        vec![(0, 1, rod), (2, 1, Link::Force(THREE)), (0, 1, rod)]
    );
}

#[test]
fn model_is_stamped_with_shifted_indices() {
    let particles = vec![ground(), ground()];
    let links: Vec<Connection> = vec![(0, 1, Link::Force(ONE))];
    let mut solver = Solver::new(arena(), &particles, &links, 20, 20);
    let model = Model {
        center: Vec2 { x: 0, y: 0 },
        particles: vec![metal(), projectile_sticky(), motor(), projectile_sticky()],
        connections: vec![(0, 1, Link::Force(TWO)), (3, 2, Link::Force(THREE))],
    };
    solver.add_model(&model);
    assert_eq!(solver.size(), 6);
    assert_eq!(solver.particles[2], metal());
    assert_eq!(solver.particles[5], projectile_sticky());
    assert_eq!(
        solver.connections,
        vec![(0, 1, Link::Force(ONE)), (2, 3, Link::Force(TWO)), (5, 4, Link::Force(THREE))]
    );
    assert_eq!(solver.special, vec![3, 5]);
    solver.add_model(&model);
    assert_eq!(solver.size(), 10);
    assert_eq!(solver.connections[4], (9, 8, Link::Force(THREE)));
    assert_eq!(solver.special, vec![3, 5, 7, 9]);
}
