use smog::assembly::{
    adjacent, bake_layers, count_links, link_pairs, sample_pairs, GameMap, Place, TriangularGrid,
};
use smog::controller::Spawn;
use smog::particle::{ground, metal, Vec2};
use smog::scalar::{ONE, TEN, TWO};
use smog::solver::{Connection, Constraint, Link};

fn bounds() -> (Vec2, Vec2) {
    (Vec2 { x: 0, y: 0 }, Vec2 { x: 4f32.to_bits(), y: 4f32.to_bits() })
}

#[test]
fn triangular_grid_is_stored_by_column() {
    let mut grid = TriangularGrid::<u8>::new(bounds(), 1, 2, 7);
    assert_eq!((grid.width, grid.height), (4, 5));
    assert_eq!(grid.grid, vec![7u8; 20]);
    grid.set((2, 3), 9);
    assert_eq!(*grid.get((2, 3)), 9);
    assert_eq!(grid.grid[2 * 5 + 3], 9);
    assert_eq!(*grid.get((3, 2)), 7);
}

#[test]
fn neighbours_lean_with_the_row() {
    assert_eq!(
        adjacent((4, 3)),
        [(4, 3), (5, 3), (3, 3), (4, 4), (3, 4), (4, 2), (3, 2)]
    );
    assert_eq!(
        adjacent((4, 2)),
        [(4, 2), (5, 2), (3, 2), (5, 3), (4, 3), (5, 1), (4, 1)]
    );
}

#[test]
fn neighbouring_pairs_are_counted_once() {
    let white = [255u8; 4];
    let mut grid = TriangularGrid::<Place>::new(bounds(), 2, 2, None);
    assert_eq!(count_links(&grid), 0);
    // three particles in a row of an odd line, and one above between the first two
    grid.set((1, 1), Some((0, white)));
    grid.set((2, 1), Some((1, white)));
    grid.set((3, 1), Some((2, white)));
    grid.set((1, 2), Some((3, white)));
    // pairs: 0-1, 1-2, 0-3, 1-3
    assert_eq!(count_links(&grid), 4);
    // a particle in the apron is seen from inside but not scanned
    grid.set((0, 1), Some((9, white)));
    assert_eq!(count_links(&grid), 5);
}

#[test]
fn sampled_pairs_are_particle_numbers() {
    let pairs = sample_pairs(500, 7);
    assert_eq!(pairs.len(), 500);
    assert!(pairs.iter().all(|&(i, j)| i < 7 && j < 7));
    // not the argument handed back: over 500 draws each number below 7 turns up
    for n in 0..7 {
        assert!(pairs.iter().any(|&(i, _)| i == n));
    }
    assert!(sample_pairs(0, 0).is_empty());
    assert_eq!(sample_pairs(3, 1), vec![(0, 0); 3]);
}

#[test]
fn pairs_at_a_distance_are_linked() {
    let rod = Link::Rigid { length: ONE, durability: TEN, elasticity: TEN };
    let pairs = vec![(0, 1), (2, 2), (3, 1), (1, 0)];
    let lengths = vec![1.5f32.to_bits(), 0f32.to_bits(), 2f32.to_bits(), f32::NAN.to_bits()];
    let out = link_pairs(&pairs, &lengths, rod);
    assert_eq!(
        out,
        vec![(0, 1, rod.with_length(1.5f32.to_bits())), (3, 1, rod.with_length(TWO))]
    );
    assert_eq!(
        link_pairs(&vec![(4, 5)], &vec![ONE], Link::Force(TEN)),
        vec![(4, 5, Link::Force(TEN))]
    );
}

#[test]
fn layers_are_merged_with_shifted_indices() {
    let f = |x: u32| Link::Force(x);
    let layers: Vec<(Vec<_>, Vec<Connection>)> = vec![
        (vec![ground(), ground()], vec![(0, 1, f(1))]),
        (vec![], vec![]),
        (vec![metal(), metal(), metal()], vec![(2, 0, f(2)), (1, 2, f(3))]),
        (vec![ground()], vec![]),
    ];
    let (particles, connections) = bake_layers(&layers);
    assert_eq!(particles, vec![ground(), ground(), metal(), metal(), metal(), ground()]);
    assert_eq!(connections, vec![(0, 1, f(1)), (4, 2, f(2)), (3, 4, f(3))]);
    let (particles, connections) = bake_layers(&vec![]);
    assert!(particles.is_empty() && connections.is_empty());
}

#[test]
fn map_makes_a_solver_of_its_own_size() {
    let map = GameMap {
        name: "default".to_string(),
        constraint: Constraint::Box(bounds().0, bounds().1),
        particles: vec![ground(), metal()],
        connections: vec![(1, 0, Link::Force(ONE))],
        spawns: vec![Spawn { pos: bounds().0, team: 0 }],
        textures_num: 2,
    };
    let solver = map.solver(4, 4);
    assert_eq!(solver.size(), 2);
    assert_eq!(solver.connections, map.connections);
    assert_eq!(solver.constraint, map.constraint);
    assert_eq!((solver.grid.width, solver.grid.height), (7, 7));
    assert!(solver.special.is_empty());
}
