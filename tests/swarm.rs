use fireflies::particle::{
    Appearance, Motion, Node, ParticleStore, Position, COORD_LIMIT, DIRECTION_SCALE, MAX_SPEED,
};
use fireflies::proximity::{nearest, squared_distance, ProximityIndex};
use fireflies::simulation::{check_config, Config, ConfigError, Simulation};

fn look() -> Appearance {
    Appearance { hue: 20000, saturation: 1000, lightness: 300, alpha: 500, radius: 5000 }
}

fn still(x: i64, y: i64) -> Node {
    Node { pos: Position { x, y }, motion: Motion::Components { vx: 0, vy: 0 }, look: look() }
}

fn moving(x: i64, y: i64, vx: i32, vy: i32) -> Node {
    Node { pos: Position { x, y }, motion: Motion::Components { vx, vy }, look: look() }
}

fn square_and_far() -> Vec<Node> {
    vec![still(0, 0), still(1, 0), still(0, 1), still(10, 10)]
}

fn edges(k: usize) -> Config {
    Config { neighbors: k, draw_edges: true }
}

#[test]
fn four_points_one_neighbour() {
    let sim = Simulation::new(square_and_far(), edges(1)).unwrap();
    // Particle 0 is as close to 1 as to 2, and particle 3 as close to 1 as
    // to 2: the lower index comes first.
    assert_eq!(sim.neighbors_of(0), &vec![1]);
    assert_eq!(sim.neighbors_of(1), &vec![0]);
    assert_eq!(sim.neighbors_of(2), &vec![0]);
    assert_eq!(sim.neighbors_of(3), &vec![1]);
}

#[test]
fn four_points_two_neighbours_in_order() {
    let sim = Simulation::new(square_and_far(), edges(2)).unwrap();
    assert_eq!(sim.neighbors_of(0), &vec![1, 2]);
    assert_eq!(sim.neighbors_of(1), &vec![0, 2]);
    assert_eq!(sim.neighbors_of(2), &vec![0, 1]);
    assert_eq!(sim.neighbors_of(3), &vec![1, 2]);
}

#[test]
fn nearest_orders_by_distance() {
    let nodes = vec![still(0, 0), still(5, 0), still(-2, 0), still(0, 3), still(1, 1)];
    assert_eq!(nearest(&nodes, 4, 0), vec![4, 2, 3, 1]);
    assert_eq!(nearest(&nodes, 0, 0), Vec::<usize>::new());
}

#[test]
fn two_particles_see_each_other() {
    let sim = Simulation::new(vec![still(3, 4), still(-7, 2)], edges(1)).unwrap();
    assert_eq!(sim.neighbors_of(0), &vec![1]);
    assert_eq!(sim.neighbors_of(1), &vec![0]);
}

#[test]
fn equal_positions_do_not_break_the_search() {
    let sim = Simulation::new(vec![still(2, 2), still(2, 2), still(2, 2)], edges(2)).unwrap();
    assert_eq!(sim.neighbors_of(0), &vec![1, 2]);
    assert_eq!(sim.neighbors_of(1), &vec![0, 2]);
    assert_eq!(sim.neighbors_of(2), &vec![0, 1]);
}

#[test]
fn too_many_neighbours_rejected() {
    let r = Simulation::new(vec![still(0, 0), still(1, 0)], edges(2));
    assert!(matches!(r, Err(ConfigError::InvalidConfiguration)));
    let r = Simulation::new(square_and_far(), edges(7));
    assert!(matches!(r, Err(ConfigError::InvalidConfiguration)));
}

#[test]
fn empty_swarm_rejected() {
    let r = Simulation::new(Vec::new(), edges(0));
    assert!(matches!(r, Err(ConfigError::InvalidConfiguration)));
    let r = Simulation::spawn(100, 100, &Vec::new(), edges(0));
    assert!(matches!(r, Err(ConfigError::InvalidConfiguration)));
}

#[test]
fn config_check() {
    assert_eq!(check_config(1, 0), Ok(()));
    assert_eq!(check_config(2500, 2), Ok(()));
    assert_eq!(check_config(2, 2), Err(ConfigError::InvalidConfiguration));
    assert_eq!(check_config(0, 0), Err(ConfigError::InvalidConfiguration));
}

#[test]
fn single_particle_no_neighbours() {
    let sim = Simulation::new(vec![still(9, 9)], edges(0)).unwrap();
    assert_eq!(sim.neighbors_of(0), &Vec::<usize>::new());
}

#[test]
fn spawn_stays_in_region() {
    let motions: Vec<Motion> = (0..1000).map(|_| Motion::random_components()).collect();
    let sim = Simulation::spawn(800, 601, &motions, Config { neighbors: 2, draw_edges: false }).unwrap();
    let nodes = sim.particles();
    assert_eq!(nodes.len(), 1000);
    for n in nodes.iter() {
        assert!(-400 <= n.pos.x && n.pos.x <= 400);
        assert!(-300 <= n.pos.y && n.pos.y <= 300);
    }
    for (n, m) in nodes.iter().zip(motions.iter()) {
        assert_eq!(n.motion, *m);
    }
    // Positions are drawn, not fixed: a thousand of them are not all equal.
    assert!(nodes.iter().any(|n| n.pos != nodes[0].pos));
}

#[test]
fn spawn_empty_region() {
    let motions = vec![Motion::random_components(); 5];
    let sim = Simulation::spawn(0, 1, &motions, edges(4)).unwrap();
    for n in sim.particles().iter() {
        assert_eq!(n.pos, Position { x: 0, y: 0 });
    }
}

#[test]
fn random_draws_in_ranges() {
    let bound = MAX_SPEED * DIRECTION_SCALE;
    let mut seen_distinct = false;
    let first = Appearance::random();
    for _ in 0..200 {
        let a = Appearance::random();
        assert!(10000 <= a.hue && a.hue <= 40000);
        assert_eq!(a.saturation, 1000);
        assert!(100 <= a.lightness && a.lightness <= 500);
        assert!(100 <= a.alpha && a.alpha <= 900);
        assert!(4000 <= a.radius && a.radius <= 7000);
        if a != first {
            seen_distinct = true;
        }
        match Motion::random_components() {
            Motion::Components { vx, vy } => {
                assert!(-bound <= vx && vx <= bound && -bound <= vy && vy <= bound);
            }
            _ => panic!("expected components"),
        }
        match Motion::random_heading(3, -4) {
            Motion::Heading { speed, ux, uy } => {
                assert!(-MAX_SPEED <= speed && speed <= MAX_SPEED);
                assert_eq!((ux, uy), (3, -4));
            }
            _ => panic!("expected a heading"),
        }
    }
    assert!(seen_distinct);
}

#[test]
fn node_new_keeps_place_and_motion() {
    let m = Motion::Heading { speed: 2, ux: 1, uy: 0 };
    let n = Node::new(-5, 8, m);
    assert_eq!(n.pos, Position { x: -5, y: 8 });
    assert_eq!(n.motion, m);
    assert_eq!(n.look.saturation, 1000);
}

#[test]
fn step_zero_changes_nothing() {
    let nodes = vec![moving(1, 2, 3, -4), moving(-10, 7, -1, 0)];
    let mut sim = Simulation::new(nodes.clone(), edges(1)).unwrap();
    sim.step(0);
    assert_eq!(sim.particles(), &nodes);
}

#[test]
fn step_moves_by_velocity() {
    let nodes = vec![
        moving(1, 2, 3, -4),
        Node { pos: Position { x: 0, y: 0 }, motion: Motion::Heading { speed: -3, ux: 5, uy: 7 }, look: look() },
    ];
    let mut sim = Simulation::new(nodes, Config { neighbors: 0, draw_edges: false }).unwrap();
    sim.step(10);
    assert_eq!(sim.particles()[0].pos, Position { x: 31, y: -38 });
    assert_eq!(sim.particles()[1].pos, Position { x: -150, y: -210 });
    assert_eq!(sim.particles()[1].look, look());
}

#[test]
fn two_steps_equal_one() {
    let nodes = vec![
        moving(1, 2, 3, -4),
        Node { pos: Position { x: 9, y: -9 }, motion: Motion::Heading { speed: 5, ux: -2, uy: 1 }, look: look() },
        moving(100, 100, 0, 7),
    ];
    let mut a = Simulation::new(nodes.clone(), edges(2)).unwrap();
    let mut b = Simulation::new(nodes, edges(2)).unwrap();
    a.step(17);
    a.step(25);
    b.step(42);
    assert_eq!(a.particles(), b.particles());
    for i in 0..3 {
        assert_eq!(a.neighbors_of(i), b.neighbors_of(i));
    }
}

#[test]
fn step_rebuilds_table() {
    let nodes = vec![moving(0, 0, 0, 0), moving(10, 0, 0, 0), moving(3, 0, 1, 0)];
    let mut sim = Simulation::new(nodes, edges(1)).unwrap();
    assert_eq!(sim.neighbors_of(0), &vec![2]);
    sim.step(6);
    // Particle 2 now stands at 9, next to particle 1.
    assert_eq!(sim.neighbors_of(0), &vec![2]);
    assert_eq!(sim.neighbors_of(1), &vec![2]);
    assert_eq!(sim.neighbors_of(2), &vec![1]);
}

#[test]
fn rebuild_twice_same_table() {
    let nodes = vec![still(4, 1), still(-3, 3), still(0, 0), still(2, -2), still(4, 1)];
    let mut index = ProximityIndex::new(3);
    assert_eq!(index.len(), 0);
    index.rebuild(&nodes);
    let first: Vec<Vec<usize>> = (0..5).map(|i| index.row(i).clone()).collect();
    index.rebuild(&nodes);
    let second: Vec<Vec<usize>> = (0..5).map(|i| index.row(i).clone()).collect();
    assert_eq!(first, second);
    assert_eq!(index.len(), 5);
    assert_eq!(index.neighbor_count(), 3);
    assert_eq!(first[0], vec![4, 3, 2]);
}

#[test]
fn no_table_without_edges() {
    let sim = Simulation::new(square_and_far(), Config { neighbors: 1, draw_edges: false }).unwrap();
    assert!(!sim.draws_edges());
    assert_eq!(sim.neighbor_count(), 1);
}

#[test]
fn squared_distance_exact() {
    let a = Position { x: 3, y: -4 };
    let b = Position { x: -1, y: 2 };
    assert_eq!(squared_distance(&a, &b), 52);
    let far = Position { x: COORD_LIMIT, y: COORD_LIMIT };
    let near = Position { x: -COORD_LIMIT, y: -COORD_LIMIT };
    let d = 2 * (COORD_LIMIT as i128);
    assert_eq!(squared_distance(&far, &near), 2 * d * d);
}

#[test]
fn step_guard_at_coordinate_limit() {
    let sim = Simulation::new(vec![moving(COORD_LIMIT - 5, 0, 1, 0)], edges(0)).unwrap();
    assert!(sim.can_step(5));
    assert!(!sim.can_step(6));
    assert!(sim.can_step(0));
}

#[test]
fn store_integrates_in_place() {
    let mut store = ParticleStore::from_nodes(vec![moving(0, 0, 2, 3)]);
    assert!(store.can_integrate(4));
    store.integrate(4);
    assert_eq!(store.nodes()[0].pos, Position { x: 8, y: 12 });
    assert_eq!(store.len(), 1);
}
