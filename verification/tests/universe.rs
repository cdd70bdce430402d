use game_of_life::Universe;

/// A `w` by `h` universe with every cell dead.
fn empty_universe(w: u32, h: u32) -> Universe {
    let mut u = Universe::new(Vec::new());
    u.set_width(w);
    u.set_height(h);
    u
}

fn is_alive(u: &Universe, row: u32, col: u32) -> bool {
    u.get_cells().contains((row * u.width() + col) as usize)
}

fn live_count(u: &Universe) -> usize {
    u.get_cells().count_ones(..)
}

#[test]
fn new_has_default_dimensions() {
    let u = Universe::new(Vec::new());
    assert_eq!(u.width(), 64);
    assert_eq!(u.height(), 64);
    assert_eq!(u.get_cells().len(), 64 * 64);
}

#[test]
fn new_takes_cells_from_seed_blocks() {
    let mut seed = vec![0u32; 128];
    seed[0] = 0b101;
    seed[1] = 1;
    let u = Universe::new(seed);
    assert!(is_alive(&u, 0, 0));
    assert!(!is_alive(&u, 0, 1));
    assert!(is_alive(&u, 0, 2));
    assert!(is_alive(&u, 0, 32));
    assert_eq!(live_count(&u), 3);
}

#[test]
fn new_with_short_seed_leaves_rest_dead() {
    let u = Universe::new(vec![u32::MAX]);
    assert_eq!(live_count(&u), 32);
}

#[test]
fn index_mapping_is_row_major() {
    let mut u = empty_universe(4, 4);
    u.toggle(1, 2);
    assert!(u.get_cells().contains(6));
    assert_eq!(live_count(&u), 1);
}

#[test]
fn toggle_twice_restores_cell() {
    let mut u = empty_universe(4, 4);
    u.toggle(2, 3);
    assert!(is_alive(&u, 2, 3));
    u.toggle(2, 3);
    assert!(!is_alive(&u, 2, 3));
    assert_eq!(live_count(&u), 0);
}

#[test]
fn corner_neighbors_wrap_toroidally() {
    // The three live cells sit across the corner seams, so they are
    // neighbors of (0, 0): three live neighbors make it alive.
    let mut u = empty_universe(5, 5);
    u.set_cells(&[(4, 4), (4, 0), (0, 4)]);
    u.tick();
    assert!(is_alive(&u, 0, 0));
}

#[test]
fn lone_cell_dies() {
    let mut u = empty_universe(3, 3);
    u.set_cells(&[(1, 1)]);
    u.tick();
    assert_eq!(live_count(&u), 0);
}

#[test]
fn single_cell_grid_cell_dies() {
    // On a 1-by-1 torus every neighbor offset wraps back to the cell
    // itself, so a live cell counts eight live neighbors and dies.
    let mut u = empty_universe(1, 1);
    u.set_cells(&[(0, 0)]);
    u.tick();
    assert_eq!(live_count(&u), 0);
}

#[test]
fn block_is_still_life() {
    let mut u = empty_universe(6, 6);
    u.set_cells(&[(2, 2), (2, 3), (3, 2), (3, 3)]);
    let before = u.get_cells().clone();
    u.tick();
    u.tick();
    u.tick();
    assert_eq!(*u.get_cells(), before);
}

#[test]
fn blinker_oscillates_with_period_two() {
    let mut u = empty_universe(7, 7);
    u.set_cells(&[(3, 2), (3, 3), (3, 4)]);
    let horizontal = u.get_cells().clone();
    u.tick();
    assert!(is_alive(&u, 2, 3));
    assert!(is_alive(&u, 3, 3));
    assert!(is_alive(&u, 4, 3));
    assert_eq!(live_count(&u), 3);
    u.tick();
    assert_eq!(*u.get_cells(), horizontal);
}

#[test]
fn set_width_clears_all_cells() {
    let mut u = empty_universe(6, 6);
    u.set_cells(&[(0, 0), (3, 3), (5, 5)]);
    u.toggle(1, 1);
    u.set_width(5);
    assert_eq!(u.width(), 5);
    assert_eq!(u.height(), 6);
    assert_eq!(u.get_cells().len(), 30);
    assert_eq!(live_count(&u), 0);
}

#[test]
fn set_height_clears_all_cells() {
    let mut u = empty_universe(6, 6);
    u.glider(3, 3);
    u.set_height(4);
    assert_eq!(u.width(), 6);
    assert_eq!(u.height(), 4);
    assert_eq!(u.get_cells().len(), 24);
    assert_eq!(live_count(&u), 0);
}

#[test]
fn set_cells_is_idempotent() {
    let pattern: &[(u32, u32)] = &[(0, 1), (2, 2), (2, 2), (4, 0)];
    let mut once = empty_universe(5, 5);
    once.set_cells(pattern);
    let mut twice = empty_universe(5, 5);
    twice.set_cells(pattern);
    twice.set_cells(pattern);
    assert_eq!(once.get_cells(), twice.get_cells());
    assert_eq!(live_count(&once), 3);
}

#[test]
fn tick_is_deterministic() {
    let seed = vec![0x1234_5678u32; 128];
    let mut a = Universe::new(seed.clone());
    let mut b = Universe::new(seed);
    a.tick();
    b.tick();
    assert_eq!(a.get_cells(), b.get_cells());
}

#[test]
fn clear_kills_every_cell() {
    let mut u = empty_universe(5, 5);
    u.set_cells(&[(0, 0), (1, 1), (4, 4)]);
    u.clear();
    assert_eq!(u.width(), 5);
    assert_eq!(u.height(), 5);
    assert_eq!(live_count(&u), 0);
}

#[test]
fn reset_reseeds_from_blocks() {
    let mut u = empty_universe(8, 8);
    u.set_cells(&[(7, 7)]);
    u.reset(vec![u32::MAX, 0]);
    assert_eq!(u.width(), 8);
    assert_eq!(u.height(), 8);
    for row in 0..4 {
        for col in 0..8 {
            assert!(is_alive(&u, row, col));
        }
    }
    for row in 4..8 {
        for col in 0..8 {
            assert!(!is_alive(&u, row, col));
        }
    }
}

#[test]
fn glider_stamps_five_cells() {
    let mut u = empty_universe(8, 8);
    u.glider(3, 3);
    assert!(is_alive(&u, 3, 3));
    assert!(is_alive(&u, 3, 4));
    assert!(is_alive(&u, 2, 2));
    assert!(is_alive(&u, 4, 3));
    assert!(is_alive(&u, 4, 2));
    assert_eq!(live_count(&u), 5);
}

#[test]
fn glider_at_origin_wraps_to_opposite_edges() {
    let mut u = empty_universe(8, 8);
    u.glider(0, 0);
    assert!(is_alive(&u, 0, 0));
    assert!(is_alive(&u, 0, 1));
    assert!(is_alive(&u, 7, 7));
    assert!(is_alive(&u, 1, 0));
    assert!(is_alive(&u, 1, 7));
    assert_eq!(live_count(&u), 5);
}

#[test]
fn pulsar_stamps_forty_eight_cells() {
    let mut u = empty_universe(13, 13);
    u.pulsar(6, 6);
    assert_eq!(live_count(&u), 48);
    assert!(is_alive(&u, 5, 8));
    assert!(is_alive(&u, 5, 4));
    assert!(is_alive(&u, 4, 7));
    assert!(is_alive(&u, 0, 8));
    assert!(is_alive(&u, 12, 8));
    assert!(!is_alive(&u, 6, 6));
}

#[test]
fn pulsar_returns_after_three_ticks() {
    let mut u = empty_universe(17, 17);
    u.pulsar(8, 8);
    let start = u.get_cells().clone();
    u.tick();
    assert_ne!(*u.get_cells(), start);
    u.tick();
    u.tick();
    assert_eq!(*u.get_cells(), start);
}

#[test]
fn cells_exposes_packed_blocks() {
    let mut u = empty_universe(3, 3);
    assert_eq!(u.cells().len(), 1);
    u.toggle(1, 1);
    assert_eq!(u.cells()[0], 1 << 4);
    let mut wide = empty_universe(8, 8);
    assert_eq!(wide.cells().len(), 2);
    wide.toggle(4, 0);
    assert_eq!(wide.cells(), &[0, 1]);
}
