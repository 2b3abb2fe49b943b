use game_of_life::{Cell, Universe};

fn grid(width: u32, height: u32, alive: &[(u32, u32)]) -> Universe {
    let mut cells = vec![Cell::Dead; (width * height) as usize];
    for &(r, c) in alive {
        cells[(r * width + c) as usize] = Cell::Alive;
    }
    Universe::from_cells(width, height, cells).unwrap()
}

fn alive_positions(u: &Universe) -> Vec<(u32, u32)> {
    let mut out = Vec::new();
    for r in 0..u.height() {
        for c in 0..u.width() {
            if u.cells()[(r * u.width() + c) as usize] == Cell::Alive {
                out.push((r, c));
            }
        }
    }
    out
}

#[test]
fn neighbor_count_bounds() {
    let empty = grid(4, 4, &[]);
    let full = grid(
        3,
        3,
        &[
            (0, 0),
            (0, 1),
            (0, 2),
            (1, 0),
            (1, 1),
            (1, 2),
            (2, 0),
            (2, 1),
            (2, 2),
        ],
    );
    for r in 0..4 {
        for c in 0..4 {
            assert_eq!(empty.live_neighbor_count(r, c), 0);
        }
    }
    for r in 0..3 {
        for c in 0..3 {
            // on a full 3x3 torus every cell sees the maximum of 8
            assert_eq!(full.live_neighbor_count(r, c), 8);
        }
    }
}

#[test]
fn neighbor_count_wraps_around_edges() {
    // a single live cell at the origin is a neighbor of all four corners
    let u = grid(4, 4, &[(0, 0)]);
    assert_eq!(u.live_neighbor_count(3, 3), 1);
    assert_eq!(u.live_neighbor_count(0, 3), 1);
    assert_eq!(u.live_neighbor_count(3, 0), 1);
    assert_eq!(u.live_neighbor_count(1, 1), 1);
    // explicit opposite-edge indexing gives the same neighbors: the cells
    // adjacent to (0, 0) by wrap-around are exactly those adjacent to the
    // far corner's successor ring
    assert_eq!(u.live_neighbor_count(0, 0), 0);
    let v = grid(4, 4, &[(3, 3)]);
    assert_eq!(v.live_neighbor_count(0, 0), 1);
    assert_eq!(v.live_neighbor_count(2, 2), 1);
    assert_eq!(v.live_neighbor_count(3, 3), 0);
}

#[test]
fn rule_table_is_exhaustive() {
    // an isolated cell surrounded by n live neighbors, checked for every n
    // in 0..=8 and both states of the middle cell, on a 3x3 torus the
    // center's neighbors are the eight other cells
    let ring = [(0u32, 0u32), (0, 1), (0, 2), (1, 0), (1, 2), (2, 0), (2, 1), (2, 2)];
    for n in 0..=8usize {
        for &center_alive in &[false, true] {
            let mut alive: Vec<(u32, u32)> = ring[..n].to_vec();
            if center_alive {
                alive.push((1, 1));
            }
            let mut u = grid(3, 3, &alive);
            assert_eq!(u.live_neighbor_count(1, 1), n as u8);
            u.tick();
            let next = u.cells()[(1 * 3 + 1) as usize];
            let expected = if center_alive {
                if n == 2 || n == 3 {
                    Cell::Alive
                } else {
                    Cell::Dead
                }
            } else if n == 3 {
                Cell::Alive
            } else {
                Cell::Dead
            };
            assert_eq!(next, expected, "state alive={center_alive} n={n}");
        }
    }
}

#[test]
fn tick_reads_only_the_frozen_generation() {
    // horizontal blinker: updating in scan order would first revive (1, 2)
    // and then see it while judging (2, 1), keeping (2, 1) alive; the frozen
    // snapshot kills (2, 1)
    let mut u = grid(5, 5, &[(2, 1), (2, 2), (2, 3)]);
    u.tick();
    assert_eq!(u.cells()[(2 * 5 + 1) as usize], Cell::Dead);
    assert_eq!(alive_positions(&u), vec![(1, 2), (2, 2), (3, 2)]);
}

#[test]
fn block_still_life_is_unchanged() {
    let mut u = grid(5, 5, &[(1, 1), (1, 2), (2, 1), (2, 2)]);
    let before = u.cells().clone();
    u.tick();
    assert_eq!(u.cells(), &before);
    u.tick();
    assert_eq!(u.cells(), &before);
}

#[test]
fn blinker_oscillates_with_period_two() {
    let mut u = grid(5, 5, &[(2, 1), (2, 2), (2, 3)]);
    u.tick();
    // rotated 90 degrees after one tick
    assert_eq!(alive_positions(&u), vec![(1, 2), (2, 2), (3, 2)]);
    u.tick();
    // back to the original orientation after two
    assert_eq!(alive_positions(&u), vec![(2, 1), (2, 2), (2, 3)]);
}

#[test]
fn new_seeds_the_fixed_pattern() {
    let u = Universe::new();
    assert_eq!(u.width(), 64);
    assert_eq!(u.height(), 64);
    assert_eq!(u.cells().len(), 4096);
    assert_eq!(u.cells()[0], Cell::Alive);
    assert_eq!(u.cells()[1], Cell::Dead);
    assert_eq!(u.cells()[7], Cell::Alive);
    assert_eq!(u.cells()[9], Cell::Dead);
    for i in 0..4096usize {
        let expected = if i % 2 == 0 || i % 7 == 0 {
            Cell::Alive
        } else {
            Cell::Dead
        };
        assert_eq!(u.cells()[i], expected, "cell {i}");
    }
}

#[test]
fn render_draws_one_glyph_per_cell() {
    let u = grid(2, 2, &[(0, 0), (1, 1)]);
    assert_eq!(u.render(), "◼◻\n◻◼\n");
    let empty = grid(3, 1, &[]);
    assert_eq!(empty.render(), "◻◻◻\n");
}

#[test]
fn render_has_height_lines_of_width_glyphs() {
    let u = Universe::new();
    let text = u.render();
    assert!(text.ends_with('\n'));
    let lines: Vec<&str> = text.split_terminator('\n').collect();
    assert_eq!(lines.len(), 64);
    for line in lines {
        assert_eq!(line.chars().count(), 64);
        assert!(line.chars().all(|ch| ch == '◻' || ch == '◼'));
    }
}

#[test]
fn from_cells_rejects_mismatched_sizes() {
    assert!(Universe::from_cells(0, 4, Vec::new()).is_none());
    assert!(Universe::from_cells(4, 0, Vec::new()).is_none());
    assert!(Universe::from_cells(2, 2, vec![Cell::Dead; 3]).is_none());
    assert!(Universe::from_cells(2, 2, vec![Cell::Dead; 5]).is_none());
    assert!(Universe::from_cells(2, 2, vec![Cell::Dead; 4]).is_some());
    assert!(Universe::from_cells(u32::MAX, u32::MAX, Vec::new()).is_none());
}

#[test]
fn tick_keeps_dimensions_and_length() {
    let mut u = Universe::new();
    for _ in 0..3 {
        u.tick();
        assert_eq!(u.width(), 64);
        assert_eq!(u.height(), 64);
        assert_eq!(u.cells().len(), 4096);
    }
}
