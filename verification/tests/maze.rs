use exploration::amatrix::AMatrix;
use exploration::dir::Dir;
use exploration::game::Game;
use exploration::matrix::{Matrix, VMatrix};

const DIRS: [Dir; 4] = [Dir::Up, Dir::Right, Dir::Down, Dir::Left];

#[test]
fn matrix_fill_get_set() {
    let mut m = Matrix::new(4, 3, 7);
    assert_eq!(m.rows, 4);
    assert_eq!(m.cols, 3);
    for r in 0..4 {
        for c in 0..3 {
            assert_eq!(m.get(r, c), 7);
        }
    }
    m.set(2, 1, 42);
    assert_eq!(m.get(2, 1), 42);
    assert_eq!(m.get(1, 2), 7);
    assert_eq!(m.get(2, 0), 7);
}

#[test]
fn matrix_rectangular_layout() {
    // distinct values survive on a non-square grid
    let mut m = Matrix::new(2, 5, 0);
    let mut v = 1;
    for r in 0..2 {
        for c in 0..5 {
            m.set(r, c, v);
            v += 1;
        }
    }
    let mut expect = 1;
    for r in 0..2 {
        for c in 0..5 {
            assert_eq!(m.get(r, c), expect);
            expect += 1;
        }
    }
}

#[test]
fn visited_starts_with_exactly_one_cell() {
    let v = VMatrix::new(9, 9, 4, 4);
    for r in 0..9 {
        for c in 0..9 {
            let expected = if r == 4 && c == 4 { 1 } else { 0 };
            assert_eq!(v.get(r, c), expected);
        }
    }
}

#[test]
fn visited_persists_until_forget() {
    let mut v = VMatrix::new(5, 5, 0, 0);
    v.visit(2, 3);
    assert_ne!(v.get(2, 3), 0);
    v.visit(1, 1);
    v.visit(2, 3);
    v.forget(4, 4);
    assert_ne!(v.get(2, 3), 0);
    v.forget(2, 3);
    assert_eq!(v.get(2, 3), 0);
    // the other discovered cells are untouched
    assert_ne!(v.get(1, 1), 0);
    assert_ne!(v.get(0, 0), 0);
}

#[test]
fn opposite_involution() {
    for d in DIRS {
        assert_eq!(d.opposite().opposite().index(), d.index());
    }
    assert_eq!(Dir::Up.opposite().index(), Dir::Down.index());
    assert_eq!(Dir::Left.opposite().index(), Dir::Right.index());
}

#[test]
fn symmetry_holds_for_many_seeds() {
    for seed in 0..20u64 {
        let m = AMatrix::new_seeded(9, 9, seed, 5);
        for r in 0..9 {
            for c in 0..9 {
                for d in DIRS {
                    if !m.is_open(r, c, d) {
                        if let Some((nr, nc)) = m.get_neighbor(r, c, d) {
                            assert!(!m.is_open(nr, nc, d.opposite()));
                        }
                    }
                }
            }
        }
    }
}

#[test]
fn border_sealed_for_any_seed_and_chance() {
    for &(w, h) in &[(3usize, 3usize), (9, 9), (5, 7), (12, 4)] {
        for chance in [0usize, 3, 5, 10] {
            for seed in 0..5u64 {
                let m = AMatrix::new_seeded(w, h, seed, chance);
                for r in 0..h {
                    for c in 0..w {
                        if r == 0 || r == h - 1 || c == 0 || c == w - 1 {
                            assert_eq!(m.get(r, c), 0);
                            for d in DIRS {
                                assert!(!m.is_open(r, c, d));
                            }
                        }
                    }
                }
            }
        }
    }
}

#[test]
fn zero_chance_leaves_deep_interior_open() {
    for seed in 0..10u64 {
        let m = AMatrix::new_seeded(9, 9, seed, 0);
        for r in 2..7 {
            for c in 2..7 {
                assert_eq!(m.get(r, c), 0b1111);
                for d in DIRS {
                    assert!(m.is_open(r, c, d));
                }
            }
        }
    }
}

#[test]
fn block_and_unblock_mirror_on_neighbor() {
    let mut m = AMatrix::new_seeded(9, 9, 1, 0);
    m.block(4, 4, Dir::Right);
    assert!(!m.is_open(4, 4, Dir::Right));
    assert!(!m.is_open(4, 5, Dir::Left));
    m.unblock(4, 4, Dir::Right);
    assert!(m.is_open(4, 4, Dir::Right));
    assert!(m.is_open(4, 5, Dir::Left));
}

#[test]
fn block_all_seals_cell_and_unblock_all_reopens() {
    let mut m = AMatrix::new_seeded(9, 9, 2, 0);
    m.block_all(4, 4);
    assert_eq!(m.get(4, 4), 0);
    for d in DIRS {
        assert!(!m.is_open(4, 4, d));
    }
    m.unblock_all(4, 4);
    for d in DIRS {
        assert!(m.is_open(4, 4, d));
    }
}

#[test]
fn masks_only_lose_bits_during_generation() {
    for seed in 0..10u64 {
        let m = AMatrix::new_seeded(9, 9, seed, 10);
        for r in 0..9 {
            for c in 0..9 {
                assert!(m.get(r, c) < 16);
            }
        }
    }
}

#[test]
fn random_cell_is_interior() {
    let mut m = AMatrix::new_seeded(9, 9, 3, 5);
    for _ in 0..50 {
        let (r, c) = m.random_cell();
        assert!((1..8).contains(&r));
        assert!((1..8).contains(&c));
    }
}

#[test]
fn explorer_start_is_open_after_construction() {
    let game = Game::new(20, 20, 9);
    assert_eq!(game.vars.hero_pos_x, 40);
    assert_eq!(game.vars.hero_pos_y, 40);
    // start cell (4, 4): all four directions open, whatever the seed did
    for d in DIRS {
        assert!(game.vars.map.is_open(4, 4, d));
    }
    assert_eq!(game.vars.map.get(4, 4), 0b1111);
}

#[test]
fn visit_room_marks_hero_cell() {
    let mut game = Game::new(20, 20, 9);
    assert_ne!(game.vars.visit_map.get(4, 4), 0);
    game.vars.hero_pos_x = 49;
    assert!(game.vars.hero_in_bounds());
    game.vars.visit_room();
    assert_ne!(game.vars.visit_map.get(4, 5), 0);
}

#[test]
fn zero_chance_grid_is_seed_independent() {
    let a = AMatrix::new_seeded(9, 9, 11, 0);
    let b = AMatrix::new_seeded(9, 9, 987654, 0);
    for r in 0..9 {
        for c in 0..9 {
            assert_eq!(a.get(r, c), b.get(r, c));
        }
    }
}

#[test]
fn zero_chance_ring_cells_close_exactly_their_border_walls() {
    let m = AMatrix::new_seeded(9, 9, 5, 0);
    // beside the top-left corner: only the walls toward non-border cells open
    assert!(!m.is_open(1, 1, Dir::Up));
    assert!(!m.is_open(1, 1, Dir::Left));
    assert!(m.is_open(1, 1, Dir::Right));
    assert!(m.is_open(1, 1, Dir::Down));
    // beside the top border only: three walls open
    assert!(!m.is_open(1, 4, Dir::Up));
    assert!(m.is_open(1, 4, Dir::Left));
    assert!(m.is_open(1, 4, Dir::Right));
    assert!(m.is_open(1, 4, Dir::Down));
    // on a 3x3 grid the single interior cell has every neighbor on the ring
    let tiny = AMatrix::new_seeded(3, 3, 0, 0);
    assert_eq!(tiny.get(1, 1), 0);
}

#[test]
fn carve_step_high_draw_changes_nothing() {
    let mut m = AMatrix::new_seeded(9, 9, 21, 5);
    let mut snapshot = Vec::new();
    for r in 0..9 {
        for c in 0..9 {
            snapshot.push(m.get(r, c));
        }
    }
    m.carve_step(4, 4, 5, 3);
    m.carve_step(3, 3, 9, 0);
    let mut i = 0;
    for r in 0..9 {
        for c in 0..9 {
            assert_eq!(m.get(r, c), snapshot[i]);
            i += 1;
        }
    }
}

#[test]
fn carve_step_low_draw_closes_exactly_the_chosen_pattern() {
    // chance 0 grid, then force the chance up so a low draw carves
    let mut m = AMatrix::new_seeded(9, 9, 3, 0);
    m.block_chance = 10;
    m.carve_step(4, 4, 0, 0);
    assert!(!m.is_open(4, 4, Dir::Left));
    assert!(!m.is_open(4, 3, Dir::Right));
    assert!(m.is_open(4, 4, Dir::Up));
    assert!(m.is_open(4, 4, Dir::Down));
    assert!(m.is_open(4, 4, Dir::Right));

    let mut m2 = AMatrix::new_seeded(9, 9, 3, 0);
    m2.block_chance = 10;
    m2.carve_step(4, 4, 9, 4);
    assert!(!m2.is_open(4, 4, Dir::Up));
    assert!(!m2.is_open(4, 4, Dir::Down));
    assert!(!m2.is_open(3, 4, Dir::Down));
    assert!(!m2.is_open(5, 4, Dir::Up));
    assert!(m2.is_open(4, 4, Dir::Left));
    assert!(m2.is_open(4, 4, Dir::Right));
}

#[test]
fn block_random_skips_a_fully_walled_cell() {
    let mut m = AMatrix::new_seeded(9, 9, 13, 10);
    m.block_all(4, 4);
    let mut snapshot = Vec::new();
    for r in 0..9 {
        for c in 0..9 {
            snapshot.push(m.get(r, c));
        }
    }
    for _ in 0..20 {
        m.block_random(4, 4);
    }
    let mut i = 0;
    for r in 0..9 {
        for c in 0..9 {
            assert_eq!(m.get(r, c), snapshot[i]);
            i += 1;
        }
    }
}
