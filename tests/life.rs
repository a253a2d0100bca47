use life::grid::Grid;
use life::history::{detect_loop, History};
use life::render::render;
use life::rules::{advance, count_neighbors, iterate_board};
use life::schedule::{check_dimensions, fitting_height, reserved_lines, ConfigError, Pacer, Simulation, StepOutcome};
use life::stats::{append_decimal, print_stats};

fn grid_with(width: usize, height: usize, live: &[(usize, usize)]) -> Grid {
    let mut g = Grid::new(width, height);
    for &(x, y) in live {
        g.set(x, y, true);
    }
    g
}

fn live_cells(g: &Grid) -> Vec<(usize, usize)> {
    let mut out = Vec::new();
    for y in 0..g.height() {
        for x in 0..g.width() {
            if g.get(x, y) {
                out.push((x, y));
            }
        }
    }
    out
}

#[test]
fn advance_twice_gives_same_successor() {
    let g = grid_with(6, 5, &[(0, 0), (1, 0), (2, 1), (3, 3), (4, 3), (5, 4), (1, 2)]);
    let a = advance(&g);
    let b = advance(&g);
    assert_eq!(a.fingerprint(), b.fingerprint());
    assert_eq!(a.width(), 6);
    assert_eq!(a.height(), 5);
    assert_eq!(g.fingerprint(), grid_with(6, 5, &[(0, 0), (1, 0), (2, 1), (3, 3), (4, 3), (5, 4), (1, 2)]).fingerprint());
}

#[test]
fn random_grids_advance_deterministically() {
    for _ in 0..20 {
        let g = Grid::random(7, 4);
        assert_eq!(advance(&g).fingerprint(), advance(&g).fingerprint());
    }
}

#[test]
fn all_dead_stays_dead() {
    let g = Grid::new(3, 3);
    let next = advance(&g);
    assert!(live_cells(&next).is_empty());
    assert_eq!(next.width(), 3);
    assert_eq!(next.height(), 3);
}

#[test]
fn lonely_cell_dies() {
    let g = grid_with(3, 3, &[(1, 1)]);
    assert_eq!(count_neighbors(&g, 1, 1), 0);
    assert!(live_cells(&advance(&g)).is_empty());
}

#[test]
fn birth_needs_exactly_three() {
    let g = grid_with(3, 3, &[(0, 0), (2, 0), (0, 2)]);
    assert_eq!(count_neighbors(&g, 1, 1), 3);
    let next = advance(&g);
    assert!(next.get(1, 1));
    let crowded = grid_with(3, 3, &[(0, 0), (2, 0), (0, 2), (2, 2)]);
    assert_eq!(count_neighbors(&crowded, 1, 1), 4);
    assert!(!advance(&crowded).get(1, 1));
}

#[test]
fn overcrowded_cell_dies() {
    let g = grid_with(3, 3, &[(1, 1), (0, 0), (2, 0), (0, 2), (2, 2)]);
    assert!(!advance(&g).get(1, 1));
}

#[test]
fn corner_and_edge_candidate_counts() {
    let mut full = Grid::new(4, 4);
    for y in 0..4 {
        for x in 0..4 {
            full.set(x, y, true);
        }
    }
    assert_eq!(count_neighbors(&full, 0, 0), 3);
    assert_eq!(count_neighbors(&full, 3, 0), 3);
    assert_eq!(count_neighbors(&full, 0, 3), 3);
    assert_eq!(count_neighbors(&full, 3, 3), 3);
    assert_eq!(count_neighbors(&full, 1, 0), 5);
    assert_eq!(count_neighbors(&full, 0, 2), 5);
    assert_eq!(count_neighbors(&full, 3, 1), 5);
    assert_eq!(count_neighbors(&full, 2, 3), 5);
    assert_eq!(count_neighbors(&full, 1, 1), 8);
}

#[test]
fn no_wrap_around_the_edges() {
    let g = grid_with(4, 4, &[(3, 0), (3, 1), (0, 3), (3, 3)]);
    assert_eq!(count_neighbors(&g, 0, 0), 0);
    assert_eq!(count_neighbors(&g, 0, 1), 0);
    assert_eq!(count_neighbors(&g, 0, 2), 1);
}

#[test]
fn iterate_board_replaces_in_place() {
    let mut g = grid_with(5, 5, &[(2, 1), (2, 2), (2, 3)]);
    iterate_board(&mut g);
    assert_eq!(live_cells(&g), vec![(1, 2), (2, 2), (3, 2)]);
}

#[test]
fn first_occurrences_report_no_cycle() {
    let a = grid_with(3, 3, &[(0, 0)]);
    let b = grid_with(3, 3, &[(1, 0)]);
    let c = grid_with(3, 3, &[(2, 0)]);
    let mut h = History::new();
    assert_eq!(detect_loop(&a, 0, &mut h), None);
    assert_eq!(detect_loop(&b, 1, &mut h), None);
    assert_eq!(detect_loop(&c, 2, &mut h), None);
    assert_eq!(detect_loop(&b, 3, &mut h), Some(1));
    assert_eq!(detect_loop(&b, 4, &mut h), Some(1));
    assert_eq!(detect_loop(&a, 5, &mut h), Some(0));
}

#[test]
fn first_seen_generation_survives_many_others() {
    let mut h = History::new();
    let start = grid_with(4, 4, &[(3, 3)]);
    assert_eq!(detect_loop(&start, 0, &mut h), None);
    let mut gen = 1usize;
    for y in 0..4 {
        for x in 0..4 {
            if (x, y) != (3, 3) {
                let g = grid_with(4, 4, &[(x, y), (3, 3)]);
                assert_eq!(detect_loop(&g, gen, &mut h), None);
                gen += 1;
            }
        }
    }
    assert_eq!(detect_loop(&start, gen, &mut h), Some(0));
}

#[test]
fn equal_cells_but_other_shape_differ() {
    let mut h = History::new();
    let wide = Grid::new(4, 1);
    let tall = Grid::new(2, 2);
    assert_ne!(wide.fingerprint(), tall.fingerprint());
    assert_eq!(detect_loop(&wide, 0, &mut h), None);
    assert_eq!(detect_loop(&tall, 1, &mut h), None);
    assert_eq!(detect_loop(&Grid::new(4, 1), 2, &mut h), Some(0));
    assert_eq!(detect_loop(&Grid::new(2, 2), 3, &mut h), Some(1));
}

#[test]
fn render_glyph_table() {
    let g = grid_with(4, 2, &[(0, 0), (0, 1), (1, 0), (2, 1)]);
    assert_eq!(render(&g), "█▀▄ ");
}

#[test]
fn render_odd_trailing_row() {
    let g = grid_with(3, 3, &[(0, 0), (0, 1), (1, 2), (2, 1)]);
    assert_eq!(render(&g), "█ ▄\n ▀ ");
}

#[test]
fn render_line_counts() {
    for h in 1..8usize {
        let g = Grid::random(5, h);
        let text = render(&g);
        let lines: Vec<&str> = text.split('\n').collect();
        assert_eq!(lines.len(), (h + 1) / 2);
        for line in &lines {
            assert_eq!(line.chars().count(), 5);
            for c in line.chars() {
                assert!(matches!(c, '█' | '▀' | '▄' | ' '));
            }
        }
        if h % 2 == 1 {
            for c in lines[lines.len() - 1].chars() {
                assert!(matches!(c, '▀' | ' '));
            }
        }
    }
}

#[test]
fn render_single_cell() {
    assert_eq!(render(&Grid::new(1, 1)), " ");
    assert_eq!(render(&grid_with(1, 1, &[(0, 0)])), "▀");
}

#[test]
fn blinker_cycle() {
    let vertical = grid_with(5, 5, &[(2, 1), (2, 2), (2, 3)]);
    let mut h = History::new();
    assert_eq!(detect_loop(&vertical, 0, &mut h), None);
    let horizontal = advance(&vertical);
    assert_eq!(live_cells(&horizontal), vec![(1, 2), (2, 2), (3, 2)]);
    assert_ne!(horizontal.fingerprint(), vertical.fingerprint());
    assert_eq!(detect_loop(&horizontal, 1, &mut h), None);
    let back = advance(&horizontal);
    assert_eq!(live_cells(&back), vec![(2, 1), (2, 2), (2, 3)]);
    assert_eq!(back.fingerprint(), vertical.fingerprint());
    assert_eq!(detect_loop(&back, 2, &mut h), Some(0));
}

#[test]
fn blinker_simulation_stops_at_repeat() {
    let vertical = grid_with(5, 5, &[(2, 1), (2, 2), (2, 3)]);
    let mut sim = Simulation::with_grid(vertical, false);
    assert_eq!(sim.step(), StepOutcome::Advanced);
    assert_eq!(sim.step(), StepOutcome::Advanced);
    assert_eq!(sim.generation(), 2);
    assert_eq!(sim.step(), StepOutcome::Looped { loop_start: 0 });
    assert_eq!(sim.generation(), 2);
    assert_eq!(live_cells(sim.grid()), vec![(2, 1), (2, 2), (2, 3)]);
}

#[test]
fn block_is_still_life() {
    let block = grid_with(4, 4, &[(1, 1), (1, 2), (2, 1), (2, 2)]);
    let next = advance(&block);
    assert_eq!(next.fingerprint(), block.fingerprint());
    let mut h = History::new();
    assert_eq!(detect_loop(&block, 0, &mut h), None);
    assert_eq!(detect_loop(&next, 1, &mut h), Some(0));
}

#[test]
fn infinite_mode_restarts() {
    let block = grid_with(4, 4, &[(1, 1), (1, 2), (2, 1), (2, 2)]);
    let mut sim = Simulation::with_grid(block, true);
    assert_eq!(sim.step(), StepOutcome::Advanced);
    assert_eq!(sim.generation(), 1);
    assert_eq!(sim.step(), StepOutcome::Restarted { loop_start: 0 });
    assert_eq!(sim.generation(), 0);
    assert_eq!(sim.grid().width(), 4);
    assert_eq!(sim.grid().height(), 4);
    assert_eq!(sim.step(), StepOutcome::Advanced);
    assert_eq!(sim.generation(), 1);
}

#[test]
fn new_simulation_has_requested_size() {
    let sim = Simulation::new(7, 3, false);
    assert_eq!(sim.generation(), 0);
    assert_eq!(sim.grid().width(), 7);
    assert_eq!(sim.grid().height(), 3);
    assert_eq!(sim.frame().split('\n').count(), 2);
}

#[test]
fn stats_lines() {
    let g = grid_with(4, 4, &[(1, 1), (1, 2), (2, 1)]);
    assert_eq!(print_stats(&g, 0), vec!["Generation: 0".to_string(), "Population: 3".to_string()]);
    assert_eq!(print_stats(&Grid::new(2, 2), 1207), vec!["Generation: 1207".to_string(), "Population: 0".to_string()]);
    let sim = Simulation::with_grid(g, false);
    assert_eq!(sim.stats(), vec!["Generation: 0".to_string(), "Population: 3".to_string()]);
}

#[test]
fn decimal_formatting() {
    let mut s = String::from("n=");
    append_decimal(&mut s, 0);
    assert_eq!(s, "n=0");
    let mut s = String::new();
    append_decimal(&mut s, 10);
    assert_eq!(s, "10");
    let mut s = String::new();
    append_decimal(&mut s, usize::MAX);
    assert_eq!(s, usize::MAX.to_string());
}

#[test]
fn population_counts_live_cells() {
    assert_eq!(grid_with(3, 2, &[(0, 0), (2, 1)]).population(), 2);
    assert_eq!(Grid::new(3, 2).population(), 0);
}

#[test]
fn dimension_errors() {
    assert_eq!(check_dimensions(0, 5), Err(ConfigError::ZeroWidth));
    assert_eq!(check_dimensions(5, 0), Err(ConfigError::ZeroHeight));
    assert_eq!(check_dimensions(usize::MAX, 2), Err(ConfigError::TooLarge));
    assert_eq!(check_dimensions(80, 40), Ok((80, 40)));
}

#[test]
fn reserved_line_table() {
    assert_eq!(reserved_lines(false, false, false, false), 6);
    assert_eq!(reserved_lines(false, true, false, false), 5);
    assert_eq!(reserved_lines(false, false, false, true), 7);
    assert_eq!(reserved_lines(true, true, false, true), 3);
    assert_eq!(reserved_lines(true, false, true, false), 0);
    assert_eq!(reserved_lines(false, true, true, false), 3);
}

#[test]
fn fitting_height_values() {
    assert_eq!(fitting_height(24, 6), Some(36));
    assert_eq!(fitting_height(6, 6), None);
    assert_eq!(fitting_height(2, 6), None);
}

#[test]
fn pacer_deadlines() {
    let mut p = Pacer::new(1_000, 50);
    assert!(p.is_throttled());
    assert_eq!(p.deadline, 1_050);
    assert_eq!(p.wait_at(1_020), 30);
    assert_eq!(p.wait_at(1_050), 0);
    assert_eq!(p.wait_at(2_000), 0);
    p.advance();
    assert_eq!(p.deadline, 1_100);
    assert!(!Pacer::new(0, 0).is_throttled());
}

#[test]
fn draws_fill_column_by_column() {
    let draws = vec![true, false, false, false, true, true];
    let g = Grid::from_draws(3, 2, &draws);
    assert_eq!(g.width(), 3);
    assert_eq!(g.height(), 2);
    for x in 0..3 {
        for y in 0..2 {
            assert_eq!(g.get(x, y), draws[x * 2 + y]);
        }
    }
    assert_eq!(live_cells(&g), vec![(0, 0), (2, 0), (2, 1)]);
}

#[test]
fn frame_newline_count() {
    for h in 1..9usize {
        let text = render(&Grid::new(4, h));
        assert_eq!(text.chars().filter(|&c| c == '\n').count(), (h + 1) / 2 - 1);
    }
}
