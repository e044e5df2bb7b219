use slide_puzzle::grid::{direction_to, Direction, Grid, GridPos, PuzzleError, EMPTY};
use slide_puzzle::world::{clamp_to, PxPos, Rgb, World, SHADE};

fn cells(g: &Grid) -> Vec<i8> {
    let mut v = Vec::new();
    for y in 0..3 {
        for x in 0..3 {
            v.push(g.cell(GridPos { x, y }));
        }
    }
    v
}

fn solved_world() -> World {
    World::new(100, 10, 1000, 800, 0).unwrap()
}

#[test]
fn solved_grid_is_row_major_with_empty_last() {
    let g = Grid::solved();
    assert_eq!(cells(&g), vec![0, 1, 2, 3, 4, 5, 6, 7, EMPTY]);
    assert!(g.is_solved());
}

#[test]
fn legal_moves_on_solved_grid() {
    let g = Grid::solved();
    assert_eq!(g.legal_move(4), None);
    assert_eq!(g.legal_move(5), Some(Direction::Down));
    assert_eq!(g.legal_move(7), Some(Direction::Right));
    assert_eq!(g.legal_move(0), None);
    assert_eq!(g.legal_move(6), None);
}

#[test]
fn position_of_finds_each_value() {
    let g = Grid::solved();
    assert_eq!(g.position_of(4), GridPos { x: 1, y: 1 });
    assert_eq!(g.position_of(5), GridPos { x: 2, y: 1 });
    assert_eq!(g.position_of(EMPTY), GridPos { x: 2, y: 2 });
}

#[test]
fn apply_move_swaps_tile_and_empty() {
    let mut g = Grid::solved();
    assert_eq!(g.apply_move(7, Direction::Right), Ok(()));
    assert_eq!(cells(&g), vec![0, 1, 2, 3, 4, 5, 6, EMPTY, 7]);
    assert!(!g.is_solved());
}

#[test]
fn reverse_move_restores_grid() {
    let mut g = Grid::solved();
    assert_eq!(g.apply_move(5, Direction::Down), Ok(()));
    assert_eq!(g.legal_move(5), Some(Direction::Up));
    assert_eq!(g.apply_move(5, Direction::Up), Ok(()));
    assert_eq!(cells(&g), vec![0, 1, 2, 3, 4, 5, 6, 7, EMPTY]);
    assert!(g.is_solved());
}

#[test]
fn illegal_move_is_refused_without_change() {
    let mut g = Grid::solved();
    assert_eq!(g.apply_move(4, Direction::Down), Err(PuzzleError::IllegalMove));
    assert_eq!(g.apply_move(7, Direction::Left), Err(PuzzleError::IllegalMove));
    assert_eq!(cells(&g), vec![0, 1, 2, 3, 4, 5, 6, 7, EMPTY]);
}

#[test]
fn zero_shuffle_steps_leave_grid_solved() {
    let g = Grid::shuffled(0).unwrap();
    assert!(g.is_solved());
    assert_eq!(cells(&g), vec![0, 1, 2, 3, 4, 5, 6, 7, EMPTY]);
}

#[test]
fn negative_shuffle_steps_are_refused() {
    assert!(matches!(Grid::shuffled(-1), Err(PuzzleError::ConfigurationError)));
}

#[test]
fn shuffled_grid_holds_each_value_once() {
    for steps in [1i64, 2, 7, 50, 200] {
        let g = Grid::shuffled(steps).unwrap();
        let mut v = cells(&g);
        v.sort();
        assert_eq!(v, vec![EMPTY, 0, 1, 2, 3, 4, 5, 6, 7]);
    }
}

#[test]
fn one_shuffle_step_leaves_grid_unsolved() {
    for _ in 0..20 {
        let g = Grid::shuffled(1).unwrap();
        assert!(!g.is_solved());
    }
}

#[test]
fn shuffle_candidates_skip_previous_cell() {
    let g = Grid::solved();
    let mut all = g.shuffle_candidates(None);
    all.sort_by_key(|p| (p.y, p.x));
    assert_eq!(all, vec![GridPos { x: 2, y: 1 }, GridPos { x: 1, y: 2 }]);
    let some = g.shuffle_candidates(Some(GridPos { x: 2, y: 1 }));
    assert_eq!(some, vec![GridPos { x: 1, y: 2 }]);
    let centre = {
        let mut g = Grid::solved();
        g.apply_move(5, Direction::Down).unwrap();
        g.apply_move(4, Direction::Right).unwrap();
        g
    };
    assert_eq!(centre.position_of(EMPTY), GridPos { x: 1, y: 1 });
    assert_eq!(centre.shuffle_candidates(None).len(), 4);
    let three = centre.shuffle_candidates(Some(GridPos { x: 2, y: 1 }));
    assert_eq!(three.len(), 3);
    assert!(!three.contains(&GridPos { x: 2, y: 1 }));
}

#[test]
fn shuffle_step_slides_tile_and_reports_vacated_cell() {
    let mut g = Grid::solved();
    let vacated = g.shuffle_step(None, GridPos { x: 1, y: 2 });
    assert_eq!(vacated, GridPos { x: 2, y: 2 });
    assert_eq!(cells(&g), vec![0, 1, 2, 3, 4, 5, 6, EMPTY, 7]);
    let next = g.shuffle_candidates(Some(vacated));
    assert!(!next.contains(&vacated));
}

#[test]
fn shuffle_never_undoes_previous_step() {
    for _ in 0..20 {
        let mut g = Grid::solved();
        let mut last: Option<GridPos> = None;
        for _ in 0..30 {
            let cands = g.shuffle_candidates(last);
            if let Some(l) = last {
                assert!(!cands.contains(&l));
            }
            let from = cands[cands.len() - 1];
            last = Some(g.shuffle_step(last, from));
        }
    }
}

#[test]
fn single_swaps_of_solved_grid_are_unsolved() {
    let mut g = Grid::solved();
    g.apply_move(7, Direction::Right).unwrap();
    assert!(!g.is_solved());
    let mut h = Grid::solved();
    h.apply_move(5, Direction::Down).unwrap();
    assert!(!h.is_solved());
}

#[test]
fn direction_between_cells() {
    let a = GridPos { x: 1, y: 1 };
    assert_eq!(direction_to(a, GridPos { x: 0, y: 1 }), Some(Direction::Left));
    assert_eq!(direction_to(a, GridPos { x: 2, y: 1 }), Some(Direction::Right));
    assert_eq!(direction_to(a, GridPos { x: 1, y: 0 }), Some(Direction::Up));
    assert_eq!(direction_to(a, GridPos { x: 1, y: 2 }), Some(Direction::Down));
    assert_eq!(direction_to(a, GridPos { x: 2, y: 2 }), None);
    assert_eq!(direction_to(a, a), None);
    assert_eq!(Direction::Left.step_x(), -1);
    assert_eq!(Direction::Down.step_y(), 1);
    assert_eq!(Direction::Up.step_x(), 0);
}

#[test]
fn world_rejects_bad_configuration() {
    assert!(matches!(World::new(0, 10, 1000, 800, 0), Err(PuzzleError::ConfigurationError)));
    assert!(matches!(World::new(100, 10, 1000, 800, -3), Err(PuzzleError::ConfigurationError)));
}

#[test]
fn world_with_no_shuffle_is_solved_at_once() {
    let mut w = solved_world();
    assert!(w.playing);
    assert!(w.grid.is_solved());
    assert!(w.check_win());
    assert!(!w.playing);
}

#[test]
fn grid_to_pixel_mapping() {
    let w = solved_world();
    assert_eq!(w.center, PxPos { x: 450, y: 350 });
    assert_eq!(w.grid_pos_to_px(0, 0), PxPos { x: 340, y: 240 });
    assert_eq!(w.grid_pos_to_px(1, 1), PxPos { x: 450, y: 350 });
    assert_eq!(w.grid_pos_to_px(2, 1), PxPos { x: 560, y: 350 });
    assert_eq!(
        World::m_grid_pos_to_px(20, 4, PxPos { x: 100, y: -7 }, 2, 0),
        PxPos { x: 124, y: -31 }
    );
    assert_eq!(w.get_px_from_grid(7), PxPos { x: 450, y: 460 });
    assert_eq!(w.get_grid_pos(7), GridPos { x: 1, y: 2 });
    assert_eq!(World::m_get_grid_pos(&w.grid, EMPTY), GridPos { x: 2, y: 2 });
    assert_eq!(w.targets[0], PxPos { x: 340, y: 240 });
    assert_eq!(w.targets[7], PxPos { x: 450, y: 460 });
}

#[test]
fn shuffled_world_targets_match_cells() {
    let w = World::new(100, 10, 1000, 800, 40).unwrap();
    for t in 0..8usize {
        assert_eq!(w.targets[t], w.get_px_from_grid(t));
    }
}

#[test]
fn available_moves_in_world() {
    let w = solved_world();
    assert_eq!(w.get_available_move(4), None);
    assert_eq!(w.get_available_move(5), Some(Direction::Down));
    assert_eq!(w.get_available_move(7), Some(Direction::Right));
}

#[test]
fn drag_past_midpoint_commits_move() {
    let mut w = solved_world();
    w.press(7, 10, 20);
    assert_eq!(w.grabbed_piece, Some(7));
    assert_eq!(w.available_move, Some(Direction::Right));
    assert_eq!(w.grab_offset, PxPos { x: 10, y: 20 });
    assert_eq!(w.drag(540, 999), Some(PxPos { x: 530, y: 460 }));
    w.release();
    assert_eq!(w.grabbed_piece, None);
    assert_eq!(w.grid.cell(GridPos { x: 2, y: 2 }), 7);
    assert_eq!(w.grid.cell(GridPos { x: 1, y: 2 }), EMPTY);
    assert_eq!(w.targets[7], PxPos { x: 560, y: 460 });
    assert!(!w.check_win());
    assert!(w.playing);
}

#[test]
fn drag_short_of_midpoint_reverts() {
    let mut w = solved_world();
    w.press(7, 10, 20);
    assert_eq!(w.drag(490, 0), Some(PxPos { x: 480, y: 460 }));
    w.release();
    assert_eq!(w.grabbed_piece, None);
    assert!(w.grid.is_solved());
    assert_eq!(w.targets[7], PxPos { x: 450, y: 460 });
}

#[test]
fn drag_exactly_at_midpoint_reverts() {
    let mut w = solved_world();
    w.press(7, 0, 0);
    assert_eq!(w.drag(505, 0), Some(PxPos { x: 505, y: 460 }));
    w.release();
    assert!(w.grid.is_solved());
    w.press(7, 0, 0);
    w.drag(506, 0);
    w.release();
    assert_eq!(w.grid.cell(GridPos { x: 2, y: 2 }), 7);
}

#[test]
fn drag_is_clamped_to_segment() {
    let mut w = solved_world();
    w.press(7, 0, 0);
    assert_eq!(w.drag(5000, 5000), Some(PxPos { x: 560, y: 460 }));
    assert_eq!(w.drag(-5000, 0), Some(PxPos { x: 450, y: 460 }));
    w.press(5, 0, 0);
    assert_eq!(w.drag(0, 10_000), Some(PxPos { x: 560, y: 460 }));
    assert_eq!(w.drag(0, 400), Some(PxPos { x: 560, y: 400 }));
    w.release();
    assert!(w.grid.is_solved());
    assert_eq!(w.targets[5], PxPos { x: 560, y: 350 });
}

#[test]
fn vertical_move_commits() {
    let mut w = solved_world();
    w.press(5, 0, 0);
    w.drag(0, 430);
    w.release();
    assert_eq!(w.grid.cell(GridPos { x: 2, y: 2 }), 5);
    assert_eq!(w.targets[5], PxPos { x: 560, y: 460 });
    w.press(5, 0, 0);
    assert_eq!(w.available_move, Some(Direction::Up));
    w.drag(0, 360);
    w.release();
    assert!(w.grid.is_solved());
    assert_eq!(w.targets[5], PxPos { x: 560, y: 350 });
}

#[test]
fn blocked_tile_stays_on_its_cell() {
    let mut w = solved_world();
    w.press(4, 3, 3);
    assert_eq!(w.available_move, None);
    assert_eq!(w.grab_offset, PxPos { x: 0, y: 0 });
    assert_eq!(w.drag(900, 900), Some(PxPos { x: 450, y: 350 }));
    w.release();
    assert!(w.grid.is_solved());
    assert_eq!(w.targets[4], PxPos { x: 450, y: 350 });
}

#[test]
fn release_and_drag_without_grab_do_nothing() {
    let mut w = solved_world();
    assert_eq!(w.drag(1, 1), None);
    w.release();
    assert!(w.grid.is_solved());
    assert_eq!(w.targets[7], PxPos { x: 450, y: 460 });
}

#[test]
fn tile_colours_follow_cells() {
    let mut w = solved_world();
    assert_eq!(w.target_color(7), Rgb { r: 0, g: SHADE, b: 0 });
    w.press(7, 0, 0);
    w.drag(600, 0);
    w.release();
    assert_eq!(w.target_color(7), Rgb { r: 200, g: 0, b: 0 });
    assert_eq!(w.target_color(0), Rgb { r: 0, g: 200, b: 0 });
}

#[test]
fn clamp_holds_value_between_bounds() {
    assert_eq!(clamp_to(5, 0, 10), 5);
    assert_eq!(clamp_to(-5, 0, 10), 0);
    assert_eq!(clamp_to(15, 10, 0), 10);
    assert_eq!(clamp_to(3, 10, 0), 3);
}

#[test]
fn one_shuffle_step_slides_five_or_seven() {
    for _ in 0..30 {
        let w = World::new(100, 10, 1000, 800, 1).unwrap();
        let c = cells(&w.grid);
        assert!(
            c == vec![0, 1, 2, 3, 4, EMPTY, 6, 7, 5] || c == vec![0, 1, 2, 3, 4, 5, 6, EMPTY, 7],
            "{:?}",
            c
        );
    }
}

#[test]
fn two_shuffle_steps_reach_one_of_four_grids() {
    let allowed = [
        vec![0, 1, 2, 3, 4, 5, EMPTY, 6, 7],
        vec![0, 1, 2, 3, EMPTY, 5, 6, 4, 7],
        vec![0, 1, 2, 3, EMPTY, 4, 6, 7, 5],
        vec![0, 1, EMPTY, 3, 4, 2, 6, 7, 5],
    ];
    for _ in 0..40 {
        let g = Grid::shuffled(2).unwrap();
        let c = cells(&g);
        assert!(allowed.contains(&c), "{:?}", c);
    }
}

#[test]
fn pointer_inside_tile_window() {
    let w = solved_world();
    assert!(w.pointer_inside(0, 0));
    assert!(w.pointer_inside(100, 100));
    assert!(w.pointer_inside(50, 7));
    assert!(!w.pointer_inside(-1, 50));
    assert!(!w.pointer_inside(50, 101));
}

#[test]
fn check_win_keeps_grab_state() {
    let mut w = solved_world();
    w.press(7, 10, 20);
    w.drag(480, 0);
    assert!(w.check_win());
    assert_eq!(w.grabbed_piece, Some(7));
    assert_eq!(w.available_move, Some(Direction::Right));
    assert_eq!(w.grab_offset, PxPos { x: 10, y: 20 });
}
