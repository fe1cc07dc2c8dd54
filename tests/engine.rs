use tetris::game::{is_time_over, level_lines, level_time, Action, PieceFactory, Tetris};
use tetris::piece::Tetrimino;
use tetris::shapes::PieceKind;

fn empty_field() -> Vec<Vec<u8>> {
    vec![vec![0u8; 10]; 16]
}

fn piece(kind: PieceKind, x: isize, y: usize, state: u8) -> Tetrimino {
    Tetrimino { kind, x, y, current_state: state }
}

#[test]
fn catalog_templates() {
    assert_eq!(PieceKind::I.num_states(), 2);
    assert_eq!(PieceKind::O.num_states(), 1);
    assert_eq!(PieceKind::T.num_states(), 4);
    assert_eq!(PieceKind::O.spawn_x(), 5);
    assert_eq!(PieceKind::J.spawn_x(), 4);
    // T, first state: 777. / .7..
    assert_eq!(PieceKind::T.template_value(0, 0, 0), 7);
    assert_eq!(PieceKind::T.template_value(0, 0, 3), 0);
    assert_eq!(PieceKind::T.template_value(0, 1, 1), 7);
    assert_eq!(PieceKind::T.template_value(0, 1, 0), 0);
    // S, first state: .55. / 55..
    assert_eq!(PieceKind::S.template_value(0, 0, 0), 0);
    assert_eq!(PieceKind::S.template_value(0, 0, 2), 5);
    assert_eq!(PieceKind::S.template_value(0, 1, 0), 5);
    // I, second state: a vertical bar in column 1
    for dy in 0..4 {
        assert_eq!(PieceKind::I.template_value(1, dy, 1), 1);
        assert_eq!(PieceKind::I.template_value(1, dy, 0), 0);
    }
    let mut n = 0;
    for dy in 0..4 {
        for dx in 0..4 {
            if PieceKind::L.is_filled(1, dy, dx) {
                n += 1;
            }
        }
    }
    assert_eq!(n, 4);
}

#[test]
fn test_position_bounds_and_collisions() {
    let mut field = empty_field();
    let p = piece(PieceKind::I, 0, 0, 0);
    assert!(p.test_position(&field, 0, 0, 0));
    assert!(p.test_position(&field, 0, 6, 0));
    assert!(!p.test_position(&field, 0, 7, 0));
    assert!(!p.test_position(&field, 0, -1, 0));
    assert!(p.test_position(&field, 0, 0, 15));
    assert!(!p.test_position(&field, 0, 0, 16));
    // the vertical bar uses only column 1 of its template
    assert!(p.test_position(&field, 1, -1, 0));
    assert!(!p.test_position(&field, 1, -2, 0));
    assert!(p.test_position(&field, 1, 8, 12));
    assert!(!p.test_position(&field, 1, 8, 13));
    field[0][3] = 2;
    assert!(!p.test_position(&field, 0, 0, 0));
    assert!(p.test_position(&field, 0, 4, 0));
    assert!(piece(PieceKind::I, 4, 0, 0).test_current_position(&field));
    assert!(!piece(PieceKind::I, 0, 0, 0).test_current_position(&field));
    assert!(!p.test_position(&field, 0, isize::MAX, usize::MAX));
    assert!(!p.test_position(&field, 0, isize::MIN, 0));
}

#[test]
fn change_position_commits_or_keeps() {
    let field = empty_field();
    let mut p = piece(PieceKind::O, 5, 0, 0);
    assert!(p.change_position(&field, 8, 3));
    assert_eq!((p.x, p.y), (8, 3));
    assert!(!p.change_position(&field, 9, 3));
    assert_eq!((p.x, p.y), (8, 3));
}

#[test]
fn rotation_uses_first_fitting_offset() {
    let mut field = empty_field();
    // Block the columns that offsets 0, -1 and +1 would use for the vertical bar.
    field[2][5] = 1;
    field[2][4] = 1;
    field[2][6] = 1;
    let mut p = piece(PieceKind::I, 4, 0, 0);
    assert!(p.rotate(&field));
    assert_eq!(p.current_state, 1);
    assert_eq!(p.x, 2);
    assert_eq!(p.y, 0);
}

#[test]
fn rotation_without_offset_and_cycling() {
    let field = empty_field();
    let mut p = piece(PieceKind::T, 4, 0, 3);
    assert!(p.rotate(&field));
    assert_eq!((p.x, p.y, p.current_state), (4, 0, 0));
    let mut o = piece(PieceKind::O, 5, 0, 0);
    assert!(o.rotate(&field));
    assert_eq!((o.x, o.current_state), (5, 0));
}

#[test]
fn rotation_fails_when_nothing_fits() {
    let mut field = empty_field();
    for x in 0..10 {
        field[1][x] = 3;
    }
    let mut p = piece(PieceKind::I, 4, 0, 0);
    assert!(!p.rotate(&field));
    assert_eq!(p, piece(PieceKind::I, 4, 0, 0));
}

#[test]
fn hard_drop_rests_and_stays() {
    let field = empty_field();
    let mut p = piece(PieceKind::I, 3, 0, 0);
    p.hard_drop(&field);
    assert_eq!((p.x, p.y), (3, 15));
    let y = p.y;
    assert!(!p.change_position(&field, 3, y + 1));
    p.hard_drop(&field);
    assert_eq!(p.y, 15);

    let mut field = empty_field();
    field[10][4] = 6;
    let mut q = piece(PieceKind::O, 4, 0, 0);
    q.hard_drop(&field);
    assert_eq!(q.y, 8);
    assert!(!q.change_position(&field, 4, 9));
}

#[test]
fn new_game_is_empty() {
    let t = Tetris::new();
    assert_eq!(t.game_map, empty_field());
    assert_eq!((t.current_level, t.score, t.nb_lines), (1, 0, 0));
    assert!(t.current_piece.is_none());
}

#[test]
fn single_line_clear() {
    let mut t = Tetris::new();
    t.game_map[15] = vec![1u8; 10];
    t.game_map[14][0] = 2;
    t.check_lines();
    assert_eq!(t.game_map.len(), 16);
    assert_eq!(t.game_map[0], vec![0u8; 10]);
    assert_eq!(t.game_map[15][0], 2);
    assert_eq!(t.score, 1);
    assert_eq!(t.nb_lines, 1);
    assert_eq!(t.current_level, 1);
}

#[test]
fn stacked_lines_clear_in_one_pass() {
    let mut t = Tetris::new();
    t.current_level = 4;
    t.game_map[13][5] = 7;
    t.game_map[14] = vec![2u8; 10];
    t.game_map[15] = vec![3u8; 10];
    t.check_lines();
    assert_eq!(t.score, 8);
    assert_eq!(t.nb_lines, 2);
    assert_eq!(t.game_map[15][5], 7);
    assert_eq!(t.game_map[14], vec![0u8; 10]);
}

#[test]
fn full_field_clear_bonus() {
    let mut t = Tetris::new();
    t.current_level = 3;
    t.score = 5;
    for y in 0..16 {
        t.game_map[y] = vec![4u8; 10];
    }
    t.check_lines();
    assert_eq!(t.score, 5 + 16 * 3 + 1000);
    assert_eq!(t.nb_lines, 16);
    assert_eq!(t.game_map, empty_field());
}

#[test]
fn no_complete_line_changes_nothing() {
    let mut t = Tetris::new();
    t.game_map[15] = vec![1u8; 10];
    t.game_map[15][9] = 0;
    let before = t.game_map.clone();
    t.check_lines();
    assert_eq!(t.game_map, before);
    assert_eq!((t.score, t.nb_lines), (0, 0));
}

#[test]
fn leveling_threshold() {
    let mut t = Tetris::new();
    t.nb_lines = 19;
    t.increase_line();
    assert_eq!((t.nb_lines, t.current_level), (20, 1));
    t.increase_line();
    assert_eq!((t.nb_lines, t.current_level), (21, 2));
}

#[test]
fn level_stays_at_top_of_table() {
    let mut t = Tetris::new();
    t.current_level = 10;
    t.nb_lines = 200;
    t.increase_line();
    assert_eq!((t.nb_lines, t.current_level), (201, 10));
}

#[test]
fn score_saturates() {
    let mut t = Tetris::new();
    t.score = u32::MAX - 1;
    t.update_score(5);
    assert_eq!(t.score, u32::MAX);
    t.score = 10;
    t.update_score(5);
    assert_eq!(t.score, 15);
}

#[test]
fn leveling_tables() {
    assert_eq!(level_time(1), 1000);
    assert_eq!(level_time(9), 221);
    assert_eq!(level_time(10), 190);
    assert_eq!(level_lines(1), 20);
    assert_eq!(level_lines(10), 200);
    for l in 1..10 {
        assert!(level_time(l + 1) < level_time(l));
        assert!(level_lines(l + 1) > level_lines(l));
    }
}

#[test]
fn gravity_interval_elapsed() {
    let mut t = Tetris::new();
    assert!(!is_time_over(&t, 1000));
    assert!(is_time_over(&t, 1001));
    t.current_level = 8;
    assert!(!is_time_over(&t, 250));
    assert!(is_time_over(&t, 251));
}

#[test]
fn make_permanent_merges_and_scores() {
    let mut t = Tetris::new();
    t.current_level = 2;
    t.current_piece = Some(piece(PieceKind::O, 0, 14, 0));
    t.make_permanent();
    assert!(t.current_piece.is_none());
    assert_eq!(t.game_map[14][0], 4);
    assert_eq!(t.game_map[15][1], 4);
    assert_eq!(t.game_map[15][2], 0);
    assert_eq!(t.score, 2);
    assert_eq!(t.nb_lines, 0);
}

#[test]
fn make_permanent_completes_a_line() {
    let mut t = Tetris::new();
    t.game_map[15] = vec![5u8; 10];
    t.game_map[15][8] = 0;
    t.game_map[15][9] = 0;
    t.current_piece = Some(piece(PieceKind::O, 8, 14, 0));
    t.make_permanent();
    // one point for the lock, one for the line
    assert_eq!(t.score, 2);
    assert_eq!(t.nb_lines, 1);
    assert_eq!(t.game_map[15][8], 4);
    assert_eq!(t.game_map[15][0], 0);
}

#[test]
fn actions_move_rotate_and_lock() {
    let mut t = Tetris::new();
    t.current_piece = Some(piece(PieceKind::O, 0, 0, 0));
    assert!(!t.apply_action(Action::MoveLeft));
    assert_eq!(t.current_piece.unwrap().x, 0);
    assert!(!t.apply_action(Action::MoveRight));
    assert_eq!(t.current_piece.unwrap().x, 1);
    assert!(!t.apply_action(Action::SoftDrop));
    assert_eq!(t.current_piece.unwrap().y, 1);
    assert!(!t.apply_action(Action::Rotate));
    assert_eq!(t.current_piece.unwrap(), piece(PieceKind::O, 1, 1, 0));
    assert!(t.apply_action(Action::HardDrop));
    assert!(t.current_piece.is_none());
    assert_eq!(t.game_map[15][1], 4);
    assert_eq!(t.game_map[14][2], 4);
    assert_eq!(t.score, 1);
    assert!(!t.apply_action(Action::MoveLeft));
}

#[test]
fn soft_drop_at_bottom_locks() {
    let mut t = Tetris::new();
    t.current_piece = Some(piece(PieceKind::I, 0, 15, 0));
    assert!(t.apply_action(Action::SoftDrop));
    assert!(t.current_piece.is_none());
    assert_eq!(t.game_map[15][..4], [1u8, 1, 1, 1]);
}

#[test]
fn spawn_and_game_over() {
    let mut t = Tetris::new();
    assert!(t.spawn());
    let p = t.current_piece.unwrap();
    assert_eq!(p.y, 0);
    assert_eq!(p.current_state, 0);
    assert_eq!(p.x, p.kind.spawn_x());
    assert_eq!(t.factory.previous, p.kind.index());
    for y in 0..2 {
        for x in 0..10 {
            t.game_map[y][x] = 1;
        }
    }
    assert!(!t.spawn());
    assert!(t.current_piece.is_none());
}

#[test]
fn factory_redraws_only_on_repeat() {
    let mut f = PieceFactory::new();
    assert_eq!(f.pick_kind(3, 5), PieceKind::O);
    assert_eq!(f.previous, 3);
    // the first draw repeats: the redraw decides
    assert_eq!(f.pick_kind(10, 5), PieceKind::Z);
    assert_eq!(f.previous, 5);
    // the redraw may repeat too: no further draw is made
    assert_eq!(f.pick_kind(5, 12), PieceKind::Z);
    assert_eq!(f.previous, 5);
    assert_eq!(f.pick_kind(0, 5), PieceKind::I);
}

#[test]
fn factory_draws_spawn_pieces() {
    let mut f = PieceFactory::new();
    for _ in 0..1000 {
        let p = f.next();
        assert!(f.previous < 7);
        assert_eq!(p.kind, PieceKind::from_index(f.previous));
        assert_eq!(p, Tetrimino::new(p.kind));
    }
}

fn brute_force_fits(field: &[Vec<u8>], kind: PieceKind, state: usize, x: isize, y: usize) -> bool {
    for dy in 0..4 {
        for dx in 0..4 {
            if kind.template_value(state, dy, dx) != 0 {
                let cx = x + dx as isize;
                let cy = y + dy;
                if cx < 0 || cy >= field.len() || cx as usize >= field[cy].len() {
                    return false;
                }
                if field[cy][cx as usize] != 0 {
                    return false;
                }
            }
        }
    }
    true
}

#[test]
fn test_position_matches_brute_force() {
    let mut field = empty_field();
    for y in 0..16 {
        for x in 0..10 {
            if (x * 7 + y * 3) % 5 == 0 && y > 6 {
                field[y][x] = ((x + y) % 7 + 1) as u8;
            }
        }
    }
    for i in 0..7u8 {
        let kind = PieceKind::from_index(i);
        let p = Tetrimino::new(kind);
        for state in 0..kind.num_states() as usize {
            for x in -5..13isize {
                for y in 0..19usize {
                    assert_eq!(
                        p.test_position(&field, state, x, y),
                        brute_force_fits(&field, kind, state, x, y)
                    );
                }
            }
        }
    }
}
