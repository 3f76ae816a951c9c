use tetris::board::Board;
use tetris::game::{down, fall, left, on_event, right, up, Command, Game, PieceFactory, Reaction, GRAVITY_MS};
use tetris::piece::{get_pieces, Piece, PieceType, Tetramino};

fn game_with(width: u8, height: u8, piece: &Piece, x: i8, y: i8) -> Game {
    let mut g = Game::new(Board::new(width, height), PieceFactory::new());
    g.piece = piece.clone();
    g.next_piece = piece.clone();
    g.pos = (x, y);
    g
}

fn fill_row_except(b: &mut Board, y: usize, hole: Option<usize>) {
    let w = b.width() as usize;
    for x in 0..w {
        if Some(x) != hole {
            b.map[x + y * w] = PieceType::T;
        }
    }
}

fn expected_fit(b: &Board, t: &Tetramino, x: i32, y: i32) -> bool {
    let (w, h) = (b.width() as i32, b.height() as i32);
    for ly in 0..4 {
        for lx in 0..4 {
            if t.is_set(lx as i8, ly as i8) {
                let bx = x - t.offset.0 as i32 + lx;
                let by = y - t.offset.1 as i32 + ly;
                if bx < 0 || bx >= w || by < 0 || by >= h {
                    return false;
                }
                if b.map[(bx + by * w) as usize] != PieceType::Empty {
                    return false;
                }
            }
        }
    }
    true
}

#[test]
fn rotation_round_trip_every_piece() {
    for p in get_pieces() {
        for n in 0..9 {
            let mut q = p.clone();
            for _ in 0..n {
                q.next();
            }
            for _ in 0..n {
                q.prev();
            }
            assert_eq!(q.index, p.index);
            assert_eq!(q.curr().shape, p.curr().shape);
        }
    }
}

#[test]
fn rotation_cycles_through_states() {
    let mut t = get_pieces()[4].clone();
    assert_eq!(t.piece_type, PieceType::T);
    for k in 1..4 {
        t.next();
        assert_eq!(t.index, k);
    }
    t.next();
    assert_eq!(t.index, 0);
    t.prev();
    assert_eq!(t.index, 3);
}

#[test]
fn outside_grid_is_unset_for_every_shape() {
    for p in get_pieces() {
        for t in p.tetraminos.iter() {
            for y in -6i8..10 {
                for x in -6i8..10 {
                    if !(0..=3).contains(&x) || !(0..=3).contains(&y) {
                        assert!(!t.is_set(x, y));
                    }
                }
            }
        }
    }
}

#[test]
fn catalog_sizes_and_offsets() {
    let p = get_pieces();
    let kinds: Vec<PieceType> = p.iter().map(|q| q.piece_type).collect();
    assert_eq!(
        kinds,
        vec![PieceType::O, PieceType::I, PieceType::S, PieceType::Z, PieceType::T, PieceType::L, PieceType::J]
    );
    let counts: Vec<usize> = p.iter().map(|q| q.tetraminos.len()).collect();
    assert_eq!(counts, vec![1, 2, 2, 2, 4, 4, 4]);
    assert_eq!(p[0].tetraminos[0].size, (2, 2));
    assert_eq!(p[1].tetraminos[1].size, (1, 4));
    assert_eq!(p[1].tetraminos[1].offset, (0, 2));
    assert_eq!(p[4].tetraminos[0].size, (3, 2));
    let z = p[3].tetraminos[0];
    assert!(!z.is_set(0, 0) && z.is_set(1, 0) && z.is_set(2, 0));
    assert!(z.is_set(0, 1) && z.is_set(1, 1) && !z.is_set(2, 1));
}

#[test]
fn draw_then_clear_leaves_empty_board() {
    for p in get_pieces() {
        let mut q = p.clone();
        for _ in 0..q.tetraminos.len() {
            for y in 0..20i8 {
                for x in 0..10i8 {
                    let mut b = Board::new(10, 20);
                    if b.fits(&q, x, y) {
                        b.draw(&q, x, y);
                        assert!(b.map.iter().any(|c| *c == q.piece_type));
                        b.clear(&q, x, y);
                        assert!(b.map.iter().all(|c| *c == PieceType::Empty));
                    }
                }
            }
            q.next();
        }
    }
}

#[test]
fn fits_sweep_on_small_board() {
    let mut b = Board::new(6, 5);
    b.map[2 + 3 * 6] = PieceType::Z;
    b.map[5 + 6] = PieceType::I;
    for p in get_pieces() {
        let mut q = p.clone();
        for _ in 0..q.tetraminos.len() {
            let t = q.curr();
            for y in -4i8..10 {
                for x in -4i8..10 {
                    assert_eq!(b.fits(&q, x, y), expected_fit(&b, &t, x as i32, y as i32));
                }
            }
            q.next();
        }
    }
}

#[test]
fn fits_rejects_overlap_and_edges() {
    let o = get_pieces()[0].clone();
    let mut b = Board::new(4, 4);
    assert!(b.fits(&o, 1, 1));
    assert!(!b.fits(&o, 0, 1));
    assert!(b.fits(&o, 3, 3));
    assert!(!b.fits(&o, 4, 3));
    assert!(!b.fits(&o, 3, 4));
    b.map[1 + 4] = PieceType::L;
    assert!(!b.fits(&o, 1, 1));
    assert!(!b.fits(&o, 2, 2));
    assert!(b.fits(&o, 3, 3));
}

#[test]
fn no_full_rows_leaves_board_unchanged() {
    let mut b = Board::new(5, 6);
    fill_row_except(&mut b, 5, Some(0));
    fill_row_except(&mut b, 4, Some(4));
    b.map[2 + 3 * 5] = PieceType::S;
    let before = b.map.clone();
    let l = b.remove_full_lines();
    assert!(l.is_empty());
    assert_eq!(b.map, before);
}

#[test]
fn empty_board_removes_nothing() {
    let mut b = Board::new(10, 20);
    assert!(b.remove_full_lines().is_empty());
    assert!(b.map.iter().all(|c| *c == PieceType::Empty));
}

#[test]
fn two_completed_rows_shift_rest_down() {
    let mut b = Board::new(10, 10);
    fill_row_except(&mut b, 8, Some(9));
    fill_row_except(&mut b, 9, Some(9));
    b.map[3 + 5 * 10] = PieceType::O;
    b.map[7 + 7 * 10] = PieceType::J;
    assert!(b.remove_full_lines().is_empty());
    b.map[9 + 8 * 10] = PieceType::I;
    b.map[9 + 9 * 10] = PieceType::I;
    let l = b.remove_full_lines();
    assert_eq!(l, vec![9, 8]);
    for y in 0..7 {
        for x in 0..10 {
            assert!(!b.is_set(x, y));
        }
    }
    assert!(b.is_set(3, 7));
    assert!(b.is_set(7, 9));
    assert!(!b.is_set(9, 9));
    assert!(!b.is_set(9, 8));
    assert_eq!(b.map.iter().filter(|c| **c != PieceType::Empty).count(), 2);
}

#[test]
fn separated_full_rows_reported_bottom_first() {
    let mut b = Board::new(3, 5);
    fill_row_except(&mut b, 4, None);
    fill_row_except(&mut b, 2, None);
    b.map[1 + 3 * 3] = PieceType::T;
    b.map[0 + 1 * 3] = PieceType::S;
    let l = b.remove_full_lines();
    assert_eq!(l, vec![4, 2]);
    assert!(b.is_set(0, 3));
    assert!(b.is_set(1, 4));
    assert_eq!(b.map.iter().filter(|c| **c != PieceType::Empty).count(), 2);
}

#[test]
fn lock_with_two_full_rows_scores_41() {
    let o = get_pieces()[0].clone();
    let mut g = game_with(10, 10, &o, 5, 1);
    fill_row_except(&mut g.board, 8, None);
    fill_row_except(&mut g.board, 9, None);
    g.score = 7;
    g.lines = 3;
    let l = g.piece_stuck();
    assert_eq!(l, vec![9, 8]);
    assert_eq!(g.lines, 5);
    assert_eq!(g.score, 7 + 41);
    assert!(!g.game_over);
    assert_eq!(g.pos, (5, 1));
    assert!(g.board.map.iter().all(|c| *c == PieceType::Empty));
}

#[test]
fn lock_without_lines_scores_one() {
    let o = get_pieces()[0].clone();
    let mut g = game_with(10, 10, &o, 5, 1);
    let l = g.piece_stuck();
    assert!(l.is_empty());
    assert_eq!(g.score, 1);
    assert_eq!(g.lines, 0);
}

#[test]
fn blocked_spawn_ends_game_without_drawing() {
    let i = get_pieces()[1].clone();
    let mut g = game_with(10, 20, &i, 5, 0);
    for y in 0..4 {
        fill_row_except(&mut g.board, y, Some(0));
    }
    let before = g.board.map.clone();
    let l = g.piece_stuck();
    assert!(l.is_empty());
    assert!(g.game_over);
    assert_eq!(g.board.map, before);
}

#[test]
fn left_at_first_column_changes_nothing() {
    let mut i = get_pieces()[1].clone();
    i.next();
    let mut g = game_with(10, 20, &i, 0, 2);
    g.draw();
    let before = g.board.map.clone();
    left(&mut g);
    assert_eq!(g.pos, (0, 2));
    assert_eq!(g.board.map, before);
}

#[test]
fn right_at_last_column_changes_nothing() {
    let mut i = get_pieces()[1].clone();
    i.next();
    let mut g = game_with(10, 20, &i, 9, 2);
    g.draw();
    let before = g.board.map.clone();
    right(&mut g);
    assert_eq!(g.pos, (9, 2));
    assert_eq!(g.board.map, before);
}

#[test]
fn moves_shift_piece_when_free() {
    let o = get_pieces()[0].clone();
    let mut g = game_with(10, 20, &o, 5, 1);
    g.draw();
    left(&mut g);
    assert_eq!(g.pos, (4, 1));
    assert!(g.board.is_set(3, 0) && g.board.is_set(4, 1) && !g.board.is_set(5, 0));
    right(&mut g);
    right(&mut g);
    assert_eq!(g.pos, (6, 1));
    assert!(g.board.is_set(6, 0) && !g.board.is_set(4, 0));
    g.board.map[7 + 20] = PieceType::Z;
    g.board.map[7] = PieceType::Z;
    right(&mut g);
    assert_eq!(g.pos, (6, 1));
}

#[test]
fn rotation_reverts_when_blocked() {
    let i = get_pieces()[1].clone();
    let mut g = game_with(10, 20, &i, 5, 0);
    g.draw();
    up(&mut g);
    assert_eq!(g.piece.index, 0);
    g.pos = (5, 5);
    g.board = Board::new(10, 20);
    g.draw();
    up(&mut g);
    assert_eq!(g.piece.index, 1);
    assert!(g.board.is_set(5, 3) && g.board.is_set(5, 6) && !g.board.is_set(4, 5));
}

#[test]
fn down_moves_then_locks_at_floor() {
    let o = get_pieces()[0].clone();
    let mut g = game_with(4, 4, &o, 2, 1);
    g.draw();
    down(&mut g);
    assert_eq!(g.pos, (2, 2));
    assert_eq!(g.score, 0);
    down(&mut g);
    assert_eq!(g.pos, (2, 3));
    down(&mut g);
    assert_eq!(g.score, 1);
    assert_eq!(g.pos, (2, 1));
    assert!(g.board.is_set(1, 2) && g.board.is_set(2, 3));
    assert!(g.board.is_set(1, 0) && g.board.is_set(2, 1));
    assert!(!g.game_over);
}

#[test]
fn fall_lands_on_floor_and_locks() {
    let o = get_pieces()[0].clone();
    let mut g = game_with(10, 20, &o, 5, 1);
    g.draw();
    fall(&mut g);
    assert_eq!(g.score, 1);
    assert!(g.board.is_set(4, 18) && g.board.is_set(5, 19));
    assert!(!g.board.is_set(4, 17) && !g.board.is_set(6, 19));
    assert_eq!(g.pos, (5, 1));
    assert!(g.board.is_set(4, 0));
}

#[test]
fn factory_hands_out_catalog_pieces() {
    let f = PieceFactory::new();
    let mut seen = Vec::new();
    for _ in 0..300 {
        let p = f.next();
        assert_eq!(p.index, 0);
        assert!(f.pieces.iter().any(|q| q.piece_type == p.piece_type && q.tetraminos.len() == p.tetraminos.len()));
        if !seen.contains(&p.piece_type) {
            seen.push(p.piece_type);
        }
    }
    assert!(seen.len() > 1);
    let last = f.pick(6);
    assert_eq!(last.piece_type, PieceType::J);
}

#[test]
fn new_game_places_piece_at_top_center() {
    let g = Game::new(Board::new(10, 20), PieceFactory::new());
    assert_eq!(g.pos.0, 5);
    assert_eq!(g.pos.1, g.piece.curr().offset.1);
    assert_eq!(g.score, 0);
    assert_eq!(g.lines, 0);
    assert!(!g.game_over && !g.last_tetris);
}

#[test]
fn events_dispatch_to_moves() {
    let o = get_pieces()[0].clone();
    let mut g = game_with(10, 20, &o, 5, 1);
    g.start();
    assert!(!g.game_over);
    assert!(g.board.is_set(4, 0) && g.board.is_set(5, 1));
    assert_eq!(on_event(&mut g, Some(Command::Left), 0), Reaction::Continue);
    assert_eq!(g.pos, (4, 1));
    assert_eq!(on_event(&mut g, Some(Command::Right), 0), Reaction::Continue);
    assert_eq!(g.pos, (5, 1));
    assert_eq!(on_event(&mut g, Some(Command::Rotate), 0), Reaction::Continue);
    assert_eq!(g.piece.index, 0);
    assert_eq!(on_event(&mut g, None, GRAVITY_MS), Reaction::Continue);
    assert_eq!(g.pos, (5, 1));
    assert_eq!(on_event(&mut g, None, GRAVITY_MS + 1), Reaction::RestartClock);
    assert_eq!(g.pos, (5, 2));
    assert_eq!(on_event(&mut g, Some(Command::SoftDrop), 0), Reaction::RestartClock);
    assert_eq!(g.pos, (5, 3));
    let before = g.board.map.clone();
    assert_eq!(on_event(&mut g, Some(Command::Quit), 500), Reaction::Quit);
    assert_eq!(g.board.map, before);
    assert_eq!(on_event(&mut g, Some(Command::HardDrop), 0), Reaction::RestartClock);
    assert_eq!(g.score, 1);
    assert!(g.board.is_set(4, 18) && g.board.is_set(5, 19));
}

#[test]
fn start_on_blocked_spawn_ends_game() {
    let o = get_pieces()[0].clone();
    let mut g = game_with(10, 20, &o, 5, 1);
    g.board.map[5] = PieceType::S;
    let before = g.board.map.clone();
    g.start();
    assert!(g.game_over);
    assert_eq!(g.board.map, before);
}

#[test]
fn lock_room_depends_on_counters() {
    let o = get_pieces()[0].clone();
    let mut g = game_with(10, 20, &o, 5, 1);
    assert!(g.can_lock());
    g.score = u32::MAX - 4001;
    assert!(g.can_lock());
    g.score = u32::MAX - 4000;
    assert!(!g.can_lock());
    g.score = 0;
    g.lines = u16::MAX - 20;
    assert!(g.can_lock());
    g.lines = u16::MAX - 19;
    assert!(!g.can_lock());
}
