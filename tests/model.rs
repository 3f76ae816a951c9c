use tetris::board::Board;
use tetris::game::{Game, PieceFactory};
use tetris::piece::{get_pieces, Piece, PieceType, Tetramino};

fn get_i_piece() -> Piece {
    let p = get_pieces();
    p[1].clone()
}

fn get_i() -> Tetramino {
    get_i_piece().curr()
}

fn get_rotated_i() -> Tetramino {
    let mut p = get_i_piece();
    p.next();
    p.curr()
}

fn assert_empty_line(b: &Board, y: i32) {
    for x in 0..b.width() {
        assert!(!b.is_set(x as i8, y as i8));
    }
}

fn print_board(b: &Board) {
    println!("Board:");
    for y in 0..b.height() {
        let mut line = String::from(">");
        for x in 0..b.width() {
            line.push(if b.is_set(x as i8, y as i8) { 'X' } else { '.' });
        }
        line.push('<');
        println!("{}", line);
    }
}

#[test]
fn piece_rotate() {
    let mut p = get_i_piece();
    let t1 = p.curr();
    p.next();
    let t2 = p.curr();
    assert!(t1.shape != t2.shape);
    p.next();
    let t2 = p.curr();
    assert_eq!(t1.shape, t2.shape);

    p.prev();
    let t2 = p.curr();
    assert!(t1.shape != t2.shape);

    p.prev();
    let t2 = p.curr();
    assert_eq!(t1.shape, t2.shape);
}

#[test]
fn tet_is_set() {
    let i = get_i();
    assert!(i.is_set(0, 0));
    assert!(i.is_set(3, 0));
    assert!(!i.is_set(0, 1));
    assert!(!i.is_set(3, 3));

    let i = get_rotated_i();
    assert!(i.is_set(0, 0));
    assert!(i.is_set(0, 1));
    assert!(!i.is_set(1, 0));
    assert!(!i.is_set(3, 3));
}

#[test]
fn tet_size() {
    let i = get_i();
    assert_eq!(i.height(), 1);
    assert_eq!(i.width(), 4);
}

#[test]
fn tet_offset() {
    let i = get_i();
    assert_eq!(i.offset.0, 2);
    assert_eq!(i.offset.1, 0);
}

#[test]
fn draw_on_board() {
    let i = get_i_piece();
    let mut b = Board::new(10, 20);

    b.draw(&i, 5, 0);
    print_board(&b);

    for y in 1..b.height() {
        assert_empty_line(&b, i32::from(y));
    }
    for x in 0..3 {
        assert!(!b.is_set(x as i8, 0_i8));
    }
    for x in 3..7 {
        assert!(b.is_set(x as i8, 0_i8));
    }
    for x in 7..b.width() {
        assert!(!b.is_set(x as i8, 0_i8));
    }
    b.clear(&i, 5_i8, 0_i8);
    for y in 0..b.height() {
        assert_empty_line(&b, i32::from(y));
    }
}

fn add_almost_full_lines(b: &mut Board) {
    let mut i = get_i_piece();
    b.draw(&i, 5, 0);

    b.draw(&i, 6, 7);
    b.draw(&i, 2, 7);
    b.draw(&i, 2, 9);
    b.draw(&i, 6, 9);
    i.next();
    b.draw(&i, 8, 8);
}

fn add_full_lines(b: &mut Board) {
    add_almost_full_lines(b);

    let mut i = get_i_piece();
    i.next();
    b.draw(&i, 9, 8);
}

#[test]
fn full_line_scrolls_rest() {
    let mut b = Board::new(10, 10);

    add_almost_full_lines(&mut b);

    let l = b.remove_full_lines();
    assert_eq!(l.len(), 0);

    let mut i = get_i_piece();
    i.next();
    b.draw(&i, 9, 8);

    print_board(&b);

    let l = b.remove_full_lines();
    print_board(&b);

    assert_eq!(l.len(), 2);
    assert!(l.contains(&9_i8));
    assert!(l.contains(&7_i8));

    let l = b.remove_full_lines();
    assert_eq!(l.len(), 0);

    for y in 0..2 {
        assert_empty_line(&b, y);
    }
    assert!(b.is_set(3, 2));
    for y in 3..8 {
        assert_empty_line(&b, y);
    }
}

#[test]
fn new_game() {
    let b = Board::new(10, 20);
    let piece_factory = PieceFactory::new();
    Game::new(b, piece_factory);
}

#[test]
fn piece_is_stuck() {
    let b = Board::new(10, 10);
    let piece_factory = PieceFactory::new();
    let mut g = Game::new(b, piece_factory);

    add_full_lines(&mut g.board);

    g.piece_stuck();
    print_board(&g.board);
}
