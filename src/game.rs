use vstd::prelude::*;
use crate::board::{
    Board, MAX_SIDE, bbox_in_board, fits_at, full_rows, in_board,
    lemma_bbox_in_board, stamp, without_full_rows,
};
use crate::piece::{Piece, PieceType, get_pieces, is_catalog};

verus! {

/// `a` holds the same rotation states, index and kind as `b`.
pub open spec fn is_copy(a: Piece, b: Piece) -> bool {
    &&& a.tetraminos@ == b.tetraminos@
    &&& a.index == b.index
    &&& a.piece_type == b.piece_type
}

/// Relies on rand's `Rng::gen_range` on `thread_rng()`: a value drawn from
/// `0..n`; it panics on an empty range.
#[verifier::external_body]
fn random_below(n: usize) -> (r: usize)
    requires
        n > 0,
    ensures
        r < n,
{
    rand::Rng::gen_range(&mut rand::thread_rng(), 0..n)
}

/// The source of new pieces: the catalog, drawn from uniformly.
pub struct PieceFactory {
    pub pieces: Vec<Piece>,
}

impl PieceFactory {
    pub open spec fn wf(self) -> bool {
        is_catalog(self.pieces@)
    }

    /// `p` is a fresh copy of one catalog entry.
    pub open spec fn hands_out(self, p: Piece) -> bool {
        exists|i: int| 0 <= i < self.pieces@.len() && is_copy(p, #[trigger] self.pieces@[i])
    }

    pub fn new() -> (r: PieceFactory)
        ensures
            r.wf(),
    {
        PieceFactory { pieces: get_pieces() }
    }

    /// A copy of catalog entry `i`.
    pub fn pick(&self, i: usize) -> (r: Piece)
        requires
            self.wf(),
            i < self.pieces@.len(),
        ensures
            r.wf(),
            is_copy(r, self.pieces@[i as int]),
    {
        self.pieces[i].duplicate()
    }

    /// A copy of a catalog entry drawn at random.
    pub fn next(&self) -> (r: Piece)
        requires
            self.wf(),
        ensures
            r.wf(),
            self.hands_out(r),
    {
        let i = random_below(self.pieces.len());
        self.pick(i)
    }
}

/// A play session.
pub struct Game {
    pub board: Board,
    pub piece: Piece,
    pub next_piece: Piece,
    pub piece_factory: PieceFactory,
    pub score: u32,
    pub lines: u16,
    pub pos: (i8, i8),
    pub last_tetris: bool,
    pub game_over: bool,
}

/// The lock sequence took `pre` to `post`, the board holding `rows` at the
/// moment of locking; `post`'s board is `rows` without its full rows.
pub open spec fn locked(pre: Game, rows: Seq<Seq<PieceType>>, post: Game) -> bool {
    let w = pre.board.size.0 as int;
    let n = full_rows(rows).len();
    let after = without_full_rows(rows, w);
    &&& post.lines == pre.lines + n
    &&& post.score == pre.score + 1 + 10 * n * n
    &&& is_copy(post.piece, pre.next_piece)
    &&& post.next_piece.wf()
    &&& pre.piece_factory.hands_out(post.next_piece)
    &&& post.piece_factory == pre.piece_factory
    &&& post.pos == ((pre.board.size.0 / 2) as i8, post.piece.shape().offset.1)
    &&& post.game_over == (pre.game_over || !fits_at(after, w, post.piece.shape(), post.pos.0 as int, post.pos.1 as int))
    &&& post.last_tetris == pre.last_tetris
    &&& post.board.size == pre.board.size
}

/// After a lock, the new piece stands drawn on `after` unless the game ended.
pub open spec fn spawn_drawn(post: Game, after: Seq<Seq<PieceType>>) -> bool {
    post.board@ == if post.game_over {
        after
    } else {
        stamp(after, post.piece.shape(), post.pos.0 as int, post.pos.1 as int, post.piece.piece_type)
    }
}

/// Clearing a piece's own cells leaves room for it where it stood.
proof fn lemma_fits_after_clear(rows: Seq<Seq<PieceType>>, w: int, p: Piece, x: int, y: int)
    requires
        bbox_in_board(p.shape(), x, y, w, rows.len() as int),
    ensures
        fits_at(stamp(rows, p.shape(), x, y, PieceType::Empty), w, p.shape(), x, y),
{
}

impl Game {
    pub open spec fn wf(self) -> bool {
        &&& self.board.wf()
        &&& self.piece.wf()
        &&& self.next_piece.wf()
        &&& self.piece_factory.wf()
    }

    /// A piece is in play and its bounding box stands on the board.
    pub open spec fn active(self) -> bool {
        &&& !self.game_over
        &&& bbox_in_board(
            self.piece.shape(),
            self.pos.0 as int,
            self.pos.1 as int,
            self.board.size.0 as int,
            self.board.size.1 as int,
        )
    }

    /// The counters can take one more lock without overflowing.
    pub open spec fn has_room(self) -> bool {
        &&& self.score + 1 + 10 * self.board.size.1 * self.board.size.1 <= u32::MAX
        &&& self.lines + self.board.size.1 <= u16::MAX
    }

    /// The board with the active piece's cells emptied.
    pub open spec fn board_without_piece(self) -> Seq<Seq<PieceType>> {
        stamp(self.board@, self.piece.shape(), self.pos.0 as int, self.pos.1 as int, PieceType::Empty)
    }

    /// A session on `board`: two pieces drawn, the first at the top center.
    pub fn new(board: Board, piece_factory: PieceFactory) -> (r: Game)
        requires
            board.wf(),
            piece_factory.wf(),
        ensures
            r.wf(),
            r.board == board,
            r.piece_factory == piece_factory,
            piece_factory.hands_out(r.piece),
            piece_factory.hands_out(r.next_piece),
            r.score == 0,
            r.lines == 0,
            r.pos == ((board.size.0 / 2) as i8, r.piece.shape().offset.1),
            !r.last_tetris,
            !r.game_over,
    {
        let w = board.width() as i8;
        let p = piece_factory.next();
        let h = p.curr().offset.1;
        let next_piece = piece_factory.next();
        Game {
            board,
            piece: p,
            next_piece,
            piece_factory,
            score: 0,
            lines: 0,
            pos: (w / 2, h),
            last_tetris: false,
            game_over: false,
        }
    }

    /// Draws the active piece at its position.
    pub fn draw(&mut self)
        requires
            old(self).wf(),
            in_board(
                old(self).piece.shape(),
                old(self).pos.0 as int,
                old(self).pos.1 as int,
                old(self).board.size.0 as int,
                old(self).board.size.1 as int,
            ),
        ensures
            final(self).wf(),
            *final(self) == (Game { board: final(self).board, ..*old(self) }),
            final(self).board.size == old(self).board.size,
            final(self).board@ == stamp(
                old(self).board@,
                old(self).piece.shape(),
                old(self).pos.0 as int,
                old(self).pos.1 as int,
                old(self).piece.piece_type,
            ),
    {
        self.board.draw(&self.piece, self.pos.0, self.pos.1);
    }

    /// Empties the active piece's cells at its position.
    pub fn clear(&mut self)
        requires
            old(self).wf(),
            in_board(
                old(self).piece.shape(),
                old(self).pos.0 as int,
                old(self).pos.1 as int,
                old(self).board.size.0 as int,
                old(self).board.size.1 as int,
            ),
        ensures
            final(self).wf(),
            *final(self) == (Game { board: final(self).board, ..*old(self) }),
            final(self).board.size == old(self).board.size,
            final(self).board@ == old(self).board_without_piece(),
    {
        self.board.clear(&self.piece, self.pos.0, self.pos.1);
    }

    /// Whether the active piece fits at its position.
    pub fn fits(&mut self) -> (r: bool)
        requires
            old(self).wf(),
        ensures
            *final(self) == *old(self),
            r == fits_at(
                old(self).board@,
                old(self).board.size.0 as int,
                old(self).piece.shape(),
                old(self).pos.0 as int,
                old(self).pos.1 as int,
            ),
    {
        self.board.fits(&self.piece, self.pos.0, self.pos.1)
    }

    /// Whether the counters can take one more lock without overflowing.
    pub fn can_lock(&self) -> (r: bool)
        requires
            self.board.wf(),
        ensures
            r == self.has_room(),
    {
        let h = self.board.height() as u64;
        assert(h * h <= MAX_SIDE * MAX_SIDE) by (nonlinear_arith)
            requires
                h <= MAX_SIDE,
        ;
        assert(10 * h * h == 10 * (h * h)) by (nonlinear_arith);
        self.score as u64 + 1 + 10 * h * h <= u32::MAX as u64 && self.lines as u64 + h <= u16::MAX as u64
    }

    /// Puts the first piece on the board, or ends the game if it does not
    /// fit where it spawned.
    pub fn start(&mut self)
        requires
            old(self).wf(),
        ensures
            final(self).wf(),
            !final(self).game_over ==> final(self).active(),
            ({
                let ok = fits_at(
                    old(self).board@,
                    old(self).board.size.0 as int,
                    old(self).piece.shape(),
                    old(self).pos.0 as int,
                    old(self).pos.1 as int,
                );
                &&& final(self).game_over == (old(self).game_over || !ok)
                &&& final(self).board.size == old(self).board.size
                &&& final(self).board@ == if ok {
                    stamp(
                        old(self).board@,
                        old(self).piece.shape(),
                        old(self).pos.0 as int,
                        old(self).pos.1 as int,
                        old(self).piece.piece_type,
                    )
                } else {
                    old(self).board@
                }
                &&& *final(self) == (Game { board: final(self).board, game_over: final(self).game_over, ..*old(self) })
            }),
    {
        if self.fits() {
            proof {
                lemma_bbox_in_board(
                    self.piece.shape(),
                    self.pos.0 as int,
                    self.pos.1 as int,
                    self.board.size.0 as int,
                    self.board.size.1 as int,
                );
            }
            self.draw();
        } else {
            self.game_over = true;
        }
    }

    pub fn turn_piece(&mut self)
        requires
            old(self).wf(),
        ensures
            final(self).wf(),
            *final(self) == (Game { piece: old(self).piece.turned(), ..*old(self) }),
    {
        self.piece.next();
    }

    pub fn counter_turn_piece(&mut self)
        requires
            old(self).wf(),
        ensures
            final(self).wf(),
            *final(self) == (Game { piece: old(self).piece.turned_back(), ..*old(self) }),
    {
        self.piece.prev();
    }

    /// The lock sequence: removes the full rows, counts them and scores
    /// `1 + 10 * n * n`, promotes the next piece, draws a new next piece and
    /// places the active one at the top center; the game ends if it does not
    /// fit there. Returns the removed row indices, bottom row first.
    pub fn piece_stuck(&mut self) -> (r: Vec<i8>)
        requires
            old(self).wf(),
            old(self).has_room(),
        ensures
            final(self).wf(),
            locked(*old(self), old(self).board@, *final(self)),
            final(self).board@ == without_full_rows(old(self).board@, old(self).board.size.0 as int),
            r@.map_values(|v: i8| v as int) == full_rows(old(self).board@),
    {
        let ghost rows = self.board@;
        let v = self.board.remove_full_lines();
        proof {
            crate::board::lemma_rows_split(rows, 0);
            assert(v@.len() == v@.map_values(|v: i8| v as int).len());
            assert(v@.len() <= self.board.size.1);
            assert(v@.len() * v@.len() <= self.board.size.1 * self.board.size.1) by (nonlinear_arith)
                requires
                    v@.len() <= self.board.size.1,
            ;
            assert(10 * (v@.len() * v@.len()) == 10 * v@.len() * v@.len()) by (nonlinear_arith);
            assert(10 * (self.board.size.1 * self.board.size.1) == 10 * self.board.size.1 * self.board.size.1)
                by (nonlinear_arith);
            assert(self.board.size.1 * self.board.size.1 <= MAX_SIDE * MAX_SIDE) by (nonlinear_arith)
                requires
                    self.board.size.1 <= MAX_SIDE,
            ;
        }
        self.lines = self.lines + v.len() as u16;
        self.score = self.score + 1 + 10 * ((v.len() * v.len()) as u32);
        self.piece = self.next_piece.duplicate();
        self.next_piece = self.piece_factory.next();
        self.pos = (self.board.width() as i8 / 2, self.piece.curr().offset.1);
        proof {
            assert(self.piece.wf());
        }
        if !self.fits() {
            self.game_over = true;
        }
        v
    }
}

/// The row where a piece dropped from row y comes to rest: the last of the
/// rows from y down that it fits on without a gap.
pub open spec fn landing_row(rows: Seq<Seq<PieceType>>, w: int, p: Piece, x: int, y: int) -> int
    decreases 127 - y,
{
    if y < 127 && fits_at(rows, w, p.shape(), x, y + 1) {
        landing_row(rows, w, p, x, y + 1)
    } else {
        y
    }
}

/// The active piece of `pre` shifted by `dx` columns if it fits there, else
/// redrawn where it stood.
pub open spec fn shifted(pre: Game, post: Game, dx: int) -> bool {
    let b0 = pre.board_without_piece();
    let t = pre.piece.shape();
    let (x, y) = pre.pos;
    let moved = fits_at(b0, pre.board.size.0 as int, t, x + dx, y as int);
    &&& post.pos == if moved { ((x + dx) as i8, y) } else { (x, y) }
    &&& post.board@ == stamp(b0, t, post.pos.0 as int, y as int, pre.piece.piece_type)
    &&& post == (Game { board: post.board, pos: post.pos, ..pre })
    &&& post.board.size == pre.board.size
}

/// What a move to the left does.
pub open spec fn moved_left(pre: Game, post: Game) -> bool {
    if pre.pos.0 > 0 { shifted(pre, post, -1) } else { post == pre }
}

/// What a move to the right does.
pub open spec fn moved_right(pre: Game, post: Game) -> bool {
    if pre.pos.0 < pre.board.size.0 - 1 { shifted(pre, post, 1) } else { post == pre }
}

/// What a rotation does: the forward rotation if it fits where the piece
/// stands, else the old one, redrawn.
pub open spec fn rotated(pre: Game, post: Game) -> bool {
    let b0 = pre.board_without_piece();
    let (x, y) = pre.pos;
    let turned = pre.piece.turned();
    let ok = fits_at(b0, pre.board.size.0 as int, turned.shape(), x as int, y as int);
    &&& post.piece == if ok { turned } else { pre.piece }
    &&& post.board@ == stamp(b0, post.piece.shape(), x as int, y as int, pre.piece.piece_type)
    &&& post == (Game { board: post.board, piece: post.piece, ..pre })
    &&& post.board.size == pre.board.size
}

/// What a soft drop does: one row down if the piece fits there, else the
/// piece locks where it stands.
pub open spec fn dropped_one(pre: Game, post: Game) -> bool {
    let b0 = pre.board_without_piece();
    let w = pre.board.size.0 as int;
    let t = pre.piece.shape();
    let (x, y) = pre.pos;
    if fits_at(b0, w, t, x as int, y + 1) {
        &&& post.pos == (x, (y + 1) as i8)
        &&& post.board@ == stamp(b0, t, x as int, y + 1, pre.piece.piece_type)
        &&& post == (Game { board: post.board, pos: post.pos, ..pre })
        &&& post.board.size == pre.board.size
    } else {
        let rows = stamp(b0, t, x as int, y as int, pre.piece.piece_type);
        &&& locked(pre, rows, post)
        &&& spawn_drawn(post, without_full_rows(rows, w))
    }
}

/// What a hard drop does: the piece locks on its landing row.
pub open spec fn dropped(pre: Game, post: Game) -> bool {
    let b0 = pre.board_without_piece();
    let w = pre.board.size.0 as int;
    let (x, y) = pre.pos;
    let rest = landing_row(b0, w, pre.piece, x as int, y as int);
    let rows = stamp(b0, pre.piece.shape(), x as int, rest, pre.piece.piece_type);
    &&& locked(pre, rows, post)
    &&& spawn_drawn(post, without_full_rows(rows, w))
}

/// Moves the active piece one column to the left if it fits there. At
/// column 0 nothing changes.
pub fn left(g: &mut Game)
    requires
        old(g).wf(),
        old(g).active(),
    ensures
        final(g).wf(),
        final(g).active(),
        moved_left(*old(g), *final(g)),
        old(g).pos.0 <= 0 ==> *final(g) == *old(g),
{
    if g.pos.0 > 0 {
        proof {
            lemma_bbox_in_board(g.piece.shape(), g.pos.0 as int, g.pos.1 as int, g.board.size.0 as int, g.board.size.1 as int);
        }
        g.clear();
        g.pos.0 = g.pos.0 - 1;
        if !g.fits() {
            g.pos.0 = g.pos.0 + 1;
        }
        proof {
            lemma_bbox_in_board(g.piece.shape(), g.pos.0 as int, g.pos.1 as int, g.board.size.0 as int, g.board.size.1 as int);
        }
        g.draw();
    }
}

/// Moves the active piece one column to the right if it fits there. At the
/// last column nothing changes.
pub fn right(g: &mut Game)
    requires
        old(g).wf(),
        old(g).active(),
    ensures
        final(g).wf(),
        final(g).active(),
        moved_right(*old(g), *final(g)),
        old(g).pos.0 >= old(g).board.size.0 - 1 ==> *final(g) == *old(g),
{
    if g.pos.0 < g.board.width() as i8 - 1 {
        proof {
            lemma_bbox_in_board(g.piece.shape(), g.pos.0 as int, g.pos.1 as int, g.board.size.0 as int, g.board.size.1 as int);
        }
        g.clear();
        g.pos.0 = g.pos.0 + 1;
        if !g.fits() {
            g.pos.0 = g.pos.0 - 1;
        }
        proof {
            lemma_bbox_in_board(g.piece.shape(), g.pos.0 as int, g.pos.1 as int, g.board.size.0 as int, g.board.size.1 as int);
        }
        g.draw();
    }
}

/// Rotates the active piece forward if the new rotation fits where it
/// stands; otherwise keeps the old rotation.
pub fn up(g: &mut Game)
    requires
        old(g).wf(),
        old(g).active(),
    ensures
        final(g).wf(),
        final(g).active(),
        rotated(*old(g), *final(g)),
{
    proof {
        lemma_bbox_in_board(g.piece.shape(), g.pos.0 as int, g.pos.1 as int, g.board.size.0 as int, g.board.size.1 as int);
    }
    let ghost p0 = g.piece;
    g.clear();
    g.turn_piece();
    if !g.fits() {
        g.counter_turn_piece();
        assert(p0.turned().turned_back() == p0);
    }
    proof {
        lemma_bbox_in_board(g.piece.shape(), g.pos.0 as int, g.pos.1 as int, g.board.size.0 as int, g.board.size.1 as int);
    }
    g.draw();
}

/// Moves the active piece one row down if it fits there; otherwise it locks
/// where it stands and the next piece comes into play.
pub fn down(g: &mut Game)
    requires
        old(g).wf(),
        old(g).active(),
        old(g).has_room(),
    ensures
        final(g).wf(),
        !final(g).game_over ==> final(g).active(),
        dropped_one(*old(g), *final(g)),
{
    proof {
        lemma_bbox_in_board(g.piece.shape(), g.pos.0 as int, g.pos.1 as int, g.board.size.0 as int, g.board.size.1 as int);
    }
    g.clear();
    g.pos.1 = g.pos.1 + 1;
    if !g.fits() {
        g.pos.1 = g.pos.1 - 1;
        g.draw();
        g.piece_stuck();
    }
    if !g.game_over {
        proof {
            lemma_bbox_in_board(g.piece.shape(), g.pos.0 as int, g.pos.1 as int, g.board.size.0 as int, g.board.size.1 as int);
        }
        g.draw();
    }
}

/// Drops the active piece as far as it fits, locks it there and brings the
/// next piece into play.
pub fn fall(g: &mut Game)
    requires
        old(g).wf(),
        old(g).active(),
        old(g).has_room(),
    ensures
        final(g).wf(),
        !final(g).game_over ==> final(g).active(),
        dropped(*old(g), *final(g)),
{
    proof {
        lemma_bbox_in_board(g.piece.shape(), g.pos.0 as int, g.pos.1 as int, g.board.size.0 as int, g.board.size.1 as int);
    }
    let ghost y0 = g.pos.1 as int;
    g.clear();
    let ghost g0 = *g;
    let ghost b0 = g.board@;
    let ghost w = g.board.size.0 as int;
    proof {
        lemma_fits_after_clear(old(g).board@, w, g.piece, g.pos.0 as int, y0);
    }
    while g.fits()
        invariant
            g.wf(),
            *g == (Game { pos: g.pos, ..g0 }),
            g.pos.0 == g0.pos.0,
            b0 == g.board@,
            w == g.board.size.0,
            y0 == g0.pos.1,
            fits_at(b0, w, g.piece.shape(), g.pos.0 as int, y0),
            y0 <= g.pos.1 <= 124,
            g.pos.1 == y0 || (fits_at(b0, w, g.piece.shape(), g.pos.0 as int, g.pos.1 - 1)
                && landing_row(b0, w, g.piece, g.pos.0 as int, y0) == landing_row(b0, w, g.piece, g.pos.0 as int, g.pos.1 - 1)),
        decreases 124 - g.pos.1,
    {
        g.pos.1 = g.pos.1 + 1;
    }
    g.pos.1 = g.pos.1 - 1;
    proof {
        lemma_bbox_in_board(g.piece.shape(), g.pos.0 as int, g.pos.1 as int, g.board.size.0 as int, g.board.size.1 as int);
    }
    g.draw();
    g.piece_stuck();
    if !g.game_over {
        proof {
            lemma_bbox_in_board(g.piece.shape(), g.pos.0 as int, g.pos.1 as int, g.board.size.0 as int, g.board.size.1 as int);
        }
        g.draw();
    }
}

/// A player command from the input stream.
#[derive(Clone, Copy, PartialEq, Eq, Structural, Debug)]
pub enum Command {
    Left,
    Right,
    Rotate,
    SoftDrop,
    HardDrop,
    Quit,
}

/// What the surrounding loop does after an event.
#[derive(Clone, Copy, PartialEq, Eq, Structural, Debug)]
pub enum Reaction {
    /// Go on polling.
    Continue,
    /// Go on polling and restart the gravity clock.
    RestartClock,
    /// Leave the session.
    Quit,
}

/// Milliseconds of gravity clock after which an idle tick drops the piece.
pub const GRAVITY_MS: u64 = 200;

/// Applies one event of the input loop: a command, or no input after
/// `elapsed_ms` milliseconds of the gravity clock.
pub fn on_event(g: &mut Game, event: Option<Command>, elapsed_ms: u64) -> (r: Reaction)
    requires
        old(g).wf(),
        old(g).active(),
        old(g).has_room(),
    ensures
        final(g).wf(),
        !final(g).game_over ==> final(g).active(),
        (match event {
            Some(Command::Left) => r == Reaction::Continue && moved_left(*old(g), *final(g)),
            Some(Command::Right) => r == Reaction::Continue && moved_right(*old(g), *final(g)),
            Some(Command::Rotate) => r == Reaction::Continue && rotated(*old(g), *final(g)),
            Some(Command::SoftDrop) => r == Reaction::RestartClock && dropped_one(*old(g), *final(g)),
            Some(Command::HardDrop) => r == Reaction::RestartClock && dropped(*old(g), *final(g)),
            Some(Command::Quit) => r == Reaction::Quit && *final(g) == *old(g),
            None => if elapsed_ms > GRAVITY_MS {
                r == Reaction::RestartClock && dropped_one(*old(g), *final(g))
            } else {
                r == Reaction::Continue && *final(g) == *old(g)
            },
        }),
{
    match event {
        Some(Command::Left) => {
            left(g);
            Reaction::Continue
        },
        Some(Command::Right) => {
            right(g);
            Reaction::Continue
        },
        Some(Command::Rotate) => {
            up(g);
            Reaction::Continue
        },
        Some(Command::SoftDrop) => {
            down(g);
            Reaction::RestartClock
        },
        Some(Command::HardDrop) => {
            fall(g);
            Reaction::RestartClock
        },
        Some(Command::Quit) => Reaction::Quit,
        None => {
            if elapsed_ms > GRAVITY_MS {
                down(g);
                Reaction::RestartClock
            } else {
                Reaction::Continue
            }
        },
    }
}

} // verus!
