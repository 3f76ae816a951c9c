use vstd::prelude::*;
use vstd::std_specs::iter::IteratorSpec;

verus! {

/// The kind of a piece; `Empty` marks an empty board cell.
#[derive(Clone, Copy, PartialEq, Eq, Structural, Debug)]
pub enum PieceType {
    Empty,
    I,
    J,
    L,
    O,
    S,
    T,
    Z,
}

/// One rotation state: a 4x4 occupancy mask, the anchor offset inside the
/// mask, and the bounding box of the marked cells.
#[derive(Clone, Copy, Debug)]
pub struct Tetramino {
    pub shape: [bool; 16],
    /// x, y
    pub offset: (i8, i8),
    /// width, height
    pub size: (u8, u8),
}

/// Whether the local cell (x, y) of a row-major 4x4 mask is marked.
pub open spec fn mask_cell(m: Seq<bool>, x: int, y: int) -> bool {
    0 <= x <= 3 && 0 <= y <= 3 && m[x + y * 4]
}

/// The mask read from a scan-line template: cell i is marked iff the i-th
/// character is an `X`.
pub open spec fn template_mask(t: Seq<char>) -> Seq<bool> {
    Seq::new(16, |i: int| i < t.len() && t[i] == 'X')
}

/// (w, h) is the bounding box of the marked cells of the mask.
pub open spec fn is_bounding_box(m: Seq<bool>, w: int, h: int) -> bool {
    &&& 0 <= w <= 4
    &&& 0 <= h <= 4
    &&& forall|x: int, y: int| #[trigger] mask_cell(m, x, y) ==> x < w && y < h
    &&& w > 0 ==> exists|y: int| #[trigger] mask_cell(m, w - 1, y)
    &&& h > 0 ==> exists|x: int| #[trigger] mask_cell(m, x, h - 1)
}

/// Outside the 4x4 grid no cell is marked.
pub proof fn lemma_outside_grid_unset(t: Tetramino, x: int, y: int)
    requires
        !(0 <= x <= 3 && 0 <= y <= 3),
    ensures
        !t.cell(x, y),
{
}

impl Tetramino {
    /// Whether the local cell (x, y) is marked; false outside the 4x4 grid.
    pub open spec fn cell(self, x: int, y: int) -> bool {
        mask_cell(self.shape@, x, y)
    }

    /// The bounding box is exactly that of the marked cells, the offset lies
    /// inside the grid.
    pub open spec fn wf(self) -> bool {
        &&& is_bounding_box(self.shape@, self.size.0 as int, self.size.1 as int)
        &&& 0 <= self.offset.0 <= 3
        &&& 0 <= self.offset.1 <= 3
    }

    /// Parses a row-major scan-line template (`X` marks a cell, anything else
    /// is blank; a short template leaves the remaining cells blank).
    pub fn new(tmpl: &str, offset_x: i8, offset_y: i8) -> (r: Tetramino)
        requires
            0 <= offset_x <= 3,
            0 <= offset_y <= 3,
        ensures
            r.shape@ == template_mask(tmpl@),
            r.offset == (offset_x, offset_y),
            r.wf(),
    {
        broadcast use vstd::string::axiom_spec_iter, vstd::string::next_postcondition;
        let mut s = tmpl.chars();
        let mut height: u8 = 0;
        let mut width: u8 = 0;
        let mut v = [false; 16];
        let mut y: usize = 0;
        while y < 4
            invariant
                y <= 4,
                s.remaining() == if 4 * y <= tmpl@.len() { tmpl@.skip(4 * y as int) } else { Seq::empty() },
                forall|i: int| 0 <= i < 16 ==> #[trigger] v@[i] == (i < 4 * y && i < tmpl@.len() && tmpl@[i] == 'X'),
                is_bounding_box(v@, width as int, height as int),
                height <= y,
            decreases 4 - y,
        {
            let mut x: usize = 0;
            while x < 4
                invariant
                    y < 4,
                    x <= 4,
                    s.remaining() == if x + 4 * y <= tmpl@.len() { tmpl@.skip(x + 4 * y as int) } else { Seq::empty() },
                    forall|i: int| 0 <= i < 16 ==> #[trigger] v@[i] == (i < x + 4 * y && i < tmpl@.len() && tmpl@[i] == 'X'),
                    is_bounding_box(v@, width as int, height as int),
                    height <= y + 1,
                    x == 0 ==> height <= y,
                decreases 4 - x,
            {
                let k: usize = x + y * 4;
                let ghost old_v = v@;
                let ghost old_s = s;
                let next = s.next();
                proof {
                    if k < tmpl@.len() {
                        assert(old_s.remaining() == tmpl@.skip(k as int));
                        assert(old_s.remaining()[0] == tmpl@[k as int]);
                        assert(s.remaining() =~= tmpl@.skip(k + 1));
                    }
                }
                if let Some(c) = next {
                    if c == 'X' {
                        let ghost old_w = width;
                        v[k] = true;
                        height = (y + 1) as u8;
                        if (x + 1) as u8 > width {
                            width = (x + 1) as u8;
                        }
                        proof {
                            assert(mask_cell(v@, x as int, y as int));
                            assert forall|cx: int, cy: int| #[trigger] mask_cell(old_v, cx, cy)
                                implies mask_cell(v@, cx, cy) by {
                                assert(cx + cy * 4 != k);
                            }
                            assert forall|cx: int, cy: int| #[trigger] mask_cell(v@, cx, cy)
                                implies cx < width && cy < height by {
                                if !(cx == x && cy == y) {
                                    assert(cx + cy * 4 != k);
                                    assert(mask_cell(old_v, cx, cy));
                                }
                            }
                            if width != x + 1 {
                                let wy = choose|wy: int| #[trigger] mask_cell(old_v, old_w - 1, wy);
                                assert(mask_cell(v@, width - 1, wy));
                            } else {
                                assert(mask_cell(v@, width - 1, y as int));
                            }
                            assert(mask_cell(v@, x as int, height - 1));
                            assert(width <= 4 && height <= 4);
                        }
                    }
                }
                x = x + 1;
            }
            y = y + 1;
        }
        assert(v@ =~= template_mask(tmpl@));
        Tetramino { shape: v, offset: (offset_x, offset_y), size: (width, height) }
    }

    pub fn is_set(&self, x: i8, y: i8) -> (r: bool)
        ensures
            r == self.cell(x as int, y as int),
    {
        if x < 0 || x > 3 || y < 0 || y > 3 {
            return false;
        }
        self.shape[(x + y * 4) as usize]
    }

    pub fn width(&self) -> (r: u8)
        ensures
            r == self.size.0,
    {
        self.size.0
    }

    pub fn height(&self) -> (r: u8)
        ensures
            r == self.size.1,
    {
        self.size.1
    }
}

/// A playable piece: its rotation states and the current rotation index.
#[derive(Clone, Debug)]
pub struct Piece {
    pub tetraminos: Vec<Tetramino>,
    pub index: u8,
    pub piece_type: PieceType,
}

impl Piece {
    /// The rotation state in use.
    pub open spec fn shape(self) -> Tetramino {
        self.tetraminos@[self.index as int]
    }

    /// One to 255 rotation states, all well formed, and a valid index.
    pub open spec fn wf(self) -> bool {
        &&& 0 < self.tetraminos@.len() <= 255
        &&& self.index < self.tetraminos@.len()
        &&& forall|i: int| 0 <= i < self.tetraminos@.len() ==> (#[trigger] self.tetraminos@[i]).wf()
    }

    /// The piece after one forward rotation.
    pub open spec fn turned(self) -> Piece {
        Piece {
            index: if self.index + 1 >= self.tetraminos@.len() { 0 } else { (self.index + 1) as u8 },
            ..self
        }
    }

    /// The piece after one backward rotation.
    pub open spec fn turned_back(self) -> Piece {
        Piece {
            index: if self.index == 0 { (self.tetraminos@.len() - 1) as u8 } else { (self.index - 1) as u8 },
            ..self
        }
    }

    fn new(t: Vec<Tetramino>, pt: PieceType) -> (r: Piece)
        requires
            0 < t@.len() <= 255,
            forall|i: int| 0 <= i < t@.len() ==> (#[trigger] t@[i]).wf(),
        ensures
            r.wf(),
            r.tetraminos@ == t@,
            r.index == 0,
            r.piece_type == pt,
    {
        Piece { tetraminos: t, index: 0, piece_type: pt }
    }

    /// A copy of the rotation state in use.
    pub fn curr(&self) -> (r: Tetramino)
        requires
            self.wf(),
        ensures
            r == self.shape(),
    {
        self.tetraminos[self.index as usize]
    }

    /// Rotates forward, wrapping to the first state after the last.
    pub fn next(&mut self)
        requires
            old(self).wf(),
        ensures
            *final(self) == old(self).turned(),
            final(self).wf(),
    {
        self.index = self.index + 1;
        if self.index as usize >= self.tetraminos.len() {
            self.index = 0;
        }
    }

    /// Rotates backward, wrapping to the last state before the first.
    pub fn prev(&mut self)
        requires
            old(self).wf(),
        ensures
            *final(self) == old(self).turned_back(),
            final(self).wf(),
    {
        self.index = if self.index == 0 {
            (self.tetraminos.len() - 1) as u8
        } else {
            self.index - 1
        };
    }

    /// An independent copy: same rotation states, index and kind.
    pub fn duplicate(&self) -> (r: Piece)
        ensures
            r.tetraminos@ == self.tetraminos@,
            r.index == self.index,
            r.piece_type == self.piece_type,
    {
        let mut t: Vec<Tetramino> = Vec::new();
        let mut i: usize = 0;
        while i < self.tetraminos.len()
            invariant
                i <= self.tetraminos@.len(),
                t@ == self.tetraminos@.subrange(0, i as int),
            decreases self.tetraminos@.len() - i,
        {
            t.push(self.tetraminos[i]);
            i = i + 1;
        }
        assert(t@ =~= self.tetraminos@);
        Piece { tetraminos: t, index: self.index, piece_type: self.piece_type }
    }
}

/// `n` forward rotations.
pub open spec fn turned_n(p: Piece, n: nat) -> Piece
    decreases n,
{
    if n == 0 { p } else { turned_n(p, (n - 1) as nat).turned() }
}

/// `n` backward rotations.
pub open spec fn turned_back_n(p: Piece, n: nat) -> Piece
    decreases n,
{
    if n == 0 { p } else { turned_back_n(p.turned_back(), (n - 1) as nat) }
}

/// Rotating forward any number of times and then backward as many times
/// gives back the same piece.
pub proof fn lemma_rotation_round_trip(p: Piece, n: nat)
    requires
        p.wf(),
    ensures
        turned_back_n(turned_n(p, n), n) == p,
        turned_n(p, n).wf(),
    decreases n,
{
    if n > 0 {
        let m = (n - 1) as nat;
        lemma_rotation_round_trip(p, m);
        let q = turned_n(p, m);
        assert(q.turned().turned_back() == q);
    }
}

/// `t` is the rotation state parsed from template `tmpl` with anchor offset
/// (ox, oy).
pub open spec fn is_rotation(t: Tetramino, tmpl: Seq<char>, ox: i8, oy: i8) -> bool {
    t.shape@ == template_mask(tmpl) && t.offset == (ox, oy)
}

/// The shape catalog: the seven kinds with their rotation states in order.
pub open spec fn is_catalog(r: Seq<Piece>) -> bool {
    &&& r.len() == 7
    &&& forall|k: int| 0 <= k < 7 ==> (#[trigger] r[k]).wf() && r[k].index == 0
    &&& r[0].piece_type == PieceType::O && r[0].tetraminos@.len() == 1
    &&& is_rotation(r[0].tetraminos@[0], "XX..XX.."@, 1, 1)
    &&& r[1].piece_type == PieceType::I && r[1].tetraminos@.len() == 2
    &&& is_rotation(r[1].tetraminos@[0], "XXXX"@, 2, 0)
    &&& is_rotation(r[1].tetraminos@[1], "X...X...X...X"@, 0, 2)
    &&& r[2].piece_type == PieceType::S && r[2].tetraminos@.len() == 2
    &&& is_rotation(r[2].tetraminos@[0], "XX...XX"@, 1, 1)
    &&& is_rotation(r[2].tetraminos@[1], ".X..XX..X"@, 1, 1)
    &&& r[3].piece_type == PieceType::Z && r[3].tetraminos@.len() == 2
    &&& is_rotation(r[3].tetraminos@[0], ".XX.XX"@, 1, 1)
    &&& is_rotation(r[3].tetraminos@[1], "X...XX...X"@, 1, 1)
    &&& r[4].piece_type == PieceType::T && r[4].tetraminos@.len() == 4
    &&& is_rotation(r[4].tetraminos@[0], "XXX..X.."@, 1, 1)
    &&& is_rotation(r[4].tetraminos@[1], ".X..XX...X"@, 1, 1)
    &&& is_rotation(r[4].tetraminos@[2], ".X..XXX"@, 1, 1)
    &&& is_rotation(r[4].tetraminos@[3], "X...XX..X"@, 1, 1)
    &&& r[5].piece_type == PieceType::L && r[5].tetraminos@.len() == 4
    &&& is_rotation(r[5].tetraminos@[0], "X...X...XX"@, 1, 1)
    &&& is_rotation(r[5].tetraminos@[1], "XXX.X"@, 1, 1)
    &&& is_rotation(r[5].tetraminos@[2], "XX...X...X"@, 1, 1)
    &&& is_rotation(r[5].tetraminos@[3], "..X.XXX"@, 1, 1)
    &&& r[6].piece_type == PieceType::J && r[6].tetraminos@.len() == 4
    &&& is_rotation(r[6].tetraminos@[0], ".X...X..XX"@, 1, 1)
    &&& is_rotation(r[6].tetraminos@[1], "X...XXX"@, 1, 1)
    &&& is_rotation(r[6].tetraminos@[2], "XX..X...X"@, 1, 1)
    &&& is_rotation(r[6].tetraminos@[3], "XXX...X"@, 1, 1)
}

/// Builds the shape catalog.
pub fn get_pieces() -> (r: Vec<Piece>)
    ensures
        is_catalog(r@),
{
    vec![
        Piece::new(
            vec![
                Tetramino::new("XX..XX..", 1, 1),
            ],
            PieceType::O,
        ),
        Piece::new(
            vec![
                Tetramino::new("XXXX", 2, 0),
                Tetramino::new("X...X...X...X", 0, 2),
            ],
            PieceType::I,
        ),
        Piece::new(
            vec![
                Tetramino::new("XX...XX", 1, 1),
                Tetramino::new(".X..XX..X", 1, 1),
            ],
            PieceType::S,
        ),
        Piece::new(
            vec![
                Tetramino::new(".XX.XX", 1, 1),
                Tetramino::new("X...XX...X", 1, 1),
            ],
            PieceType::Z,
        ),
        Piece::new(
            vec![
                Tetramino::new("XXX..X..", 1, 1),
                Tetramino::new(".X..XX...X", 1, 1),
                Tetramino::new(".X..XXX", 1, 1),
                Tetramino::new("X...XX..X", 1, 1),
            ],
            PieceType::T,
        ),
        Piece::new(
            vec![
                Tetramino::new("X...X...XX", 1, 1),
                Tetramino::new("XXX.X", 1, 1),
                Tetramino::new("XX...X...X", 1, 1),
                Tetramino::new("..X.XXX", 1, 1),
            ],
            PieceType::L,
        ),
        Piece::new(
            vec![
                Tetramino::new(".X...X..XX", 1, 1),
                Tetramino::new("X...XXX", 1, 1),
                Tetramino::new("XX..X...X", 1, 1),
                Tetramino::new("XXX...X", 1, 1),
            ],
            PieceType::J,
        ),
    ]
}

} // verus!
