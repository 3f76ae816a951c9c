use vstd::prelude::*;
use crate::piece::{Piece, PieceType, Tetramino, is_catalog, mask_cell};

verus! {

/// The largest board side: anchors stay within `i8` with the offsets and the
/// one-step moves added.
pub const MAX_SIDE: u8 = 120;

/// The grid of locked cells, row-major (`x + y * width`).
pub struct Board {
    pub map: Vec<PieceType>,
    /// width, height
    pub size: (u8, u8),
}

/// A row with every cell empty.
pub open spec fn empty_row(w: int) -> Seq<PieceType> {
    Seq::new(w as nat, |x: int| PieceType::Empty)
}

/// Every cell of the row is occupied.
pub open spec fn row_full(row: Seq<PieceType>) -> bool {
    forall|x: int| 0 <= x < row.len() ==> #[trigger] row[x] != PieceType::Empty
}

/// Board cell (x, y) lies under the marked cells of `t` anchored at (ax, ay).
pub open spec fn covers(t: Tetramino, ax: int, ay: int, x: int, y: int) -> bool {
    t.cell(x - ax + t.offset.0, y - ay + t.offset.1)
}

/// Every marked cell of `t` anchored at (ax, ay) lies on a w x h board.
pub open spec fn in_board(t: Tetramino, ax: int, ay: int, w: int, h: int) -> bool {
    forall|lx: int, ly: int|
        #[trigger] t.cell(lx, ly) ==> 0 <= ax - t.offset.0 + lx < w && 0 <= ay - t.offset.1 + ly < h
}

/// The whole bounding box of `t` anchored at (ax, ay) lies on a w x h board.
pub open spec fn bbox_in_board(t: Tetramino, ax: int, ay: int, w: int, h: int) -> bool {
    &&& ax >= t.offset.0
    &&& ax + t.size.0 - t.offset.0 <= w
    &&& ay >= t.offset.1
    &&& ay + t.size.1 - t.offset.1 <= h
}

/// No cell under `t` anchored at (ax, ay) is occupied.
pub open spec fn free_under(rows: Seq<Seq<PieceType>>, t: Tetramino, ax: int, ay: int) -> bool {
    forall|x: int, y: int|
        0 <= y < rows.len() && 0 <= x < rows[y].len() && #[trigger] covers(t, ax, ay, x, y)
            ==> rows[y][x] == PieceType::Empty
}

/// The placement check: bounding box on the board and no overlap.
pub open spec fn fits_at(rows: Seq<Seq<PieceType>>, w: int, t: Tetramino, ax: int, ay: int) -> bool {
    bbox_in_board(t, ax, ay, w, rows.len() as int) && free_under(rows, t, ax, ay)
}

/// Every cell under `t` anchored at (ax, ay) set to `v`, the others kept.
pub open spec fn stamp(rows: Seq<Seq<PieceType>>, t: Tetramino, ax: int, ay: int, v: PieceType) -> Seq<
    Seq<PieceType>,
> {
    Seq::new(
        rows.len(),
        |y: int| Seq::new(rows[y].len(), |x: int| if covers(t, ax, ay, x, y) { v } else { rows[y][x] }),
    )
}

/// Local cell (lx, ly) comes before (x1, y1) in row-major order.
spec fn before(lx: int, ly: int, x1: int, y1: int) -> bool {
    ly < y1 || (ly == y1 && lx < x1)
}

/// `stamp` restricted to the local cells before (x1, y1).
spec fn stamp_upto(
    rows: Seq<Seq<PieceType>>,
    t: Tetramino,
    ax: int,
    ay: int,
    v: PieceType,
    x1: int,
    y1: int,
) -> Seq<Seq<PieceType>> {
    Seq::new(
        rows.len(),
        |y: int|
            Seq::new(
                rows[y].len(),
                |x: int|
                    if covers(t, ax, ay, x, y) && before(x - ax + t.offset.0, y - ay + t.offset.1, x1, y1) {
                        v
                    } else {
                        rows[y][x]
                    },
            ),
    )
}

proof fn lemma_index(w: int, h: int, x: int, y: int)
    requires
        0 <= x < w <= MAX_SIDE,
        0 <= y < h <= MAX_SIDE,
    ensures
        0 <= y * w,
        0 <= x + y * w < w * h <= MAX_SIDE * MAX_SIDE,
{
    assert(w * h <= MAX_SIDE * MAX_SIDE) by (nonlinear_arith)
        requires
            0 <= w <= MAX_SIDE,
            0 <= h <= MAX_SIDE,
    ;
    assert(y * w <= (h - 1) * w) by (nonlinear_arith)
        requires
            0 <= y < h,
            0 <= w,
    ;
    assert((h - 1) * w + w == h * w) by (nonlinear_arith);
    assert(0 <= y * w) by (nonlinear_arith)
        requires
            0 <= y,
            0 <= w,
    ;
}

proof fn lemma_index_distinct(w: int, x1: int, y1: int, x2: int, y2: int)
    requires
        0 <= x1 < w,
        0 <= x2 < w,
        0 <= y1,
        0 <= y2,
        x1 != x2 || y1 != y2,
    ensures
        x1 + y1 * w != x2 + y2 * w,
{
    if y1 < y2 {
        assert((y1 + 1) * w <= y2 * w) by (nonlinear_arith)
            requires
                y1 + 1 <= y2,
                0 <= w,
        ;
        assert((y1 + 1) * w == y1 * w + w) by (nonlinear_arith);
    } else if y2 < y1 {
        assert((y2 + 1) * w <= y1 * w) by (nonlinear_arith)
            requires
                y2 + 1 <= y1,
                0 <= w,
        ;
        assert((y2 + 1) * w == y2 * w + w) by (nonlinear_arith);
    }
}

/// A bounding box on the board puts every marked cell on the board.
pub proof fn lemma_bbox_in_board(t: Tetramino, ax: int, ay: int, w: int, h: int)
    requires
        t.wf(),
        bbox_in_board(t, ax, ay, w, h),
    ensures
        in_board(t, ax, ay, w, h),
{
}

/// The indices of the full rows among rows lo.., bottom row first.
pub open spec fn full_rows_from(rows: Seq<Seq<PieceType>>, lo: int) -> Seq<int>
    decreases rows.len() - lo,
{
    if lo < 0 || lo >= rows.len() {
        Seq::empty()
    } else {
        full_rows_from(rows, lo + 1) + if row_full(rows[lo]) { seq![lo] } else { Seq::empty() }
    }
}

/// The rows lo.. that are not full, top to bottom.
pub open spec fn kept_rows_from(rows: Seq<Seq<PieceType>>, lo: int) -> Seq<Seq<PieceType>>
    decreases rows.len() - lo,
{
    if lo < 0 || lo >= rows.len() {
        Seq::empty()
    } else {
        (if row_full(rows[lo]) { Seq::empty() } else { seq![rows[lo]] }) + kept_rows_from(rows, lo + 1)
    }
}

/// The indices of the full rows, bottom row first.
pub open spec fn full_rows(rows: Seq<Seq<PieceType>>) -> Seq<int> {
    full_rows_from(rows, 0)
}

/// The board once the full rows are gone: as many empty rows on top, then
/// the other rows in their order.
pub open spec fn without_full_rows(rows: Seq<Seq<PieceType>>, w: int) -> Seq<Seq<PieceType>> {
    Seq::new(full_rows(rows).len(), |i: int| empty_row(w)) + kept_rows_from(rows, 0)
}

/// Every row is either full or kept.
pub proof fn lemma_rows_split(rows: Seq<Seq<PieceType>>, lo: int)
    requires
        0 <= lo <= rows.len(),
    ensures
        full_rows_from(rows, lo).len() + kept_rows_from(rows, lo).len() == rows.len() - lo,
    decreases rows.len() - lo,
{
    if lo < rows.len() {
        lemma_rows_split(rows, lo + 1);
    }
}

/// Drawing a piece over free cells and then clearing it at the same place
/// gives back the same board.
pub proof fn lemma_draw_then_clear(rows: Seq<Seq<PieceType>>, t: Tetramino, ax: int, ay: int, v: PieceType)
    requires
        free_under(rows, t, ax, ay),
    ensures
        stamp(stamp(rows, t, ax, ay, v), t, ax, ay, PieceType::Empty) == rows,
{
    assert(stamp(stamp(rows, t, ax, ay, v), t, ax, ay, PieceType::Empty) =~~= rows);
}

/// The shape has a marked cell in its first column and one in its first row,
/// as every shape of the catalog has.
pub open spec fn anchored(t: Tetramino) -> bool {
    &&& exists|y: int| #[trigger] t.cell(0, y)
    &&& exists|x: int| #[trigger] t.cell(x, 0)
}

/// For a shape whose box starts at its marked cells, the placement check
/// holds exactly when every marked cell lands on the board and on a free
/// cell.
pub proof fn lemma_fits_exact(rows: Seq<Seq<PieceType>>, w: int, t: Tetramino, ax: int, ay: int)
    requires
        t.wf(),
        anchored(t),
        forall|y: int| 0 <= y < rows.len() ==> (#[trigger] rows[y]).len() == w,
    ensures
        fits_at(rows, w, t, ax, ay) <==> (in_board(t, ax, ay, w, rows.len() as int) && free_under(rows, t, ax, ay)),
{
    let h = rows.len() as int;
    if fits_at(rows, w, t, ax, ay) {
        lemma_bbox_in_board(t, ax, ay, w, h);
    }
    if in_board(t, ax, ay, w, h) {
        let y0 = choose|y: int| #[trigger] t.cell(0, y);
        let x0 = choose|x: int| #[trigger] t.cell(x, 0);
        assert(t.cell(0, y0));
        assert(t.cell(x0, 0));
        assert(mask_cell(t.shape@, 0, y0));
        assert(mask_cell(t.shape@, x0, 0));
        let yw = choose|y: int| #[trigger] mask_cell(t.shape@, t.size.0 - 1, y);
        let xh = choose|x: int| #[trigger] mask_cell(t.shape@, x, t.size.1 - 1);
        assert(t.cell(t.size.0 - 1, yw));
        assert(t.cell(xh, t.size.1 - 1));
    }
}

/// Every rotation state of the catalog is anchored.
pub proof fn lemma_catalog_anchored(r: Seq<Piece>)
    requires
        is_catalog(r),
    ensures
        forall|k: int, j: int|
            0 <= k < 7 && 0 <= j < r[k].tetraminos@.len() ==> anchored(#[trigger] r[k].tetraminos@[j]),
{
    assert forall|k: int, j: int| 0 <= k < 7 && 0 <= j < r[k].tetraminos@.len() implies anchored(
        #[trigger] r[k].tetraminos@[j],
    ) by {
        reveal_strlit("XX..XX..");
        reveal_strlit("XXXX");
        reveal_strlit("X...X...X...X");
        reveal_strlit("XX...XX");
        reveal_strlit(".X..XX..X");
        reveal_strlit(".XX.XX");
        reveal_strlit("X...XX...X");
        reveal_strlit("XXX..X..");
        reveal_strlit(".X..XX...X");
        reveal_strlit(".X..XXX");
        reveal_strlit("X...XX..X");
        reveal_strlit("X...X...XX");
        reveal_strlit("XXX.X");
        reveal_strlit("XX...X...X");
        reveal_strlit("..X.XXX");
        reveal_strlit(".X...X..XX");
        reveal_strlit("X...XXX");
        reveal_strlit("XX..X...X");
        reveal_strlit("XXX...X");
        let t = r[k].tetraminos@[j];
        assert(t.cell(0, 0) || t.cell(0, 1) || t.cell(0, 2));
        assert(t.cell(0, 0) || t.cell(1, 0) || t.cell(2, 0));
    }
}

/// For every rotation state of the catalog, the placement check holds
/// exactly when every marked cell lands on the board and on a free cell.
pub proof fn lemma_catalog_fits_exact(
    r: Seq<Piece>,
    k: int,
    j: int,
    rows: Seq<Seq<PieceType>>,
    w: int,
    ax: int,
    ay: int,
)
    requires
        is_catalog(r),
        0 <= k < 7,
        0 <= j < r[k].tetraminos@.len(),
        forall|y: int| 0 <= y < rows.len() ==> (#[trigger] rows[y]).len() == w,
    ensures
        ({
            let t = r[k].tetraminos@[j];
            fits_at(rows, w, t, ax, ay) <==> (in_board(t, ax, ay, w, rows.len() as int) && free_under(
                rows,
                t,
                ax,
                ay,
            ))
        }),
{
    lemma_catalog_anchored(r);
    lemma_fits_exact(rows, w, r[k].tetraminos@[j], ax, ay);
}

proof fn lemma_kept_all(rows: Seq<Seq<PieceType>>, lo: int)
    requires
        0 <= lo <= rows.len(),
        forall|y: int| 0 <= y < rows.len() ==> !row_full(#[trigger] rows[y]),
    ensures
        kept_rows_from(rows, lo) == rows.subrange(lo, rows.len() as int),
        full_rows_from(rows, lo) == Seq::<int>::empty(),
    decreases rows.len() - lo,
{
    if lo < rows.len() {
        lemma_kept_all(rows, lo + 1);
        assert(kept_rows_from(rows, lo) =~= rows.subrange(lo, rows.len() as int));
        assert(full_rows_from(rows, lo) =~= Seq::<int>::empty());
    }
}

/// With no full row, line removal removes nothing and keeps every row.
pub proof fn lemma_no_full_rows(rows: Seq<Seq<PieceType>>, w: int)
    requires
        forall|y: int| 0 <= y < rows.len() ==> !row_full(#[trigger] rows[y]),
    ensures
        full_rows(rows) == Seq::<int>::empty(),
        without_full_rows(rows, w) == rows,
{
    lemma_kept_all(rows, 0);
    assert(without_full_rows(rows, w) =~= rows);
}

impl View for Board {
    type V = Seq<Seq<PieceType>>;

    /// The rows, top to bottom.
    open spec fn view(&self) -> Seq<Seq<PieceType>> {
        Seq::new(
            self.size.1 as nat,
            |y: int| Seq::new(self.size.0 as nat, |x: int| self.map@[x + y * self.size.0]),
        )
    }
}

impl Board {
    pub open spec fn wf(self) -> bool {
        &&& self.size.0 <= MAX_SIDE
        &&& self.size.1 <= MAX_SIDE
        &&& self.map@.len() == self.size.0 as int * self.size.1 as int
    }

    /// An empty board of the given size.
    pub fn new(width: u8, height: u8) -> (r: Board)
        requires
            width <= MAX_SIDE,
            height <= MAX_SIDE,
        ensures
            r.wf(),
            r.size == (width, height),
            r@ == Seq::new(height as nat, |y: int| empty_row(width as int)),
    {
        assert(width * height <= MAX_SIDE * MAX_SIDE) by (nonlinear_arith)
            requires
                width <= MAX_SIDE,
                height <= MAX_SIDE,
        ;
        let n: usize = (width as usize) * height as usize;
        let map = vec![PieceType::Empty; n];
        let r = Board { map, size: (width, height) };
        assert(r@ =~~= Seq::new(height as nat, |y: int| empty_row(width as int))) by {
            assert forall|y: int, x: int| 0 <= y < height && 0 <= x < width implies r@[y][x]
                == PieceType::Empty by {
                lemma_index(width as int, height as int, x, y);
            }
        }
        r
    }

    pub fn width(&self) -> (r: u8)
        ensures
            r == self.size.0,
    {
        self.size.0
    }

    pub fn height(&self) -> (r: u8)
        ensures
            r == self.size.1,
    {
        self.size.1
    }

    fn get(&self, x: usize, y: usize) -> (r: PieceType)
        requires
            self.wf(),
            x < self.size.0,
            y < self.size.1,
        ensures
            r == self@[y as int][x as int],
    {
        proof {
            lemma_index(self.size.0 as int, self.size.1 as int, x as int, y as int);
        }
        self.map[x + y * self.size.0 as usize]
    }

    fn set(&mut self, x: usize, y: usize, v: PieceType)
        requires
            old(self).wf(),
            x < old(self).size.0,
            y < old(self).size.1,
        ensures
            final(self).wf(),
            final(self).size == old(self).size,
            final(self)@ == old(self)@.update(y as int, old(self)@[y as int].update(x as int, v)),
    {
        let w = self.size.0 as usize;
        proof {
            lemma_index(w as int, self.size.1 as int, x as int, y as int);
        }
        self.map.set(x + y * w, v);
        proof {
            let w = w as int;
            let h = self.size.1 as int;
            assert forall|y2: int, x2: int| 0 <= y2 < h && 0 <= x2 < w && (x2 != x || y2 != y) implies
                #[trigger] self.map@[x2 + y2 * w] == old(self).map@[x2 + y2 * w] by {
                lemma_index_distinct(w, x2, y2, x as int, y as int);
                lemma_index(w, h, x2, y2);
            }
        }
        assert(self@ =~~= old(self)@.update(y as int, old(self)@[y as int].update(x as int, v)));
    }

    /// Whether cell (x, y) is occupied.
    pub fn is_set(&self, x: i8, y: i8) -> (r: bool)
        requires
            self.wf(),
            0 <= x < self.size.0,
            0 <= y < self.size.1,
        ensures
            r == (self@[y as int][x as int] != PieceType::Empty),
    {
        self.get(x as usize, y as usize) != PieceType::Empty
    }

    /// Sets every cell under `t` anchored at (ax, ay) to `v`.
    fn stamp_cells(&mut self, t: &Tetramino, ax: i8, ay: i8, v: PieceType)
        requires
            old(self).wf(),
            t.wf(),
            in_board(*t, ax as int, ay as int, old(self).size.0 as int, old(self).size.1 as int),
        ensures
            final(self).wf(),
            final(self).size == old(self).size,
            final(self)@ == stamp(old(self)@, *t, ax as int, ay as int, v),
    {
        let ghost rows = self@;
        let ghost w = self.size.0 as int;
        let ghost h = self.size.1 as int;
        let base_x: i16 = ax as i16 - t.offset.0 as i16;
        let base_y: i16 = ay as i16 - t.offset.1 as i16;
        let mut y1: u8 = 0;
        assert(self@ =~~= stamp_upto(rows, *t, ax as int, ay as int, v, 0, 0));
        while y1 < t.height()
            invariant
                self.wf(),
                self.size == old(self).size,
                rows == old(self)@,
                w == self.size.0,
                h == self.size.1,
                t.wf(),
                in_board(*t, ax as int, ay as int, w, h),
                base_x == ax - t.offset.0,
                base_y == ay - t.offset.1,
                y1 <= t.size.1,
                self@ == stamp_upto(rows, *t, ax as int, ay as int, v, 0, y1 as int),
            decreases t.size.1 - y1,
        {
            let mut x1: u8 = 0;
            while x1 < t.width()
                invariant
                    self.wf(),
                    self.size == old(self).size,
                    rows == old(self)@,
                    w == self.size.0,
                    h == self.size.1,
                    t.wf(),
                    in_board(*t, ax as int, ay as int, w, h),
                    base_x == ax - t.offset.0,
                    base_y == ay - t.offset.1,
                    y1 < t.size.1,
                    x1 <= t.size.0,
                    self@ == stamp_upto(rows, *t, ax as int, ay as int, v, x1 as int, y1 as int),
                decreases t.size.0 - x1,
            {
                let ghost prev = self@;
                if t.is_set(x1 as i8, y1 as i8) {
                    let bx = base_x + x1 as i16;
                    let by = base_y + y1 as i16;
                    self.set(bx as usize, by as usize, v);
                }
                assert(self@ =~~= stamp_upto(rows, *t, ax as int, ay as int, v, x1 + 1, y1 as int));
                x1 = x1 + 1;
            }
            assert(self@ =~~= stamp_upto(rows, *t, ax as int, ay as int, v, 0, y1 + 1));
            y1 = y1 + 1;
        }
        assert(self@ =~~= stamp(rows, *t, ax as int, ay as int, v));
    }

    /// Marks the cells under the piece's current shape with its kind.
    pub fn draw(&mut self, p: &Piece, x: i8, y: i8)
        requires
            old(self).wf(),
            p.wf(),
            in_board(p.shape(), x as int, y as int, old(self).size.0 as int, old(self).size.1 as int),
        ensures
            final(self).wf(),
            final(self).size == old(self).size,
            final(self)@ == stamp(old(self)@, p.shape(), x as int, y as int, p.piece_type),
    {
        let t = p.curr();
        self.stamp_cells(&t, x, y, p.piece_type);
    }

    /// Empties the cells under the piece's current shape.
    pub fn clear(&mut self, p: &Piece, x: i8, y: i8)
        requires
            old(self).wf(),
            p.wf(),
            in_board(p.shape(), x as int, y as int, old(self).size.0 as int, old(self).size.1 as int),
        ensures
            final(self).wf(),
            final(self).size == old(self).size,
            final(self)@ == stamp(old(self)@, p.shape(), x as int, y as int, PieceType::Empty),
    {
        let t = p.curr();
        self.stamp_cells(&t, x, y, PieceType::Empty);
    }

    /// Whether the piece's current shape can stand at (x, y): its whole
    /// bounding box on the board and no marked cell over an occupied one.
    pub fn fits(&mut self, p: &Piece, x: i8, y: i8) -> (r: bool)
        requires
            old(self).wf(),
            p.wf(),
        ensures
            *final(self) == *old(self),
            r == fits_at(old(self)@, old(self).size.0 as int, p.shape(), x as int, y as int),
    {
        let c = p.curr();
        let ghost rows = self@;
        if (x as i16) < c.offset.0 as i16 {
            return false;
        }
        if x as i16 + c.width() as i16 - c.offset.0 as i16 > self.width() as i16 {
            return false;
        }
        if (y as i16) < c.offset.1 as i16 {
            return false;
        }
        if y as i16 + c.height() as i16 - c.offset.1 as i16 > self.height() as i16 {
            return false;
        }
        proof {
            lemma_bbox_in_board(c, x as int, y as int, self.size.0 as int, self.size.1 as int);
        }
        let base_x: i16 = x as i16 - c.offset.0 as i16;
        let base_y: i16 = y as i16 - c.offset.1 as i16;
        let mut y1: u8 = 0;
        while y1 < c.height()
            invariant
                self.wf(),
                rows == self@,
                c == p.shape(),
                c.wf(),
                in_board(c, x as int, y as int, self.size.0 as int, self.size.1 as int),
                base_x == x - c.offset.0,
                base_y == y - c.offset.1,
                y1 <= c.size.1,
                forall|bx: int, by: int|
                    0 <= by < rows.len() && 0 <= bx < rows[by].len() && #[trigger] covers(c, x as int, y as int, bx, by)
                        && by - y + c.offset.1 < y1 ==> rows[by][bx] == PieceType::Empty,
            decreases c.size.1 - y1,
        {
            let mut x1: u8 = 0;
            while x1 < c.width()
                invariant
                    self.wf(),
                    rows == self@,
                    c == p.shape(),
                    c.wf(),
                    in_board(c, x as int, y as int, self.size.0 as int, self.size.1 as int),
                    base_x == x - c.offset.0,
                    base_y == y - c.offset.1,
                    y1 < c.size.1,
                    x1 <= c.size.0,
                    forall|bx: int, by: int|
                        0 <= by < rows.len() && 0 <= bx < rows[by].len() && #[trigger] covers(c, x as int, y as int, bx, by)
                            && before(bx - x + c.offset.0, by - y + c.offset.1, x1 as int, y1 as int)
                            ==> rows[by][bx] == PieceType::Empty,
                decreases c.size.0 - x1,
            {
                if c.is_set(x1 as i8, y1 as i8) {
                    let bx = base_x + x1 as i16;
                    let by = base_y + y1 as i16;
                    if self.get(bx as usize, by as usize) != PieceType::Empty {
                        proof {
                            assert(c.cell(x1 as int, y1 as int));
                            assert(covers(c, x as int, y as int, bx as int, by as int));
                            assert(rows[by as int][bx as int] != PieceType::Empty);
                            assert(!free_under(rows, c, x as int, y as int));
                        }
                        return false;
                    }
                }
                x1 = x1 + 1;
            }
            y1 = y1 + 1;
        }
        true
    }

    fn is_line_full(&self, y: i8) -> (r: bool)
        requires
            self.wf(),
            0 <= y < self.size.1,
        ensures
            r == row_full(self@[y as int]),
    {
        let mut x: u8 = 0;
        while x < self.width()
            invariant
                self.wf(),
                0 <= y < self.size.1,
                x <= self.size.0,
                forall|x2: int| 0 <= x2 < x ==> #[trigger] self@[y as int][x2] != PieceType::Empty,
            decreases self.size.0 - x,
        {
            if !self.is_set(x as i8, y) {
                return false;
            }
            x = x + 1;
        }
        true
    }

    fn clear_line(&mut self, y: u8)
        requires
            old(self).wf(),
            y < old(self).size.1,
        ensures
            final(self).wf(),
            final(self).size == old(self).size,
            final(self)@ == old(self)@.update(y as int, empty_row(old(self).size.0 as int)),
    {
        let mut x: u8 = 0;
        assert(self@ =~~= old(self)@.update(
            y as int,
            Seq::new(
                self.size.0 as nat,
                |x2: int| if x2 < x { PieceType::Empty } else { old(self)@[y as int][x2] },
            ),
        ));
        while x < self.width()
            invariant
                self.wf(),
                self.size == old(self).size,
                y < self.size.1,
                x <= self.size.0,
                self@ == old(self)@.update(
                    y as int,
                    Seq::new(
                        self.size.0 as nat,
                        |x2: int| if x2 < x { PieceType::Empty } else { old(self)@[y as int][x2] },
                    ),
                ),
            decreases self.size.0 - x,
        {
            self.set(x as usize, y as usize, PieceType::Empty);
            x = x + 1;
            assert(self@ =~~= old(self)@.update(
                y as int,
                Seq::new(
                    self.size.0 as nat,
                    |x2: int| if x2 < x { PieceType::Empty } else { old(self)@[y as int][x2] },
                ),
            ));
        }
        assert(self@ =~~= old(self)@.update(y as int, empty_row(old(self).size.0 as int)));
    }

    fn copy_line(&mut self, from_y: i8, to_y: i8)
        requires
            old(self).wf(),
            0 <= from_y < old(self).size.1,
            0 <= to_y < old(self).size.1,
            from_y != to_y,
        ensures
            final(self).wf(),
            final(self).size == old(self).size,
            final(self)@ == old(self)@.update(to_y as int, old(self)@[from_y as int]),
    {
        let mut x: u8 = 0;
        assert(self@ =~~= old(self)@.update(
            to_y as int,
            Seq::new(
                self.size.0 as nat,
                |x2: int| if x2 < x { old(self)@[from_y as int][x2] } else { old(self)@[to_y as int][x2] },
            ),
        ));
        while x < self.width()
            invariant
                self.wf(),
                self.size == old(self).size,
                0 <= from_y < self.size.1,
                0 <= to_y < self.size.1,
                from_y != to_y,
                x <= self.size.0,
                self@ == old(self)@.update(
                    to_y as int,
                    Seq::new(
                        self.size.0 as nat,
                        |x2: int|
                            if x2 < x { old(self)@[from_y as int][x2] } else { old(self)@[to_y as int][x2] },
                    ),
                ),
            decreases self.size.0 - x,
        {
            let c = self.get(x as usize, from_y as usize);
            self.set(x as usize, to_y as usize, c);
            x = x + 1;
            assert(self@ =~~= old(self)@.update(
                to_y as int,
                Seq::new(
                    self.size.0 as nat,
                    |x2: int| if x2 < x { old(self)@[from_y as int][x2] } else { old(self)@[to_y as int][x2] },
                ),
            ));
        }
        assert(self@ =~~= old(self)@.update(to_y as int, old(self)@[from_y as int]));
    }

    /// Drops row y: the rows above move down by one, row 0 becomes empty.
    fn scroll_down(&mut self, y: i8)
        requires
            old(self).wf(),
            0 <= y < old(self).size.1,
        ensures
            final(self).wf(),
            final(self).size == old(self).size,
            final(self)@ == seq![empty_row(old(self).size.0 as int)] + old(self)@.subrange(0, y as int)
                + old(self)@.subrange(y + 1, old(self).size.1 as int),
    {
        let ghost rows = self@;
        let ghost h = self.size.1 as int;
        let mut y2: i8 = 0;
        while y2 < y
            invariant
                self.wf(),
                self.size == old(self).size,
                rows == old(self)@,
                h == self.size.1,
                0 <= y < h,
                0 <= y2 <= y,
                self@ == rows.subrange(0, y - y2 + 1) + rows.subrange(y - y2, y as int) + rows.subrange(
                    y + 1,
                    h,
                ),
            decreases y - y2,
        {
            let ry = y - y2;
            self.copy_line(ry - 1, ry);
            y2 = y2 + 1;
            assert(self@ =~= rows.subrange(0, y - y2 + 1) + rows.subrange(y - y2, y as int) + rows.subrange(
                y + 1,
                h,
            ));
        }
        self.clear_line(0);
        assert(self@ =~= seq![empty_row(self.size.0 as int)] + rows.subrange(0, y as int) + rows.subrange(
            y + 1,
            h,
        ));
    }

    /// Removes the full rows and moves the rows above them down. Returns the
    /// indices of the removed rows, bottom row first.
    pub fn remove_full_lines(&mut self) -> (r: Vec<i8>)
        requires
            old(self).wf(),
        ensures
            final(self).wf(),
            final(self).size == old(self).size,
            final(self)@ == without_full_rows(old(self)@, old(self).size.0 as int),
            r@.map_values(|v: i8| v as int) == full_rows(old(self)@),
    {
        let ghost rows = self@;
        let ghost h = self.size.1 as int;
        let ghost w = self.size.0 as int;
        let mut lines: i8 = 0;
        let mut v: Vec<i8> = Vec::new();
        let mut ry: i8 = self.height() as i8 - 1;
        // rows above the first `lines` ones are all empty once ry < lines
        while ry >= lines
            invariant
                self.wf(),
                self.size == old(self).size,
                rows == old(self)@,
                h == self.size.1,
                w == self.size.0,
                0 <= lines,
                -1 <= ry - lines,
                ry < h,
                self@.subrange(0, lines as int) == Seq::new(lines as nat, |i: int| empty_row(w)),
                self@.subrange(lines as int, ry + 1) == rows.subrange(0, ry - lines + 1),
                self@.subrange(ry + 1, h) == kept_rows_from(rows, ry - lines + 1),
                lines == full_rows_from(rows, ry - lines + 1).len(),
                v@.map_values(|v: i8| v as int) == full_rows_from(rows, ry - lines + 1),
            decreases ry - lines + 1,
        {
            let ghost cur = self@;
            let ghost big_r = ry - lines;
            assert(cur[ry as int] == cur.subrange(lines as int, ry + 1)[ry - lines]);
            if self.is_line_full(ry) {
                v.push(ry - lines);
                lines = lines + 1;
                self.scroll_down(ry);
                assert(self@.subrange(0, lines as int) =~= Seq::new(lines as nat, |i: int| empty_row(w)));
                assert(self@.subrange(lines as int, ry + 1) =~= rows.subrange(0, ry - lines + 1));
                assert(self@.subrange(ry + 1, h) =~= kept_rows_from(rows, ry - lines + 1));
                assert(v@.map_values(|v: i8| v as int) =~= full_rows_from(rows, ry - lines + 1));
            } else {
                ry = ry - 1;
                assert(self@.subrange(lines as int, ry + 1) =~= rows.subrange(0, ry - lines + 1));
                assert(self@.subrange(ry + 1, h) =~= kept_rows_from(rows, ry - lines + 1));
            }
        }
        proof {
            lemma_rows_split(rows, 0);
            assert(self@ =~= self@.subrange(0, lines as int) + self@.subrange(lines as int, ry + 1)
                + self@.subrange(ry + 1, h));
        }
        assert(self@ =~= without_full_rows(rows, w));
        v
    }
}

} // verus!
