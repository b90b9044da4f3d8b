use vstd::prelude::*;

use crate::cell::{Cell, is_symbol};
use crate::shape::{
    ShapeError, cells_of, consistent_width, lemma_cells_len_rectangle, lemma_pegs_are_x,
    lemma_pegs_update, lemma_two_pegs, lines, measure, occurrences, pegs, symbols_only,
    well_formed,
};

verus! {

/// A position on the board: the first coordinate runs along the width, the
/// second along the height.
pub type Pos = (int, int);

/// The mathematical content of a board.
pub struct BoardView {
    pub width: nat,
    pub height: nat,
    /// The cells, addressed by [`BoardView::index`].
    pub cells: Seq<Cell>,
}

/// A position of the board as a pair of integers.
pub open spec fn pos(p: (u32, u32)) -> Pos {
    (p.0 as int, p.1 as int)
}

/// The board that a shape description makes, or why it makes none: lines of
/// unequal length are reported before unknown symbols.
pub open spec fn parse(s: Seq<char>) -> Result<BoardView, ShapeError> {
    if !consistent_width(lines(s)) {
        Err(ShapeError::InconsistentWidth)
    } else if !symbols_only(s) {
        Err(ShapeError::InvalidSymbol)
    } else {
        Ok(BoardView { width: lines(s)[0].len(), height: lines(s).len(), cells: cells_of(s) })
    }
}

/// Two positions one straight jump apart: equal on one axis, two apart on the other.
pub open spec fn is_jump(src: Pos, dest: Pos) -> bool {
    ||| src.0 == dest.0 && (src.1 - dest.1 == 2 || dest.1 - src.1 == 2)
    ||| src.1 == dest.1 && (src.0 - dest.0 == 2 || dest.0 - src.0 == 2)
}

/// The position halfway between two positions.
pub open spec fn middle(src: Pos, dest: Pos) -> Pos {
    ((src.0 + dest.0) / 2, (src.1 + dest.1) / 2)
}

impl BoardView {
    /// The buffer holds exactly width times height cells.
    pub open spec fn wf(self) -> bool {
        self.cells.len() == self.width * self.height
    }

    /// Where a position is kept in the buffer: `row + column * height`.
    pub open spec fn index(self, p: Pos) -> int {
        p.0 + p.1 * self.height
    }

    /// A position within the width and the height whose index lies in the buffer.
    pub open spec fn in_range(self, p: Pos) -> bool {
        &&& 0 <= p.0 < self.width
        &&& 0 <= p.1 < self.height
        &&& self.index(p) < self.cells.len()
    }

    /// The cell at a position.
    pub open spec fn at(self, p: Pos) -> Cell {
        self.cells[self.index(p)]
    }

    /// A legal move: a peg jumps over an adjacent peg into an empty hole.
    pub open spec fn valid_move(self, src: Pos, dest: Pos) -> bool {
        &&& self.in_range(src)
        &&& self.in_range(dest)
        &&& is_jump(src, dest)
        &&& self.at(src) == Cell::Peg
        &&& self.at(middle(src, dest)) == Cell::Peg
        &&& self.at(dest) == Cell::Hole
    }

    /// The board after a jump from `src` to `dest`: the destination holds a peg,
    /// the source and the jumped-over position are emptied.
    pub open spec fn moved(self, src: Pos, dest: Pos) -> BoardView {
        BoardView {
            cells: self.cells.update(self.index(dest), Cell::Peg).update(
                self.index(src),
                Cell::Hole,
            ).update(self.index(middle(src, dest)), Cell::Hole),
            ..self
        }
    }

    /// The two ends of a jump that lie on the board have the jumped-over position
    /// on the board between them, and the three are kept at three distinct indices.
    pub proof fn lemma_jump_positions(self, src: Pos, dest: Pos)
        requires
            self.in_range(src),
            self.in_range(dest),
            is_jump(src, dest),
        ensures
            self.in_range(middle(src, dest)),
            self.index(src) != self.index(dest),
            self.index(src) != self.index(middle(src, dest)),
            self.index(dest) != self.index(middle(src, dest)),
    {
        let h = self.height as int;
        let mid = middle(src, dest);
        if src.0 == dest.0 {
            let lo = if src.1 < dest.1 { src.1 } else { dest.1 };
            assert(mid.1 == lo + 1);
            assert((lo + 1) * h == lo * h + h) by (nonlinear_arith);
            assert((lo + 2) * h == lo * h + 2 * h) by (nonlinear_arith);
        } else {
            assert(mid.1 == src.1);
        }
    }

    /// Some legal move is left.
    pub open spec fn has_move(self) -> bool {
        exists|src: Pos, dest: Pos| #[trigger] self.valid_move(src, dest)
    }

    /// The number of pegs on the board.
    pub open spec fn peg_count(self) -> nat {
        pegs(self.cells)
    }
}

/// A well-formed shape description makes a board as wide as its first line,
/// as high as its number of lines, with one peg for each `X`.
pub proof fn lemma_construction(s: Seq<char>)
    requires
        well_formed(s),
    ensures
        parse(s) is Ok,
        parse(s)->Ok_0.wf(),
        parse(s)->Ok_0.width == lines(s)[0].len(),
        parse(s)->Ok_0.height == lines(s).len(),
        parse(s)->Ok_0.peg_count() == occurrences(s, 'X'),
{
    lemma_cells_len_rectangle(s);
    lemma_pegs_are_x(s);
}

/// A shape with a line of another length than the first is refused for its
/// width; a shape of consistent width holding a `Y` is refused for its symbols.
pub proof fn lemma_rejections(s: Seq<char>)
    ensures
        (exists|l: int| 0 <= l < lines(s).len() && #[trigger] lines(s)[l].len() != lines(s)[0].len())
            ==> parse(s) == Err::<BoardView, ShapeError>(ShapeError::InconsistentWidth),
        consistent_width(lines(s)) && s.contains('Y') ==> parse(s) == Err::<BoardView, ShapeError>(
            ShapeError::InvalidSymbol,
        ),
{
    if consistent_width(lines(s)) && s.contains('Y') {
        let i = choose|i: int| 0 <= i < s.len() && s[i] == 'Y';
        assert(!is_symbol(s[i]));
    }
}

/// A move is refused whenever one of its conditions fails: ends off the board,
/// a diagonal step or a distance other than two, no peg at the source, no peg
/// to jump over, or no hole at the destination.
pub proof fn lemma_illegal_moves(b: BoardView, src: Pos, dest: Pos)
    ensures
        !b.in_range(src) || !b.in_range(dest) ==> !b.valid_move(src, dest),
        src.0 != dest.0 && src.1 != dest.1 ==> !b.valid_move(src, dest),
        src.0 == dest.0 && src.1 - dest.1 != 2 && dest.1 - src.1 != 2 ==> !b.valid_move(src, dest),
        src.1 == dest.1 && src.0 - dest.0 != 2 && dest.0 - src.0 != 2 ==> !b.valid_move(src, dest),
        b.at(src) != Cell::Peg ==> !b.valid_move(src, dest),
        b.at(middle(src, dest)) != Cell::Peg ==> !b.valid_move(src, dest),
        b.at(dest) != Cell::Hole ==> !b.valid_move(src, dest),
{
}

/// After a legal move the destination holds a peg, the source and the
/// jumped-over position are holes, and exactly one peg has left the board.
pub proof fn lemma_move_effect(b: BoardView, src: Pos, dest: Pos)
    requires
        b.wf(),
        b.valid_move(src, dest),
    ensures
        b.moved(src, dest).wf(),
        b.moved(src, dest).width == b.width,
        b.moved(src, dest).height == b.height,
        b.moved(src, dest).at(dest) == Cell::Peg,
        b.moved(src, dest).at(src) == Cell::Hole,
        b.moved(src, dest).at(middle(src, dest)) == Cell::Hole,
        b.moved(src, dest).peg_count() + 1 == b.peg_count(),
{
    b.lemma_jump_positions(src, dest);
    let (s, m, d) = (b.index(src), b.index(middle(src, dest)), b.index(dest));
    let first = b.cells.update(d, Cell::Peg);
    let second = first.update(s, Cell::Hole);
    lemma_pegs_update(b.cells, d, Cell::Peg);
    lemma_pegs_update(first, s, Cell::Hole);
    lemma_pegs_update(second, m, Cell::Hole);
}

/// A board with a single peg left has no legal move.
pub proof fn lemma_single_peg_stuck(b: BoardView)
    requires
        b.peg_count() == 1,
    ensures
        !b.has_move(),
{
    if b.has_move() {
        let (src, dest) = choose|src: Pos, dest: Pos| #[trigger] b.valid_move(src, dest);
        b.lemma_jump_positions(src, dest);
        lemma_two_pegs(b.cells, b.index(src), b.index(middle(src, dest)));
    }
}

/// A peg solitaire board: a grid of cells built from a shape description.
#[derive(Debug)]
pub struct Board {
    width: u32,
    height: u32,
    cells: Vec<Cell>,
}

impl View for Board {
    type V = BoardView;

    closed spec fn view(&self) -> BoardView {
        BoardView { width: self.width as nat, height: self.height as nat, cells: self.cells@ }
    }
}

impl Board {
    /// Builds a board from lines of `X` (peg), `O` (hole) and space (unusable),
    /// separated by `'\n'`. The symbols are stored in reading order.
    pub fn new(shape: &str) -> (r: Result<Board, ShapeError>)
        requires
            shape@.len() < u32::MAX,
        ensures
            r matches Ok(b) ==> parse(shape@) == Ok::<BoardView, ShapeError>(b@) && b@.wf(),
            r matches Err(e) ==> parse(shape@) == Err::<BoardView, ShapeError>(e),
    {
        let ghost s = shape@;
        let (width, height) = match measure(shape) {
            Some(dims) => dims,
            None => return Err(ShapeError::InconsistentWidth),
        };
        proof {
            lemma_cells_len_rectangle(s);
        }
        let n = shape.unicode_len();
        let mut cells: Vec<Cell> = Vec::new();
        let mut i: usize = 0;
        while i < n
            invariant
                n == s.len(),
                s == shape@,
                i <= n,
                cells@ == cells_of(s.take(i as int)),
                symbols_only(s.take(i as int)),
                consistent_width(lines(s)),
                lines(s).len() >= 1,
                cells_of(s).len() == lines(s)[0].len() * lines(s).len(),
                width == lines(s)[0].len(),
                height == lines(s).len(),
            decreases n - i,
        {
            let c = shape.get_char(i);
            proof {
                assert(s.take(i + 1).drop_last() =~= s.take(i as int));
                assert(s.take(i + 1).last() == c);
            }
            if c != '\n' {
                match Cell::from_char(c) {
                    Ok(cell) => cells.push(cell),
                    Err(_) => {
                        proof {
                            assert(s[i as int] == c);
                            assert(!is_symbol(s[i as int]));
                        }
                        return Err(ShapeError::InvalidSymbol);
                    },
                }
            }
            i = i + 1;
            proof {
                let t = s.take(i as int);
                assert forall|j: int| 0 <= j < t.len() implies t[j] == '\n' || is_symbol(
                    #[trigger] t[j],
                ) by {
                    if j < i - 1 {
                        assert(t[j] == s.take(i - 1)[j]);
                    }
                }
            }
        }
        proof {
            assert(s.take(n as int) =~= s);
        }
        Ok(Board { width, height, cells })
    }

    /// Where the cell at `(row, column)` is kept: `row + column * height`.
    pub fn get_index(&self, row: u32, column: u32) -> (r: usize)
        requires
            row + column * self@.height <= usize::MAX,
        ensures
            r == self@.index(pos((row, column))),
    {
        proof {
            assert(column as int * self.height as int <= row + column * self.height);
        }
        row as usize + column as usize * self.height as usize
    }

    /// The cell at `(row, column)`: `row` below the width, `column` below the
    /// height, and the position's index inside the buffer.
    pub fn get_cell(&self, row: u32, column: u32) -> (r: Cell)
        requires
            self@.in_range(pos((row, column))),
        ensures
            r == self@.at(pos((row, column))),
    {
        assert(self.cells.len() == self.cells@.len());
        self.cells[self.get_index(row, column)]
    }

    /// The number of pegs left on the board.
    pub fn count_peg(&self) -> (r: usize)
        ensures
            r == self@.peg_count(),
    {
        let mut count: usize = 0;
        let mut i: usize = 0;
        while i < self.cells.len()
            invariant
                i <= self.cells.len(),
                count <= i,
                count == pegs(self.cells@.take(i as int)),
            decreases self.cells.len() - i,
        {
            assert(self.cells@.take(i + 1).drop_last() =~= self.cells@.take(i as int));
            if self.cells[i] == Cell::Peg {
                count = count + 1;
            }
            i = i + 1;
        }
        assert(self.cells@.take(i as int) =~= self.cells@);
        count
    }

    /// The buffer index of a position, where it lies on the board.
    fn cell_index(&self, row: u32, column: u32) -> (r: Option<usize>)
        ensures
            r is Some <==> self@.in_range((row as int, column as int)),
            r matches Some(k) ==> k == self@.index((row as int, column as int)),
    {
        if row >= self.width || column >= self.height {
            return None;
        }
        proof {
            assert(column as int * self.height as int <= u32::MAX as int * u32::MAX as int)
                by (nonlinear_arith)
                requires
                    column <= u32::MAX,
                    self.height <= u32::MAX,
            ;
        }
        let k: u64 = row as u64 + column as u64 * self.height as u64;
        if k < self.cells.len() as u64 {
            Some(k as usize)
        } else {
            None
        }
    }

    /// Whether the peg at `src` may jump to `dest`: the two are on the board, one
    /// straight jump apart, with a peg at `src`, a peg between them and a hole at
    /// `dest`.
    pub fn is_valid_move(&self, src: (u32, u32), dest: (u32, u32)) -> (r: bool)
        ensures
            r == self@.valid_move(pos(src), pos(dest)),
    {
        let across = src.1 == dest.1 && (src.0 as u64 + 2 == dest.0 as u64 || dest.0 as u64 + 2
            == src.0 as u64);
        let along = src.0 == dest.0 && (src.1 as u64 + 2 == dest.1 as u64 || dest.1 as u64 + 2
            == src.1 as u64);
        if !across && !along {
            return false;
        }
        let src_index = match self.cell_index(src.0, src.1) {
            Some(k) => k,
            None => return false,
        };
        let dest_index = match self.cell_index(dest.0, dest.1) {
            Some(k) => k,
            None => return false,
        };
        let mid = (
            ((src.0 as u64 + dest.0 as u64) / 2) as u32,
            ((src.1 as u64 + dest.1 as u64) / 2) as u32,
        );
        proof {
            self@.lemma_jump_positions(pos(src), pos(dest));
            assert(pos(mid) == middle(pos(src), pos(dest)));
        }
        let mid_index = match self.cell_index(mid.0, mid.1) {
            Some(k) => k,
            None => return false,
        };
        self.cells[src_index] == Cell::Peg && self.cells[mid_index] == Cell::Peg
            && self.cells[dest_index] == Cell::Hole
    }

    /// Plays a legal jump from `src` to `dest`: the destination receives the
    /// peg, the source and the jumped-over position become holes.
    pub fn make_move(&mut self, src: (u32, u32), dest: (u32, u32))
        requires
            old(self)@.valid_move(pos(src), pos(dest)),
        ensures
            final(self)@ == old(self)@.moved(pos(src), pos(dest)),
    {
        proof {
            self@.lemma_jump_positions(pos(src), pos(dest));
        }
        let mid = (
            ((src.0 as u64 + dest.0 as u64) / 2) as u32,
            ((src.1 as u64 + dest.1 as u64) / 2) as u32,
        );
        assert(pos(mid) == middle(pos(src), pos(dest)));
        let src_index = self.cell_index(src.0, src.1).unwrap();
        let dest_index = self.cell_index(dest.0, dest.1).unwrap();
        let mid_index = self.cell_index(mid.0, mid.1).unwrap();
        self.cells.set(dest_index, Cell::Peg);
        self.cells.set(src_index, Cell::Hole);
        self.cells.set(mid_index, Cell::Hole);
    }

    /// Whether any legal move is left on the board.
    pub fn has_valid_move_left(&self) -> (r: bool)
        ensures
            r == self@.has_move(),
    {
        let mut row: u32 = 0;
        while row < self.width
            invariant
                row <= self.width,
                forall|src: Pos, dest: Pos|
                    src.0 < row ==> !#[trigger] self@.valid_move(src, dest),
            decreases self.width - row,
        {
            let mut column: u32 = 0;
            while column < self.height
                invariant
                    row < self.width,
                    column <= self.height,
                    forall|src: Pos, dest: Pos|
                        src.0 < row || (src.0 == row && src.1 < column) ==> !#[trigger] self@.valid_move(
                            src,
                            dest,
                        ),
                decreases self.height - column,
            {
                let src = (row, column);
                if row as u64 + 2 < self.width as u64 && self.is_valid_move(src, (row + 2, column)) {
                    return true;
                }
                if row >= 2 && self.is_valid_move(src, (row - 2, column)) {
                    return true;
                }
                if column as u64 + 2 < self.height as u64 && self.is_valid_move(src, (row, column + 2)) {
                    return true;
                }
                if column >= 2 && self.is_valid_move(src, (row, column - 2)) {
                    return true;
                }
                assert forall|dest: Pos| !#[trigger] self@.valid_move(pos(src), dest) by {
                    if self@.valid_move(pos(src), dest) {
                        if dest.0 == row + 2 {
                            assert(dest == pos(((row + 2) as u32, column)));
                        } else if dest.0 == row - 2 {
                            assert(dest == pos(((row - 2) as u32, column)));
                        } else if dest.1 == column + 2 {
                            assert(dest == pos((row, (column + 2) as u32)));
                        } else {
                            assert(dest == pos((row, (column - 2) as u32)));
                        }
                    }
                }
                column = column + 1;
            }
            row = row + 1;
        }
        false
    }

    /// The extent along the second coordinate: the number of lines of the shape.
    pub fn height(&self) -> (r: u32)
        ensures
            r == self@.height,
    {
        self.height
    }

    /// The extent along the first coordinate: the length of a line of the shape.
    pub fn width(&self) -> (r: u32)
        ensures
            r == self@.width,
    {
        self.width
    }
}

} // verus!
