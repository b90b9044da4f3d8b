use vstd::prelude::*;

use crate::cell::{Cell, cell_of_symbol, is_symbol};

verus! {

/// Why a shape description could not become a board.
#[derive(Clone, Copy, Debug, PartialEq, Eq, Structural)]
pub enum ShapeError {
    /// Some line is not as long as the first one.
    InconsistentWidth,
    /// Some character is none of `X`, `O`, space (and not a line break).
    InvalidSymbol,
}

/// The lines of a text, split at each `'\n'`: every line break starts a new
/// (empty) line, every other character extends the last one. There is always at
/// least one line.
pub open spec fn lines(s: Seq<char>) -> Seq<Seq<char>>
    decreases s.len(),
{
    if s.len() == 0 {
        seq![Seq::empty()]
    } else {
        let prev = lines(s.drop_last());
        if s.last() == '\n' {
            prev.push(Seq::empty())
        } else {
            prev.update(prev.len() - 1, prev.last().push(s.last()))
        }
    }
}

/// Every line is as long as the first.
pub open spec fn consistent_width(ls: Seq<Seq<char>>) -> bool {
    forall|l: int| 0 <= l < ls.len() ==> #[trigger] ls[l].len() == ls[0].len()
}

/// Every character is a line break or a cell symbol.
pub open spec fn symbols_only(s: Seq<char>) -> bool {
    forall|i: int| 0 <= i < s.len() ==> s[i] == '\n' || is_symbol(#[trigger] s[i])
}

/// A shape description that makes a board.
pub open spec fn well_formed(s: Seq<char>) -> bool {
    consistent_width(lines(s)) && symbols_only(s)
}

/// The cells that the symbols of a text stand for, in reading order, with the
/// line breaks left out.
pub open spec fn cells_of(s: Seq<char>) -> Seq<Cell>
    decreases s.len(),
{
    if s.len() == 0 {
        Seq::empty()
    } else if s.last() == '\n' {
        cells_of(s.drop_last())
    } else {
        cells_of(s.drop_last()).push(cell_of_symbol(s.last()).unwrap())
    }
}

/// How many times a character occurs in a text.
pub open spec fn occurrences(s: Seq<char>, c: char) -> nat
    decreases s.len(),
{
    if s.len() == 0 {
        0
    } else {
        occurrences(s.drop_last(), c) + if s.last() == c { 1nat } else { 0nat }
    }
}

/// How many pegs a sequence of cells holds.
pub open spec fn pegs(cells: Seq<Cell>) -> nat
    decreases cells.len(),
{
    if cells.len() == 0 {
        0
    } else {
        pegs(cells.drop_last()) + if cells.last() == Cell::Peg { 1nat } else { 0nat }
    }
}

/// Replacing one cell changes the peg count by what leaves and what arrives.
pub proof fn lemma_pegs_update(cells: Seq<Cell>, i: int, c: Cell)
    requires
        0 <= i < cells.len(),
    ensures
        pegs(cells.update(i, c)) + (if cells[i] == Cell::Peg { 1int } else { 0int }) == pegs(cells)
            + (if c == Cell::Peg { 1int } else { 0int }),
    decreases cells.len(),
{
    let updated = cells.update(i, c);
    if i == cells.len() - 1 {
        assert(updated.drop_last() =~= cells.drop_last());
    } else {
        lemma_pegs_update(cells.drop_last(), i, c);
        assert(updated.drop_last() =~= cells.drop_last().update(i, c));
    }
}

/// Two pegs at two distinct places make a peg count of at least two.
pub proof fn lemma_two_pegs(cells: Seq<Cell>, i: int, j: int)
    requires
        0 <= i < cells.len(),
        0 <= j < cells.len(),
        i != j,
        cells[i] == Cell::Peg,
        cells[j] == Cell::Peg,
    ensures
        pegs(cells) >= 2,
{
    let once = cells.update(i, Cell::Hole);
    lemma_pegs_update(cells, i, Cell::Hole);
    lemma_pegs_update(once, j, Cell::Hole);
}

/// The total length of a sequence of lines.
pub open spec fn total_len(ls: Seq<Seq<char>>) -> nat
    decreases ls.len(),
{
    if ls.len() == 0 {
        0
    } else {
        total_len(ls.drop_last()) + ls.last().len()
    }
}

proof fn lemma_total_len_update_last(ls: Seq<Seq<char>>, line: Seq<char>)
    requires
        ls.len() > 0,
    ensures
        total_len(ls.update(ls.len() - 1, line)) == total_len(ls) - ls.last().len() + line.len(),
{
    assert(ls.update(ls.len() - 1, line).drop_last() =~= ls.drop_last());
}

proof fn lemma_total_len_uniform(ls: Seq<Seq<char>>, w: nat)
    requires
        forall|l: int| 0 <= l < ls.len() ==> #[trigger] ls[l].len() == w,
    ensures
        total_len(ls) == ls.len() * w,
    decreases ls.len(),
{
    if ls.len() > 0 {
        let prefix = ls.drop_last();
        assert forall|l: int| 0 <= l < prefix.len() implies #[trigger] prefix[l].len() == w by {
            assert(prefix[l] == ls[l]);
        }
        lemma_total_len_uniform(prefix, w);
        let n = prefix.len();
        assert(n * w + w == (n + 1) * w) by (nonlinear_arith);
    }
}

/// Nothing but the line breaks is lost between a text and its lines.
proof fn lemma_cells_len(s: Seq<char>)
    ensures
        lines(s).len() >= 1,
        cells_of(s).len() == total_len(lines(s)),
    decreases s.len(),
{
    if s.len() > 0 {
        let prev = lines(s.drop_last());
        lemma_cells_len(s.drop_last());
        if s.last() == '\n' {
            assert(prev.push(Seq::empty()).drop_last() =~= prev);
        } else {
            lemma_total_len_update_last(prev, prev.last().push(s.last()));
        }
    } else {
        assert(lines(s).drop_last() =~= Seq::<Seq<char>>::empty());
        assert(total_len(Seq::<Seq<char>>::empty()) == 0);
    }
}

/// A shape of consistent width holds width times height cells.
pub proof fn lemma_cells_len_rectangle(s: Seq<char>)
    requires
        consistent_width(lines(s)),
    ensures
        lines(s).len() >= 1,
        cells_of(s).len() == lines(s)[0].len() * lines(s).len(),
{
    lemma_cells_len(s);
    let ls = lines(s);
    lemma_total_len_uniform(ls, ls[0].len());
    assert(ls.len() * ls[0].len() == ls[0].len() * ls.len()) by (nonlinear_arith);
}

/// Reading more text leaves every line but the last one as it was.
proof fn lemma_lines_extend(s: Seq<char>, i: int, j: int)
    requires
        0 <= i <= j <= s.len(),
    ensures
        lines(s.take(j)).len() >= lines(s.take(i)).len(),
        forall|l: int|
            0 <= l < lines(s.take(i)).len() - 1 ==> #[trigger] lines(s.take(j))[l] == lines(
                s.take(i),
            )[l],
    decreases j - i,
{
    lemma_cells_len(s.take(i));
    if j > i {
        lemma_lines_extend(s, i, j - 1);
        assert(s.take(j).drop_last() =~= s.take(j - 1));
        lemma_cells_len(s.take(j - 1));
    }
}

/// The pegs among the cells of a text of symbols are its `X` characters.
pub proof fn lemma_pegs_are_x(s: Seq<char>)
    requires
        symbols_only(s),
    ensures
        pegs(cells_of(s)) == occurrences(s, 'X'),
    decreases s.len(),
{
    if s.len() > 0 {
        let t = s.drop_last();
        assert forall|i: int| 0 <= i < t.len() implies t[i] == '\n' || is_symbol(#[trigger] t[i]) by {
            assert(t[i] == s[i]);
        }
        lemma_pegs_are_x(t);
        assert(s.last() == s[s.len() - 1]);
        if s.last() != '\n' {
            let prev = cells_of(t);
            let c = cell_of_symbol(s.last()).unwrap();
            assert(prev.push(c).drop_last() =~= prev);
        }
    }
}

/// The width and the height of a shape description whose lines are all as
/// long as the first; `None` where one is not.
pub fn measure(shape: &str) -> (r: Option<(u32, u32)>)
    requires
        shape@.len() < u32::MAX,
    ensures
        r is Some <==> consistent_width(lines(shape@)),
        r matches Some((w, h)) ==> w == lines(shape@)[0].len() && h == lines(shape@).len(),
{
    let ghost s = shape@;
    let n = shape.unicode_len();
    let mut i: usize = 0;
    let mut done_lines: usize = 0;
    let mut cur_len: usize = 0;
    let mut width: usize = 0;
    while i < n
        invariant
            n == s.len(),
            s == shape@,
            n < u32::MAX,
            i <= n,
            done_lines <= i,
            cur_len <= i,
            lines(s.take(i as int)).len() == done_lines + 1,
            lines(s.take(i as int))[done_lines as int].len() == cur_len,
            forall|l: int|
                0 <= l < done_lines ==> #[trigger] lines(s.take(i as int))[l].len() == width,
        decreases n - i,
    {
        let c = shape.get_char(i);
        proof {
            assert(s.take(i + 1).drop_last() =~= s.take(i as int));
            assert(s.take(i + 1).last() == c);
        }
        if c == '\n' {
            if done_lines > 0 && cur_len != width {
                proof {
                    lemma_lines_extend(s, i + 1, n as int);
                    assert(s.take(n as int) =~= s);
                    assert(lines(s)[done_lines as int] == lines(s.take(i + 1))[done_lines as int]);
                    assert(lines(s)[0] == lines(s.take(i + 1))[0]);
                }
                return None;
            }
            if done_lines == 0 {
                width = cur_len;
            }
            done_lines = done_lines + 1;
            cur_len = 0;
        } else {
            cur_len = cur_len + 1;
        }
        i = i + 1;
    }
    proof {
        assert(s.take(n as int) =~= s);
    }
    if done_lines > 0 && cur_len != width {
        return None;
    }
    let w = if done_lines == 0 { cur_len } else { width };
    proof {
        assert(lines(s)[0].len() == w);
        assert(consistent_width(lines(s)));
    }
    Some((w as u32, (done_lines + 1) as u32))
}

} // verus!
