use vstd::prelude::*;

verus! {

/// The content of one grid position.
#[derive(Clone, Copy, Debug, PartialEq, Eq, Structural)]
pub enum Cell {
    /// A peg sits here.
    Peg,
    /// An empty hole: a peg may land here.
    Hole,
    /// Outside the playable shape; no move ever touches it.
    Unusable,
}

/// A token that is none of the three cell symbols.
#[derive(Clone, Copy, Debug, PartialEq, Eq, Structural)]
pub struct DecodeError;

/// The cell that a symbol stands for: `X` a peg, `O` a hole, a space an unusable cell.
pub open spec fn cell_of_symbol(c: char) -> Option<Cell> {
    if c == 'X' {
        Some(Cell::Peg)
    } else if c == 'O' {
        Some(Cell::Hole)
    } else if c == ' ' {
        Some(Cell::Unusable)
    } else {
        None
    }
}

/// Whether a character is one of the three cell symbols.
pub open spec fn is_symbol(c: char) -> bool {
    cell_of_symbol(c) is Some
}

/// The cell that a token of exactly one symbol stands for.
pub open spec fn cell_of_token(t: Seq<char>) -> Option<Cell> {
    if t.len() == 1 {
        cell_of_symbol(t[0])
    } else {
        None
    }
}

impl Cell {
    /// Decodes one symbol character.
    pub fn from_char(c: char) -> (r: Result<Cell, DecodeError>)
        ensures
            r matches Ok(cell) ==> cell_of_symbol(c) == Some(cell),
            r is Err <==> cell_of_symbol(c) is None,
    {
        if c == 'X' {
            Ok(Cell::Peg)
        } else if c == 'O' {
            Ok(Cell::Hole)
        } else if c == ' ' {
            Ok(Cell::Unusable)
        } else {
            Err(DecodeError)
        }
    }

    /// Decodes a token: `"X"`, `"O"` or `" "`; anything else is an error.
    pub fn from_str(input: &str) -> (r: Result<Cell, DecodeError>)
        ensures
            r matches Ok(cell) ==> cell_of_token(input@) == Some(cell),
            r is Err <==> cell_of_token(input@) is None,
    {
        if input.unicode_len() != 1 {
            return Err(DecodeError);
        }
        Cell::from_char(input.get_char(0))
    }
}

} // verus!
