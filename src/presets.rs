use vstd::prelude::*;

verus! {

/// The English board: 33 positions in a cross, the centre empty.
pub const ENGLISH_BOARD: &'static str = "  XXX  \n  XXX  \nXXXXXXX\nXXXOXXX\nXXXXXXX\n  XXX  \n  XXX  ";

/// The European board: 37 positions, the English cross with its inner corners filled.
pub const EUROPEAN_BOARD: &'static str = "  XXX  \n XXXXX \nXXXXXXX\nXXXOXXX\nXXXXXXX\n XXXXX \n  XXX  ";

/// Wiegleb's board: a cross of arms three wide and three long.
pub const WIEGLEB_BOARD: &'static str = "   XXX   \n   XXX   \n   XXX   \nXXXXXXXXX\nXXXXOXXXX\nXXXXXXXXX\n   XXX   \n   XXX   \n   XXX   ";

/// The asymmetric board: a cross with one long arm down and one to the right.
pub const ASYMETRIC_BOARD: &'static str = "  XXX   \n  XXX   \n  XXX   \nXXXXXXXX\nXXXOXXXX\nXXXXXXXX\n  XXX   \n  XXX   ";

} // verus!
