use vstd::prelude::*;
use crate::position::Position;

verus! {

/// The squares of the four pawns as given on the command line.
#[derive(Debug, Clone, Copy)]
pub struct Cli {
    pub w1: u8,
    pub w2: u8,
    pub b1: u8,
    pub b2: u8,
}

impl Default for Cli {
    /// The usual starting squares: white on 1 and 2, black on 7 and 8.
    fn default() -> (cli: Cli)
        ensures
            cli.w1 == 1,
            cli.w2 == 2,
            cli.b1 == 7,
            cli.b2 == 8,
    {
        Cli { w1: 1, w2: 2, b1: 7, b2: 8 }
    }
}

impl Cli {
    /// The starting position that the arguments describe.
    pub fn start(&self) -> (p: Position)
        ensures
            p == (Position { w1: self.w1, w2: self.w2, b1: self.b1, b2: self.b2, moves_played: 0 }),
    {
        Position::new(self.w1, self.w2, self.b1, self.b2)
    }
}

} // verus!
