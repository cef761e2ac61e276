//! The frame drawn for a game: the board with a one-cell border.
use vstd::prelude::*;
use vstd::string::*;
use crate::game::{Game, GameView};
use crate::grid::{Position, holds};

verus! {

impl GameView {
    /// The glyph at column `x`, row `y` of the bordered frame: `X` on the
    /// border, `S` on a segment, `O` on an apple, blank elsewhere. A
    /// segment covers an apple on the same cell.
    pub open spec fn glyph_at(self, x: int, y: int) -> char {
        if x == 0 || y == 0 || x == self.width + 1 || y == self.height + 1 {
            'X'
        } else if self.segments.contains(((x - 1) as u16, (y - 1) as u16)) {
            'S'
        } else if self.apples.contains(((x - 1) as u16, (y - 1) as u16)) {
            'O'
        } else {
            ' '
        }
    }

    /// The frame row by row, `width + 2` glyphs to a row, `height + 2` rows.
    pub open spec fn frame(self) -> Seq<char> {
        Seq::new(
            ((self.width + 2) * (self.height + 2)) as nat,
            |k: int| self.glyph_at(k % (self.width + 2), k / (self.width + 2)),
        )
    }
}

impl Game {
    /// The frame of the current state, as text. Reads the game only.
    pub fn render(&self) -> (r: String)
        ensures
            r@ == self@.frame(),
    {
        let ghost v = self@;
        let width = self.board_size.0;
        let height = self.board_size.1;
        let tw: u64 = width as u64 + 2;
        let th: u64 = height as u64 + 2;
        assert((tw as int) * (th as int) <= 0x10001 * 0x10001) by (nonlinear_arith)
            requires tw <= 0x10001, th <= 0x10001;
        let total: u64 = tw * th;
        let mut out = String::new();
        let mut k: u64 = 0;
        while k < total
            invariant
                v == self@,
                k <= total,
                tw == v.width + 2,
                th == v.height + 2,
                total == tw * th,
                out@.len() == k,
                forall|i: int| 0 <= i < k ==> out@[i] == #[trigger] v.glyph_at(i % tw as int, i / tw as int),
            decreases total - k,
        {
            let x = k % tw;
            let y = k / tw;
            assert(y < th) by (nonlinear_arith)
                requires tw > 0, k < tw * th, y == k / tw;
            let glyph: &str = if x == 0 || y == 0 || x == tw - 1 || y == th - 1 {
                "X"
            } else {
                let p: Position = ((x - 1) as u16, (y - 1) as u16);
                if holds(&self.snake.segments, p) {
                    "S"
                } else if holds(&self.apples, p) {
                    "O"
                } else {
                    " "
                }
            };
            proof {
                reveal_strlit("X");
                reveal_strlit("S");
                reveal_strlit("O");
                reveal_strlit(" ");
            }
            assert(glyph@ =~= seq![v.glyph_at(x as int, y as int)]);
            out.append(glyph);
            k = k + 1;
        }
        assert(out@ =~= v.frame());
        out
    }
}

} // verus!
