//! The game state and its tick.
use vstd::prelude::*;
use crate::grid::{Directions, Position, in_board, step_from, moved, holds};

mod apples;
mod render;

verus! {

/// How many apples lie on the board at any time.
pub const APPLE_COUNT: usize = 5;

struct Snake {
    /// Head first, tail last.
    segments: Vec<Position>,
    direction: Directions,
}

/// A game of snake on a fixed board.
pub struct Game {
    score: u32,
    snake: Snake,
    apples: Vec<Position>,
    /// Interior columns and rows; the border is not counted.
    board_size: (u16, u16),
    is_alive: bool,
}

/// What a game holds, as mathematical values.
pub struct GameView {
    pub width: u16,
    pub height: u16,
    /// Head first, tail last.
    pub segments: Seq<Position>,
    pub direction: Directions,
    pub apples: Seq<Position>,
    pub score: u32,
    pub alive: bool,
}

impl GameView {
    pub open spec fn on_board(self, p: Position) -> bool {
        in_board(p, self.width, self.height)
    }

    /// The number of interior cells.
    pub open spec fn cells(self) -> int {
        self.width * self.height
    }

    /// Apples and snake together take fewer cells than the board has, so an
    /// eaten apple can be put back on a free cell.
    pub open spec fn has_room(self) -> bool {
        self.segments.len() + APPLE_COUNT < self.cells()
    }

    /// Every apple is on the board, no two share a cell, and none lies under
    /// the snake.
    pub open spec fn apples_placed(self) -> bool {
        &&& forall|i: int| 0 <= i < self.apples.len() ==> self.on_board(#[trigger] self.apples[i])
        &&& forall|i: int, j: int|
            0 <= i < j < self.apples.len() ==> self.apples[i] != self.apples[j]
        &&& forall|i: int|
            0 <= i < self.apples.len() ==> !self.segments.contains(#[trigger] self.apples[i])
    }

    /// The invariant of every game: a board with cells, a snake with a
    /// head and a heading, the apples placed, a score below the snake's
    /// length (it starts at one and grows with each apple), and, while the
    /// game goes on, the whole snake on the board.
    pub open spec fn wf(self) -> bool {
        &&& self.width > 0
        &&& self.height > 0
        &&& self.segments.len() >= 1
        &&& self.direction != Directions::Keep
        &&& self.apples.len() == APPLE_COUNT
        &&& self.apples_placed()
        &&& self.score < self.segments.len()
        &&& self.alive ==> forall|i: int|
            0 <= i < self.segments.len() ==> self.on_board(#[trigger] self.segments[i])
    }

    /// The state right after a (re)start: one segment in the middle of the
    /// board heading right, no score, alive.
    pub open spec fn is_fresh(self) -> bool {
        &&& self.segments == seq![((self.width / 2) as u16, (self.height / 2) as u16)]
        &&& self.direction == Directions::Right
        &&& self.score == 0
        &&& self.alive
    }

    /// The heading after input `d`.
    pub open spec fn heading(self, d: Directions) -> Directions {
        if d == Directions::Keep {
            self.direction
        } else {
            d
        }
    }

    /// Where the head goes on input `d`.
    pub open spec fn next_head(self, d: Directions) -> Position {
        step_from(self.segments[0], self.heading(d))
    }

    /// The head lands on an apple.
    pub open spec fn eats(self, d: Directions) -> bool {
        self.apples.contains(self.next_head(d))
    }

    /// The snake after input `d`: every segment takes the place of the one
    /// in front of it, and on an apple the tail stays where it was.
    pub open spec fn next_segments(self, d: Directions) -> Seq<Position> {
        if self.eats(d) {
            seq![self.next_head(d)] + self.segments
        } else {
            seq![self.next_head(d)] + self.segments.drop_last()
        }
    }

    /// The head stays on the board and off the rest of the snake.
    pub open spec fn survives(self, d: Directions) -> bool {
        &&& self.on_board(self.next_head(d))
        &&& !self.next_segments(d).drop_first().contains(self.next_head(d))
    }
}

impl View for Game {
    type V = GameView;

    closed spec fn view(&self) -> GameView {
        GameView {
            width: self.board_size.0,
            height: self.board_size.1,
            segments: self.snake.segments@,
            direction: self.snake.direction,
            apples: self.apples@,
            score: self.score,
            alive: self.is_alive,
        }
    }
}

/// Moves every segment into the place of the one in front of it and puts
/// the head on `head`; returns the cell that the tail left.
fn shift(segments: &mut Vec<Position>, head: Position) -> (vacated: Position)
    requires
        old(segments)@.len() >= 1,
    ensures
        final(segments)@ == seq![head] + old(segments)@.drop_last(),
        vacated == old(segments)@.last(),
{
    let ghost before = segments@;
    let mut vacated = segments[0];
    segments.set(0, head);
    let mut i: usize = 1;
    while i < segments.len()
        invariant
            1 <= i <= segments@.len(),
            segments@.len() == before.len(),
            segments@[0] == head,
            vacated == before[i - 1],
            forall|j: int| 1 <= j < i ==> segments@[j] == before[j - 1],
            forall|j: int| i <= j < segments@.len() ==> segments@[j] == before[j],
        decreases segments@.len() - i,
    {
        let here = segments[i];
        segments.set(i, vacated);
        vacated = here;
        i = i + 1;
    }
    assert(segments@ =~= seq![head] + before.drop_last());
    vacated
}

/// The index of `p` in `cells`.
fn index_of(cells: &Vec<Position>, p: Position) -> (r: usize)
    requires
        cells@.contains(p),
    ensures
        r < cells@.len(),
        cells@[r as int] == p,
{
    let mut i: usize = 0;
    while i < cells.len()
        invariant
            i <= cells@.len(),
            cells@.contains(p),
            forall|j: int| 0 <= j < i ==> cells@[j] != p,
        decreases cells@.len() - i,
    {
        let c = cells[i];
        if c.0 == p.0 && c.1 == p.1 {
            return i;
        }
        i = i + 1;
    }
    // Not reached: `p` is in `cells`, and the loop looked at every entry.
    0
}

/// Whether `p` is one of the segments behind the head.
fn hits_body(segments: &Vec<Position>, p: Position) -> (r: bool)
    requires
        segments@.len() >= 1,
    ensures
        r == segments@.drop_first().contains(p),
{
    let mut i: usize = 1;
    while i < segments.len()
        invariant
            1 <= i <= segments@.len(),
            forall|j: int| 1 <= j < i ==> segments@[j] != p,
        decreases segments@.len() - i,
    {
        let c = segments[i];
        if c.0 == p.0 && c.1 == p.1 {
            assert(segments@.drop_first()[i - 1] == p);
            return true;
        }
        i = i + 1;
    }
    assert forall|j: int| 0 <= j < segments@.drop_first().len() implies segments@.drop_first()[j] != p by {
        assert(segments@.drop_first()[j] == segments@[j + 1]);
    }
    false
}

/// A copy of a list of cells.
fn copy_cells(cells: &Vec<Position>) -> (r: Vec<Position>)
    ensures
        r@ == cells@,
{
    let mut r: Vec<Position> = Vec::new();
    let mut i: usize = 0;
    while i < cells.len()
        invariant
            i <= cells@.len(),
            r@ == cells@.take(i as int),
        decreases cells@.len() - i,
    {
        r.push(cells[i]);
        i = i + 1;
        assert(r@ =~= cells@.take(i as int));
    }
    assert(cells@.take(i as int) =~= cells@);
    r
}

/// Whether every cell of `cells` lies on a board of `width` × `height`.
fn all_on_board(cells: &Vec<Position>, width: u16, height: u16) -> (r: bool)
    ensures
        r == forall|i: int| 0 <= i < cells@.len() ==> in_board(#[trigger] cells@[i], width, height),
{
    let mut i: usize = 0;
    while i < cells.len()
        invariant
            i <= cells@.len(),
            forall|j: int| 0 <= j < i ==> in_board(#[trigger] cells@[j], width, height),
        decreases cells@.len() - i,
    {
        let c = cells[i];
        if c.0 >= width || c.1 >= height {
            return false;
        }
        i = i + 1;
    }
    true
}

/// Whether no two entries of `cells` are the same cell.
fn all_distinct(cells: &Vec<Position>) -> (r: bool)
    ensures
        r == forall|i: int, j: int| 0 <= i < j < cells@.len() ==> cells@[i] != cells@[j],
{
    let mut j: usize = 0;
    while j < cells.len()
        invariant
            j <= cells@.len(),
            forall|a: int, b: int| 0 <= a < b < j ==> cells@[a] != cells@[b],
        decreases cells@.len() - j,
    {
        let mut i: usize = 0;
        while i < j
            invariant
                i <= j < cells@.len(),
                forall|a: int| 0 <= a < i ==> cells@[a] != cells@[j as int],
            decreases j - i,
        {
            let a = cells[i];
            let b = cells[j];
            if a.0 == b.0 && a.1 == b.1 {
                assert(cells@[i as int] == cells@[j as int]);
                return false;
            }
            i = i + 1;
        }
        j = j + 1;
    }
    true
}

/// Whether no entry of `cells` is held by `others`.
fn none_in(cells: &Vec<Position>, others: &Vec<Position>) -> (r: bool)
    ensures
        r == forall|i: int| 0 <= i < cells@.len() ==> !others@.contains(#[trigger] cells@[i]),
{
    let mut i: usize = 0;
    while i < cells.len()
        invariant
            i <= cells@.len(),
            forall|j: int| 0 <= j < i ==> !others@.contains(#[trigger] cells@[j]),
        decreases cells@.len() - i,
    {
        if holds(others, cells[i]) {
            return false;
        }
        i = i + 1;
    }
    true
}

impl Game {
    /// The game meets the invariant of `GameView::wf`.
    pub open spec fn wf(&self) -> bool {
        self@.wf()
    }

    /// A fresh game (see `new`) on a board of `width` × `height` interior
    /// cells; `None` where the board is empty or too small to hold the
    /// snake, every apple and one free cell more.
    pub fn with_board_size(width: u16, height: u16) -> (r: Option<Game>)
        ensures
            r.is_some() <==> (width > 0 && height > 0 && 1 + APPLE_COUNT < width * height),
            r matches Some(g) ==> {
                &&& g.wf()
                &&& g@.width == width
                &&& g@.height == height
                &&& g@.is_fresh()
            },
    {
        if width == 0 || height == 0 {
            return None;
        }
        assert((width as int) * (height as int) <= 0xffff * 0xffff) by (nonlinear_arith)
            requires width <= 0xffff, height <= 0xffff;
        let cells: u32 = width as u32 * height as u32;
        if cells <= 1 + APPLE_COUNT as u32 {
            return None;
        }
        let mut game = Game {
            score: 0,
            snake: Snake { segments: Vec::new(), direction: Directions::Right },
            apples: Vec::new(),
            board_size: (width, height),
            is_alive: true,
        };
        game.new();
        Some(game)
    }

    /// A running game with score zero, built from its parts; `None` unless
    /// they meet the game's invariant (see `GameView::wf`).
    pub fn from_parts(
        width: u16,
        height: u16,
        segments: Vec<Position>,
        direction: Directions,
        apples: Vec<Position>,
    ) -> (r: Option<Game>)
        ensures
            r.is_some() <==> (GameView {
                width,
                height,
                segments: segments@,
                direction,
                apples: apples@,
                score: 0,
                alive: true,
            }).wf(),
            r matches Some(g) ==> g@ == (GameView {
                width,
                height,
                segments: segments@,
                direction,
                apples: apples@,
                score: 0,
                alive: true,
            }),
    {
        if width == 0 || height == 0 || segments.len() == 0 || apples.len() != APPLE_COUNT {
            return None;
        }
        if direction == Directions::Keep {
            return None;
        }
        if !all_on_board(&segments, width, height) || !all_on_board(&apples, width, height) {
            return None;
        }
        if !all_distinct(&apples) || !none_in(&apples, &segments) {
            return None;
        }
        Some(Game { score: 0, snake: Snake { segments, direction }, apples, board_size: (width, height), is_alive: true })
    }

    /// Starts the game over on the same board: one segment in the middle
    /// heading right, score zero, alive, and `APPLE_COUNT` apples on free
    /// cells.
    pub fn new(&mut self)
        requires
            old(self)@.width > 0,
            old(self)@.height > 0,
            1 + APPLE_COUNT < old(self)@.cells(),
        ensures
            final(self).wf(),
            final(self)@.width == old(self)@.width,
            final(self)@.height == old(self)@.height,
            final(self)@.is_fresh(),
    {
        self.score = 0;
        let width = self.board_size.0;
        let height = self.board_size.1;
        let mut segments: Vec<Position> = Vec::new();
        segments.push((width / 2, height / 2));
        self.apples = apples::place_apples(&segments, width, height);
        self.snake = Snake { segments, direction: Directions::Right };
        self.is_alive = true;
        assert(self@.segments =~= seq![((width / 2) as u16, (height / 2) as u16)]);
    }

    /// The number of apples eaten since the start.
    pub fn get_score(&self) -> (r: u32)
        ensures
            r == self@.score,
    {
        self.score
    }

    /// Whether the game goes on.
    pub fn is_alive(&self) -> (r: bool)
        ensures
            r == self@.alive,
    {
        self.is_alive
    }

    /// Whether the snake and the apples leave the board a free cell even
    /// after the snake grows, which `step` needs.
    pub fn has_room(&self) -> (r: bool)
        ensures
            r == self@.has_room(),
    {
        let width = self.board_size.0;
        let height = self.board_size.1;
        assert((width as int) * (height as int) <= 0xffff * 0xffff) by (nonlinear_arith)
            requires width <= 0xffff, height <= 0xffff;
        let cells = (width as u32 * height as u32) as usize;
        cells > APPLE_COUNT && self.snake.segments.len() < cells - APPLE_COUNT
    }

    /// The snake's cells, head first.
    pub fn segments(&self) -> (r: Vec<Position>)
        ensures
            r@ == self@.segments,
    {
        copy_cells(&self.snake.segments)
    }

    /// The apples' cells.
    pub fn apples(&self) -> (r: Vec<Position>)
        ensures
            r@ == self@.apples,
    {
        copy_cells(&self.apples)
    }

    /// The snake's heading.
    pub fn direction(&self) -> (r: Directions)
        ensures
            r == self@.direction,
    {
        self.snake.direction
    }

    /// Interior columns and rows.
    pub fn board_size(&self) -> (r: (u16, u16))
        ensures
            r == (self@.width, self@.height),
    {
        self.board_size
    }

    /// Advances the game by one tick on input `direction_input`: `Keep`
    /// goes on in the current heading, any other input becomes the heading.
    /// The head moves one cell, the rest follows; on an apple the snake
    /// grows by its old tail cell, the score goes up by one and that apple
    /// moves to a free cell. Leaving the board or running into the body
    /// ends the game.
    pub fn step(&mut self, direction_input: Directions)
        requires
            old(self).wf(),
            old(self)@.alive,
            old(self)@.has_room(),
        ensures
            final(self).wf(),
            final(self)@.width == old(self)@.width,
            final(self)@.height == old(self)@.height,
            final(self)@.direction == old(self)@.heading(direction_input),
            final(self)@.segments == old(self)@.next_segments(direction_input),
            final(self)@.segments.len() == old(self)@.segments.len() + if old(self)@.eats(
                direction_input,
            ) {
                1int
            } else {
                0int
            },
            final(self)@.score == old(self)@.score + if old(self)@.eats(direction_input) {
                1int
            } else {
                0int
            },
            final(self)@.alive == old(self)@.survives(direction_input),
            !old(self)@.on_board(old(self)@.next_head(direction_input)) ==> {
                &&& !final(self)@.alive
                &&& final(self)@.score == old(self)@.score
                &&& final(self)@.segments.len() == old(self)@.segments.len()
            },
            final(self)@.segments.drop_first().contains(old(self)@.next_head(direction_input))
                ==> !final(self)@.alive,
            final(self)@.apples.len() == old(self)@.apples.len(),
            forall|i: int|
                0 <= i < old(self)@.apples.len() && old(self)@.apples[i] != old(self)@.next_head(
                    direction_input,
                ) ==> final(self)@.apples[i] == old(self)@.apples[i],
            forall|i: int|
                0 <= i < old(self)@.apples.len() && old(self)@.apples[i] == old(self)@.next_head(
                    direction_input,
                ) ==> {
                    &&& final(self)@.on_board(final(self)@.apples[i])
                    &&& !final(self)@.segments.contains(final(self)@.apples[i])
                    &&& !old(self)@.apples.contains(final(self)@.apples[i])
                },
    {
        let ghost pre = self@;
        match direction_input {
            Directions::Keep => {},
            _ => {
                self.snake.direction = direction_input;
            },
        }
        let width = self.board_size.0;
        let height = self.board_size.1;
        let head = moved(self.snake.segments[0], self.snake.direction);
        assert(head == pre.next_head(direction_input));
        let vacated = shift(&mut self.snake.segments, head);
        if holds(&self.apples, head) {
            assert(!pre.segments.contains(head)) by {
                let k = choose|k: int| 0 <= k < pre.apples.len() && pre.apples[k] == head;
                assert(!pre.segments.contains(pre.apples[k]));
            }
            assert((width as int) * (height as int) <= 0xffff * 0xffff) by (nonlinear_arith)
                requires width <= 0xffff, height <= 0xffff;
            self.score = self.score + 1;
            self.snake.segments.push(vacated);
            assert(self.snake.segments@ =~= seq![head] + pre.segments);
            let eaten = index_of(&self.apples, head);
            let ghost taken = self.snake.segments@ + self.apples@.remove(eaten as int);
            proof {
                let segs = self.snake.segments@;
                let rest = self.apples@.remove(eaten as int);
                assert forall|p: Position|
                    segs.contains(p) || self.apples@.contains(p) implies taken.contains(p) by {
                    if segs.contains(p) {
                        let j = choose|j: int| 0 <= j < segs.len() && segs[j] == p;
                        assert(taken[j] == p);
                    } else {
                        let j = choose|j: int| 0 <= j < self.apples@.len() && self.apples@[j] == p;
                        if j < eaten {
                            assert(taken[segs.len() + j] == p);
                        } else if j > eaten {
                            assert(taken[segs.len() + j - 1] == p);
                        } else {
                            assert(taken[0] == p);
                        }
                    }
                }
            }
            let cell = apples::free_cell(&self.snake.segments, &self.apples, width, height, Ghost(taken));
            proof {
                assert(self.apples@.contains(self.apples@[eaten as int]));
            }
            self.apples.set(eaten, cell);
            proof {
                let v = self@;
                assert forall|i: int| 0 <= i < v.apples.len() implies !v.segments.contains(#[trigger] v.apples[i]) by {
                    if i != eaten {
                        assert(v.apples[i] == pre.apples[i]);
                        assert(!pre.segments.contains(pre.apples[i]));
                        assert(pre.apples[i] != head);
                        if v.segments.contains(v.apples[i]) {
                            let j = choose|j: int| 0 <= j < v.segments.len() && v.segments[j] == v.apples[i];
                            assert(pre.segments[j - 1] == v.apples[i]);
                        }
                    }
                }
                assert forall|i: int, j: int| 0 <= i < j < v.apples.len() implies v.apples[i] != v.apples[j] by {
                    if i == eaten {
                        assert(pre.apples.contains(pre.apples[j]));
                    } else if j == eaten {
                        assert(pre.apples.contains(pre.apples[i]));
                    }
                }
            }
        } else {
            proof {
                let v = self@;
                assert forall|i: int| 0 <= i < v.apples.len() implies !v.segments.contains(#[trigger] v.apples[i]) by {
                    assert(!pre.segments.contains(pre.apples[i]));
                    assert(pre.apples.contains(pre.apples[i]));
                    if v.segments.contains(v.apples[i]) {
                        let j = choose|j: int| 0 <= j < v.segments.len() && v.segments[j] == v.apples[i];
                        assert(pre.segments[j - 1] == v.apples[i]);
                    }
                }
            }
        }
        if hits_body(&self.snake.segments, head) {
            self.is_alive = false;
        }
        if head.0 >= width || head.1 >= height {
            self.is_alive = false;
        }
        proof {
            let v = self@;
            if v.alive {
                assert forall|i: int| 0 <= i < v.segments.len() implies v.on_board(#[trigger] v.segments[i]) by {
                    if i > 0 {
                        assert(v.segments[i] == pre.segments[i - 1]);
                    }
                }
            }
        }
    }
}

/// No two apples share a cell and no apple lies under the snake. This holds
/// in every state a game can reach: `with_board_size`, `new` and
/// `from_parts` only give well-formed games, and `step` keeps them so.
pub proof fn lemma_apples_clear(g: GameView)
    requires
        g.wf(),
    ensures
        forall|i: int, j: int| 0 <= i < j < g.apples.len() ==> g.apples[i] != g.apples[j],
        forall|i: int, k: int|
            0 <= i < g.apples.len() && 0 <= k < g.segments.len() ==> g.apples[i] != g.segments[k],
{
    assert forall|i: int, k: int|
        0 <= i < g.apples.len() && 0 <= k < g.segments.len() implies g.apples[i] != g.segments[k] by {
        if g.apples[i] == g.segments[k] {
            assert(g.segments.contains(g.apples[i]));
        }
    }
}

/// Rendering twice with no step in between gives the same text: the frame
/// depends on the game's state alone, and rendering leaves that state as it
/// was.
pub proof fn lemma_render_repeatable(g: Game, first: String, second: String)
    requires
        first@ == g@.frame(),
        second@ == g@.frame(),
    ensures
        first@ == second@,
{
}

} // verus!
