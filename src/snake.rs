//! The snake game on a walled square board.
use vstd::prelude::*;

use crate::chance::random_u64;

verus! {

/// Where the snake is heading.
#[derive(Clone, Copy, PartialEq, Eq, Debug, Structural)]
pub enum SnakeDirection {
    Idle,
    Left,
    Right,
    Up,
    Down,
}

/// A cell of the board: column, then row.
#[derive(Clone, Copy, PartialEq, Eq, Debug, Structural)]
pub struct Position {
    pub x: usize,
    pub y: usize,
}

/// The side length of the board, walls included.
pub const BOARD_SIZE: usize = 10;

/// Reaching this score wins the game.
pub const WINNING_SCORE: usize = 64;

/// How many random cells are tried for new food before the board is
/// scanned for a free one.
pub const MAX_FOOD_DRAWS: usize = 1000;

/// Whether the cell at `x`, `y` is part of the surrounding wall.
pub open spec fn is_wall(x: int, y: int) -> bool {
    x == 0 || x == BOARD_SIZE - 1 || y == 0 || y == BOARD_SIZE - 1
}

/// Whether `p` lies inside the wall.
pub open spec fn interior(p: Position) -> bool {
    1 <= p.x < BOARD_SIZE - 1 && 1 <= p.y < BOARD_SIZE - 1
}

/// Whether some part of `body` lies on the cell at `x`, `y`.
pub open spec fn occupies(body: Seq<Position>, x: int, y: int) -> bool {
    exists|i: int| 0 <= i < body.len() && body[i].x == x && #[trigger] body[i].y == y
}

/// The content of a cell: 'W' wall, 'S' snake, 'A' apple, ' ' free.
pub open spec fn spec_cell(body: Seq<Position>, food: Position, x: int, y: int) -> char {
    if is_wall(x, y) {
        'W'
    } else if occupies(body, x, y) {
        'S'
    } else if food.x == x && food.y == y {
        'A'
    } else {
        ' '
    }
}

/// The cell next to `p` in direction `d`.
pub open spec fn step(p: Position, d: SnakeDirection) -> (int, int) {
    match d {
        SnakeDirection::Left => (p.x - 1, p.y as int),
        SnakeDirection::Right => (p.x + 1, p.y as int),
        SnakeDirection::Up => (p.x as int, p.y - 1),
        SnakeDirection::Down => (p.x as int, p.y + 1),
        SnakeDirection::Idle => (p.x as int, p.y as int),
    }
}

/// One game of snake.
pub struct Snake {
    direction: SnakeDirection,
    snake: Vec<Position>,
    food: Position,
    has_won: bool,
    has_died: bool,
    score: usize,
}

impl Snake {
    pub closed spec fn heading(&self) -> SnakeDirection {
        self.direction
    }

    /// The body, head first.
    pub closed spec fn body(&self) -> Seq<Position> {
        self.snake@
    }

    pub closed spec fn apple(&self) -> Position {
        self.food
    }

    pub closed spec fn won(&self) -> bool {
        self.has_won
    }

    pub closed spec fn died(&self) -> bool {
        self.has_died
    }

    pub closed spec fn points(&self) -> nat {
        self.score as nat
    }

    /// The body lies inside the walls and is as long as the score, the
    /// apple lies inside the walls, and the score stays within the winning one.
    pub open spec fn inv(&self) -> bool {
        &&& self.body().len() >= 1
        &&& self.body().len() == self.points()
        &&& self.points() <= WINNING_SCORE
        &&& !self.won() ==> self.points() < WINNING_SCORE
        &&& forall|i: int| 0 <= i < self.body().len() ==> interior(#[trigger] self.body()[i])
        &&& interior(self.apple())
    }

    /// A new game: a body of three cells heading nowhere, an apple, score three.
    pub fn new() -> (r: Snake)
        ensures
            r.inv(),
            r.heading() == SnakeDirection::Idle,
            r.body() == seq![Position { x: 4, y: 4 }, Position { x: 4, y: 5 }, Position { x: 4, y: 6 }],
            r.apple() == (Position { x: 7, y: 3 }),
            r.points() == 3,
            !r.won() && !r.died(),
    {
        let mut snake: Vec<Position> = Vec::new();
        snake.push(Position { x: 4, y: 4 });
        snake.push(Position { x: 4, y: 5 });
        snake.push(Position { x: 4, y: 6 });
        let r = Snake {
            direction: SnakeDirection::Idle,
            snake,
            food: Position { x: 7, y: 3 },
            has_won: false,
            has_died: false,
            score: 3,
        };
        assert(r.body() =~= seq![Position { x: 4, y: 4 }, Position { x: 4, y: 5 }, Position { x: 4, y: 6 }]);
        r
    }

    /// Sets the heading for the next move.
    pub fn set_direction(&mut self, direction: SnakeDirection)
        ensures
            final(self).heading() == direction,
            final(self).body() == old(self).body(),
            final(self).apple() == old(self).apple(),
            final(self).points() == old(self).points(),
            final(self).won() == old(self).won(),
            final(self).died() == old(self).died(),
    {
        self.direction = direction;
    }

    /// Whether the game is over.
    pub fn is_game_over(&self) -> (r: bool)
        ensures
            r == (self.won() || self.died()),
    {
        self.has_won || self.has_died
    }

    /// The score: the length of the body.
    pub fn get_score(&self) -> (r: usize)
        ensures
            r == self.points(),
    {
        self.score
    }

    /// Whether the body covers the cell at `x`, `y`.
    fn covers(&self, x: usize, y: usize) -> (r: bool)
        ensures
            r == occupies(self.body(), x as int, y as int),
    {
        let mut i: usize = 0;
        while i < self.snake.len()
            invariant
                i <= self.body().len(),
                forall|t: int|
                    0 <= t < i ==> !(self.body()[t].x == x && #[trigger] self.body()[t].y == y),
            decreases self.body().len() - i,
        {
            if self.snake[i].x == x && self.snake[i].y == y {
                return true;
            }
            i += 1;
        }
        false
    }

    /// A free cell for new food: random cells are tried first, then the
    /// board is scanned row by row. `None` when no cell is free.
    fn free_cell(&self) -> (r: Option<Position>)
        ensures
            r matches Some(p) ==> interior(p) && spec_cell(self.body(), self.apple(), p.x as int, p.y as int) == ' ',
    {
        let mut k: usize = 0;
        while k < MAX_FOOD_DRAWS
            decreases MAX_FOOD_DRAWS - k,
        {
            let fx = (random_u64() % 8) as usize + 1;
            let fy = (random_u64() % 8) as usize + 1;
            if self.cell(fx, fy) == ' ' {
                return Some(Position { x: fx, y: fy });
            }
            k += 1;
        }
        let mut y: usize = 1;
        while y < BOARD_SIZE - 1
            invariant
                1 <= y <= BOARD_SIZE - 1,
            decreases BOARD_SIZE - y,
        {
            let mut x: usize = 1;
            while x < BOARD_SIZE - 1
                invariant
                    1 <= y < BOARD_SIZE - 1,
                decreases BOARD_SIZE - x,
            {
                if self.cell(x, y) == ' ' {
                    return Some(Position { x, y });
                }
                x += 1;
            }
            y += 1;
        }
        None
    }

    /// Advances the game by one move in the current heading. Running into a
    /// wall or the body loses. On a free cell the body moves, the tail cell
    /// leaving. On the apple the body grows by one and so does the score;
    /// reaching the winning score wins, otherwise a new apple is placed on a
    /// free cell (when none is left the game is won). Nothing happens when
    /// the game is over or the snake has no heading.
    pub fn move_snake(&mut self)
        requires
            old(self).inv(),
        ensures
            final(self).inv(),
            final(self).heading() == old(self).heading(),
            old(self).won() || old(self).died() || old(self).heading() == SnakeDirection::Idle
                ==> *final(self) == *old(self),
            !(old(self).won() || old(self).died() || old(self).heading() == SnakeDirection::Idle)
                ==> {
                let (tx, ty) = step(old(self).body()[0], old(self).heading());
                let target = Position { x: tx as usize, y: ty as usize };
                let c = spec_cell(old(self).body(), old(self).apple(), tx, ty);
                &&& (c == 'W' || c == 'S') ==> {
                    &&& final(self).died()
                    &&& !final(self).won()
                    &&& final(self).body() == old(self).body()
                    &&& final(self).apple() == old(self).apple()
                    &&& final(self).points() == old(self).points()
                }
                &&& c == ' ' ==> {
                    &&& !final(self).died()
                    &&& !final(self).won()
                    &&& final(self).body() == seq![target] + old(self).body().drop_last()
                    &&& final(self).apple() == old(self).apple()
                    &&& final(self).points() == old(self).points()
                }
                &&& c == 'A' ==> {
                    &&& !final(self).died()
                    &&& final(self).body() == seq![target] + old(self).body()
                    &&& final(self).points() == old(self).points() + 1
                    &&& final(self).points() >= WINNING_SCORE ==> final(self).won()
                    &&& !final(self).won() ==> spec_cell(
                        final(self).body(),
                        final(self).apple(),
                        final(self).apple().x as int,
                        final(self).apple().y as int,
                    ) == 'A'
                }
            },
    {
        if self.has_won || self.has_died {
            return;
        }
        let head = self.snake[0];
        let (tx, ty): (usize, usize) = match self.direction {
            SnakeDirection::Left => (head.x - 1, head.y),
            SnakeDirection::Right => (head.x + 1, head.y),
            SnakeDirection::Up => (head.x, head.y - 1),
            SnakeDirection::Down => (head.x, head.y + 1),
            SnakeDirection::Idle => return,
        };
        let c = self.cell(tx, ty);
        if c == 'W' || c == 'S' {
            self.has_died = true;
            return;
        }
        let target = Position { x: tx, y: ty };
        let ghost old_body = self.snake@;
        if c == 'A' {
            self.score += 1;
            let tail = self.snake[self.snake.len() - 1];
            self.snake.push(tail);
            if self.score < WINNING_SCORE {
                assert forall|xx: int, yy: int| occupies(self.snake@, xx, yy) implies occupies(old_body, xx, yy) by {
                    let i = choose|i: int| 0 <= i < self.snake@.len() && self.snake@[i].x == xx && #[trigger] self.snake@[i].y == yy;
                    if i == old_body.len() {
                        assert(old_body[old_body.len() - 1].y == yy);
                    } else {
                        assert(old_body[i].y == yy);
                    }
                }
                match self.free_cell() {
                    Some(p) => self.food = p,
                    None => self.has_won = true,
                }
            } else {
                self.has_won = true;
            }
        }
        let ghost orig = self.snake@;
        let ghost mid = *self;
        let len = self.snake.len();
        let mut prev = self.snake[0];
        self.snake.set(0, target);
        let mut i: usize = 1;
        while i < len
            invariant
                len == orig.len(),
                len >= 1,
                1 <= i <= len,
                self.snake@.len() == len,
                self.snake@[0] == target,
                self.direction == mid.direction,
                self.food == mid.food,
                self.score == mid.score,
                self.has_won == mid.has_won,
                self.has_died == mid.has_died,
                prev == orig[i - 1],
                forall|t: int| 1 <= t < i ==> #[trigger] self.snake@[t] == orig[t - 1],
                forall|t: int| i <= t < len ==> #[trigger] self.snake@[t] == orig[t],
            decreases len - i,
        {
            let cur = self.snake[i];
            self.snake.set(i, prev);
            prev = cur;
            i += 1;
        }
        assert(self.snake@ =~= seq![target] + orig.drop_last());
        if c == 'A' {
            assert(orig.drop_last() =~= old_body);
        }
    }

    /// The content of the cell at `x`, `y`.
    pub fn cell(&self, x: usize, y: usize) -> (r: char)
        ensures
            r == spec_cell(self.body(), self.apple(), x as int, y as int),
    {
        if x == 0 || x == BOARD_SIZE - 1 || y == 0 || y == BOARD_SIZE - 1 {
            'W'
        } else if self.covers(x, y) {
            'S'
        } else if self.food.x == x && self.food.y == y {
            'A'
        } else {
            ' '
        }
    }
}

} // verus!
