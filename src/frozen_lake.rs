//! The frozen-lake grid world: walk from the start to the goal without
//! falling into a hole, within a bounded number of moves.
use vstd::prelude::*;

verus! {

/// A move on the lake.
#[derive(Clone, Copy, PartialEq, Eq, Debug, Structural)]
pub enum Direction {
    Left,
    Right,
    Up,
    Down,
}

/// The side length of the square lake, border included.
pub const LAKE_SIZE: usize = 6;

/// The goal's column and row.
pub const GOAL: i64 = 4;

/// After this many moves the episode ends.
pub const MAX_MOVES: usize = 50;

/// Row `y` of the lake: 'S' start, 'F' frozen, 'H' hole, 'G' goal. The
/// border is all holes.
pub open spec fn lake_row(y: int) -> Seq<char> {
    if y == 1 {
        seq!['H', 'S', 'F', 'F', 'F', 'H']
    } else if y == 2 {
        seq!['H', 'F', 'H', 'F', 'H', 'H']
    } else if y == 3 {
        seq!['H', 'F', 'F', 'F', 'H', 'H']
    } else if y == 4 {
        seq!['H', 'H', 'F', 'F', 'G', 'H']
    } else {
        seq!['H', 'H', 'H', 'H', 'H', 'H']
    }
}

/// The tile at column `x` and row `y`.
pub open spec fn spec_tile(x: int, y: int) -> char {
    lake_row(y)[x]
}

/// The tile at column `x` and row `y`.
pub fn tile(x: usize, y: usize) -> (c: char)
    requires
        x < LAKE_SIZE,
        y < LAKE_SIZE,
    ensures
        c == spec_tile(x as int, y as int),
{
    let row: [char; 6] = if y == 1 {
        ['H', 'S', 'F', 'F', 'F', 'H']
    } else if y == 2 {
        ['H', 'F', 'H', 'F', 'H', 'H']
    } else if y == 3 {
        ['H', 'F', 'F', 'F', 'H', 'H']
    } else if y == 4 {
        ['H', 'H', 'F', 'F', 'G', 'H']
    } else {
        ['H', 'H', 'H', 'H', 'H', 'H']
    };
    assert(row@ =~= lake_row(y as int));
    row[x]
}

/// 2 to the power `e`.
pub open spec fn pow2(e: nat) -> nat
    decreases e,
{
    if e == 0 {
        1
    } else {
        2 * pow2((e - 1) as nat)
    }
}

proof fn lemma_pow2_monotone(a: nat, b: nat)
    requires
        a <= b,
    ensures
        pow2(a) <= pow2(b),
    decreases b,
{
    if a < b {
        lemma_pow2_monotone(a, (b - 1) as nat);
    }
}

/// The absolute value of `v`.
pub open spec fn abs(v: int) -> int {
    if v < 0 {
        -v
    } else {
        v
    }
}

/// One-hot encoding of a tile: walkable (start or frozen), hole, goal.
pub open spec fn tile_features(c: char) -> Seq<i64> {
    seq![
        if c == 'F' || c == 'S' { 1i64 } else { 0i64 },
        if c == 'H' { 1i64 } else { 0i64 },
        if c == 'G' { 1i64 } else { 0i64 },
    ]
}

fn push_tile_features(v: &mut Vec<i64>, c: char)
    ensures
        final(v)@ == old(v)@ + tile_features(c),
{
    v.push(if c == 'F' || c == 'S' { 1 } else { 0 });
    v.push(if c == 'H' { 1 } else { 0 });
    v.push(if c == 'G' { 1 } else { 0 });
    assert(v@ =~= old(v)@ + tile_features(c));
}

/// One episode on the lake.
pub struct FrozenLake {
    has_won: bool,
    has_died: bool,
    player_x: usize,
    player_y: usize,
    num_moves: usize,
}

impl FrozenLake {
    pub closed spec fn px(&self) -> int {
        self.player_x as int
    }

    pub closed spec fn py(&self) -> int {
        self.player_y as int
    }

    pub closed spec fn moves(&self) -> int {
        self.num_moves as int
    }

    pub closed spec fn won(&self) -> bool {
        self.has_won
    }

    pub closed spec fn died(&self) -> bool {
        self.has_died
    }

    /// The player stays on the lake, and while the episode runs the player
    /// stands on a tile inside the border with moves left.
    pub open spec fn inv(&self) -> bool {
        &&& 0 <= self.px() < LAKE_SIZE
        &&& 0 <= self.py() < LAKE_SIZE
        &&& 0 <= self.moves() <= MAX_MOVES
        &&& !self.won() && !self.died() ==> {
            &&& 1 <= self.px() < LAKE_SIZE - 1
            &&& 1 <= self.py() < LAKE_SIZE - 1
            &&& self.moves() < MAX_MOVES
        }
    }

    /// A fresh episode: the player on the start tile, no moves made.
    pub fn new() -> (r: FrozenLake)
        ensures
            r.inv(),
            r.px() == 1 && r.py() == 1,
            r.moves() == 0,
            !r.won() && !r.died(),
    {
        FrozenLake { has_won: false, has_died: false, player_x: 1, player_y: 1, num_moves: 0 }
    }

    /// Moves the player one tile. Stepping on a hole loses, on the goal wins;
    /// the move that reaches the move limit loses too. Once the episode is
    /// over nothing changes.
    pub fn move_player(&mut self, direction: Direction)
        requires
            old(self).inv(),
        ensures
            final(self).inv(),
            old(self).won() || old(self).died() ==> *final(self) == *old(self),
            !old(self).won() && !old(self).died() ==> {
                let x = old(self).px() + match direction {
                    Direction::Left => -1int,
                    Direction::Right => 1int,
                    _ => 0int,
                };
                let y = old(self).py() + match direction {
                    Direction::Up => -1int,
                    Direction::Down => 1int,
                    _ => 0int,
                };
                let t = spec_tile(x, y);
                &&& final(self).px() == x
                &&& final(self).py() == y
                &&& final(self).moves() == old(self).moves() + 1
                &&& final(self).died() == (t == 'H' || final(self).moves() == MAX_MOVES)
                &&& final(self).won() == (t != 'H' && t == 'G')
            },
    {
        if !self.has_died && !self.has_won {
            self.num_moves += 1;
            match direction {
                Direction::Up => self.player_y -= 1,
                Direction::Down => self.player_y += 1,
                Direction::Left => self.player_x -= 1,
                Direction::Right => self.player_x += 1,
            }
            let t = tile(self.player_x, self.player_y);
            if t == 'H' {
                self.has_died = true;
            } else if t == 'G' {
                self.has_won = true;
            }
            if self.num_moves == MAX_MOVES {
                self.has_died = true;
            }
        }
    }

    /// Whether the episode is over.
    pub fn is_game_over(&self) -> (r: bool)
        ensures
            r == (self.won() || self.died()),
    {
        self.has_won || self.has_died
    }

    /// The number of moves made.
    pub fn get_num_moves(&self) -> (r: usize)
        ensures
            r == self.moves(),
    {
        self.num_moves
    }

    /// The player's column minus the goal's.
    pub fn get_x_diff_from_g(&self) -> (r: i64)
        requires
            self.inv(),
        ensures
            r == self.px() - GOAL,
    {
        self.player_x as i64 - GOAL
    }

    /// The player's row minus the goal's.
    pub fn get_y_diff_from_g(&self) -> (r: i64)
        requires
            self.inv(),
        ensures
            r == self.py() - GOAL,
    {
        self.player_y as i64 - GOAL
    }

    /// The tile left of the player.
    pub fn get_left(&self) -> (r: char)
        requires
            self.inv(),
            self.px() >= 1,
        ensures
            r == spec_tile(self.px() - 1, self.py()),
    {
        tile(self.player_x - 1, self.player_y)
    }

    /// The tile right of the player.
    pub fn get_right(&self) -> (r: char)
        requires
            self.inv(),
            self.px() < LAKE_SIZE - 1,
        ensures
            r == spec_tile(self.px() + 1, self.py()),
    {
        tile(self.player_x + 1, self.player_y)
    }

    /// The tile above the player.
    pub fn get_up(&self) -> (r: char)
        requires
            self.inv(),
            self.py() >= 1,
        ensures
            r == spec_tile(self.px(), self.py() - 1),
    {
        tile(self.player_x, self.player_y - 1)
    }

    /// The tile below the player.
    pub fn get_down(&self) -> (r: char)
        requires
            self.inv(),
            self.py() < LAKE_SIZE - 1,
        ensures
            r == spec_tile(self.px(), self.py() + 1),
    {
        tile(self.player_x, self.player_y + 1)
    }

    /// The observation handed to a network: the encodings of the tiles
    /// left, right, above and below the player, then the player's column and
    /// row offsets from the goal.
    pub fn observe(&self) -> (r: Vec<i64>)
        requires
            self.inv(),
            !self.won() && !self.died(),
        ensures
            r@ == tile_features(spec_tile(self.px() - 1, self.py())) + tile_features(
                spec_tile(self.px() + 1, self.py()),
            ) + tile_features(spec_tile(self.px(), self.py() - 1)) + tile_features(
                spec_tile(self.px(), self.py() + 1),
            ) + seq![(self.px() - GOAL) as i64, (self.py() - GOAL) as i64],
    {
        let mut r: Vec<i64> = Vec::new();
        push_tile_features(&mut r, self.get_left());
        push_tile_features(&mut r, self.get_right());
        push_tile_features(&mut r, self.get_up());
        push_tile_features(&mut r, self.get_down());
        let ghost flags = r@;
        r.push(self.get_x_diff_from_g());
        r.push(self.get_y_diff_from_g());
        assert(r@ =~= flags + seq![(self.px() - GOAL) as i64, (self.py() - GOAL) as i64]);
        r
    }

    /// The episode's fitness: two to the power of eight less the player's
    /// Manhattan distance to the goal, plus the number of moves made.
    pub fn score(&self) -> (r: u64)
        requires
            self.inv(),
        ensures
            r == pow2((8 - abs(self.px() - GOAL) - abs(self.py() - GOAL)) as nat) + self.moves(),
    {
        let dx: usize = if self.player_x >= 4 { self.player_x - 4 } else { 4 - self.player_x };
        let dy: usize = if self.player_y >= 4 { self.player_y - 4 } else { 4 - self.player_y };
        let e: usize = 8 - dx - dy;
        let mut p: u64 = 1;
        let mut i: usize = 0;
        while i < e
            invariant
                i <= e <= 8,
                p == pow2(i as nat),
            decreases e - i,
        {
            proof {
                lemma_pow2_monotone(i as nat, 7);
                reveal_with_fuel(pow2, 8);
            }
            p = p * 2;
            i += 1;
        }
        proof {
            lemma_pow2_monotone(e as nat, 8);
            reveal_with_fuel(pow2, 9);
        }
        p + self.num_moves as u64
    }
}

} // verus!
