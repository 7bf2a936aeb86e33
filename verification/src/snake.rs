use std::collections::VecDeque;
use vstd::prelude::*;

use crate::random::{lcg_next, lcg_output, seed_state, Prng};

verus! {

/// A two-dimensional board coordinate or displacement: column first, row second.
#[derive(PartialEq, Eq, Structural, Clone, Copy, Debug)]
pub struct Vector(pub isize, pub isize);

/// Componentwise sum of two coordinates, as unbounded integers.
pub open spec fn vec_sum(a: Vector, b: Vector) -> Vector {
    Vector((a.0 + b.0) as isize, (a.1 + b.1) as isize)
}

impl Vector {
    /// Componentwise vector addition.
    pub fn add(self, other: Vector) -> (r: Vector)
        requires
            isize::MIN <= self.0 + other.0 <= isize::MAX,
            isize::MIN <= self.1 + other.1 <= isize::MAX,
        ensures
            r == vec_sum(self, other),
    {
        Vector(self.0 + other.0, self.1 + other.1)
    }
}

/// One of the four orthogonal movement directions.
#[derive(PartialEq, Eq, Structural, Clone, Copy, Debug)]
pub enum Direction {
    Up,
    Right,
    Down,
    Left,
}

impl Direction {
    /// The unit displacement of one step in this direction. Rows grow downward,
    /// so Up decreases the row index.
    pub open spec fn delta(self) -> Vector {
        match self {
            Direction::Up => Vector(0, -1isize),
            Direction::Right => Vector(1, 0),
            Direction::Down => Vector(0, 1),
            Direction::Left => Vector(-1isize, 0),
        }
    }

    /// The reverse of this direction; the two pairs {Up, Down} and
    /// {Left, Right} are each other's opposites.
    pub open spec fn opposite_spec(self) -> Direction {
        match self {
            Direction::Up => Direction::Down,
            Direction::Right => Direction::Left,
            Direction::Down => Direction::Up,
            Direction::Left => Direction::Right,
        }
    }

    /// Maps this direction to its unit coordinate delta.
    pub fn to_vector(&self) -> (r: Vector)
        ensures
            r == self.delta(),
    {
        match self {
            Direction::Up => Vector(0, -1),
            Direction::Right => Vector(1, 0),
            Direction::Down => Vector(0, 1),
            Direction::Left => Vector(-1, 0),
        }
    }

    /// Returns the opposite direction.
    pub fn opposite(&self) -> (r: Direction)
        ensures
            r == self.opposite_spec(),
    {
        match self {
            Direction::Up => Direction::Down,
            Direction::Right => Direction::Left,
            Direction::Down => Direction::Up,
            Direction::Left => Direction::Right,
        }
    }
}

/// Why a run ended.
#[derive(PartialEq, Eq, Structural, Clone, Copy, Debug)]
pub enum GameOverReason {
    /// The snake's head left the board.
    Walls,
    /// The snake's head ran into its own body.
    OwnTail,
    /// The snake's head slid onto a hazard cell.
    Hazard,
    /// No free position was left when a food item had to spawn.
    KillScreen,
}

impl GameOverReason {
    /// The diagnostic phrase paired with this reason.
    pub fn message(&self) -> (r: &'static str)
        ensures
            self is Walls ==> r@ == "avoid walls"@,
            self is OwnTail ==> r@ == "avoid crashing into your own tail"@,
            self is Hazard ==> r@ == "don't slip on the leftovers"@,
            self is KillScreen ==> r@ == "can't believe you made it this far"@,
    {
        match self {
            GameOverReason::Walls => "avoid walls",
            GameOverReason::OwnTail => "avoid crashing into your own tail",
            GameOverReason::Hazard => "don't slip on the leftovers",
            GameOverReason::KillScreen => "can't believe you made it this far",
        }
    }
}

/// One externally driven input to the engine: the four direction keys, the
/// restart key, and the externally clocked simulation step.
#[derive(PartialEq, Eq, Structural, Clone, Copy, Debug)]
pub enum Command {
    MoveUp,
    MoveRight,
    MoveDown,
    MoveLeft,
    Restart,
    Step,
}

/// The engine state. The head of the snake is at the front of `snake`;
/// `free_positions` tracks, incrementally, the board cells occupied by
/// neither snake nor food nor hazards.
pub struct SnakeGame {
    pub width: isize,
    pub height: isize,
    pub free_positions: Vec<Vector>,
    pub snake: VecDeque<Vector>,
    pub direction: Direction,
    pub next_direction: Direction,
    pub hazards: Vec<Vector>,
    pub food: Vec<Vector>,
    pub game_over: bool,
    pub game_over_reason: Option<GameOverReason>,
    pub score: usize,
    pub high_score: usize,
    pub high_score_display: usize,
    pub prng: Prng,
}

/// The mathematical state of a game: every field of `SnakeGame`, as
/// unbounded integers and sequences.
#[verifier::ext_equal]
pub ghost struct GameModel {
    pub width: int,
    pub height: int,
    pub free_positions: Seq<Vector>,
    pub snake: Seq<Vector>,
    pub direction: Direction,
    pub next_direction: Direction,
    pub hazards: Seq<Vector>,
    pub food: Seq<Vector>,
    pub game_over: bool,
    pub game_over_reason: Option<GameOverReason>,
    pub score: int,
    pub high_score: int,
    pub high_score_display: int,
    pub rng: u32,
}

impl View for SnakeGame {
    type V = GameModel;

    open spec fn view(&self) -> GameModel {
        GameModel {
            width: self.width as int,
            height: self.height as int,
            free_positions: self.free_positions@,
            snake: self.snake@,
            direction: self.direction,
            next_direction: self.next_direction,
            hazards: self.hazards@,
            food: self.food@,
            game_over: self.game_over,
            game_over_reason: self.game_over_reason,
            score: self.score as int,
            high_score: self.high_score as int,
            high_score_display: self.high_score_display as int,
            rng: self.prng.state,
        }
    }
}

impl GameModel {
    /// Whether a cell lies on the board.
    pub open spec fn in_board(self, v: Vector) -> bool {
        0 <= v.0 as int && (v.0 as int) < self.width && 0 <= v.1 as int && (v.1 as int)
            < self.height
    }

    /// The snake's head cell.
    pub open spec fn head(self) -> Vector {
        self.snake[0]
    }

    /// The snake's oldest (tail) cell.
    pub open spec fn tail(self) -> Vector {
        self.snake.last()
    }

    /// Valid board dimensions: wide and tall enough for the initial snake,
    /// and with an area that fits the machine's integer types.
    pub open spec fn dims_ok(self) -> bool {
        &&& 5 <= self.width
        &&& 3 <= self.height
        &&& self.width * self.height <= isize::MAX as int
    }

    /// The board-occupancy invariant: every tracked cell is on the board,
    /// the snake, food and free-position lists hold no duplicates, the
    /// four groups of cells cover the board, food and free positions are
    /// disjoint from everything else, and a snake cell may double as a
    /// hazard only where the body's oldest segment was just retained as a
    /// permanent obstacle.
    pub open spec fn geometry_ok(self) -> bool {
        &&& self.dims_ok()
        &&& self.snake.len() >= 2
        &&& self.snake.no_duplicates()
        &&& self.food.no_duplicates()
        &&& self.free_positions.no_duplicates()
        &&& forall|v: Vector| #[trigger] self.snake.contains(v) ==> self.in_board(v)
        &&& forall|v: Vector| #[trigger] self.food.contains(v) ==> self.in_board(v)
        &&& forall|v: Vector| #[trigger] self.hazards.contains(v) ==> self.in_board(v)
        &&& forall|v: Vector| #[trigger] self.free_positions.contains(v) ==> self.in_board(v)
        &&& forall|v: Vector| #[trigger] self.food.contains(v) ==> !self.snake.contains(v)
            && !self.hazards.contains(v) && !self.free_positions.contains(v)
        &&& forall|v: Vector| #[trigger] self.free_positions.contains(v)
            ==> !self.snake.contains(v) && !self.hazards.contains(v)
        &&& forall|v: Vector| #[trigger] self.snake.contains(v) && self.hazards.contains(v)
            ==> v == self.tail()
        &&& forall|v: Vector| #[trigger] self.in_board(v) ==> self.snake.contains(v)
            || self.food.contains(v) || self.hazards.contains(v)
            || self.free_positions.contains(v)
    }

    /// The queued direction takes effect: it becomes the committed one.
    pub open spec fn committed(self) -> GameModel {
        GameModel { direction: self.next_direction, ..self }
    }

    /// The cell the head moves to on the next step, one unit along the
    /// queued direction.
    pub open spec fn next_head(self) -> Vector {
        vec_sum(self.head(), self.next_direction.delta())
    }

    /// Whether the next step lands the head on a food cell (and on nothing
    /// that ends the game first).
    pub open spec fn eats_food(self) -> bool {
        let nh = self.next_head();
        &&& !self.game_over
        &&& self.in_board(nh)
        &&& !self.snake.contains(nh)
        &&& !self.hazards.contains(nh)
        &&& self.food.contains(nh)
    }

    /// The full state invariant, preserved by every operation: the board
    /// occupancy above, a score equal to the number of hazard entries laid
    /// down this run, a queued direction that never reverses the committed
    /// one, and a terminal flag that carries a reason exactly when set.
    pub open spec fn inv(self) -> bool {
        &&& self.geometry_ok()
        &&& self.score == self.hazards.len()
        &&& self.next_direction != self.direction.opposite_spec()
        &&& (self.game_over <==> self.game_over_reason is Some)
    }
}

/// The sequence left after `Vec::swap_remove(i)`: the last element moves into
/// slot `i` and the length shrinks by one.
pub open spec fn swap_remove_seq(s: Seq<Vector>, i: int) -> Seq<Vector> {
    s.update(i, s.last()).drop_last()
}

/// The sequence left after removing the first occurrence of `x` by
/// swap-removal, or the sequence itself where `x` does not occur.
pub open spec fn remove_value(s: Seq<Vector>, x: Vector) -> Seq<Vector> {
    match s.index_of_first(x) {
        Some(i) => swap_remove_seq(s, i),
        None => s,
    }
}

/// On a duplicate-free sequence, swap-removal at `i` removes exactly the
/// element at `i`, keeps the rest, and stays duplicate-free.
pub proof fn lemma_swap_remove_seq(s: Seq<Vector>, i: int)
    requires
        s.no_duplicates(),
        0 <= i < s.len(),
    ensures
        swap_remove_seq(s, i).len() == s.len() - 1,
        swap_remove_seq(s, i).no_duplicates(),
        forall|y: Vector|
            #[trigger] swap_remove_seq(s, i).contains(y) <==> s.contains(y) && y != s[i],
{
    let r = swap_remove_seq(s, i);
    assert forall|y: Vector| #[trigger] r.contains(y) implies s.contains(y) && y != s[i] by {
        let j = choose|j: int| 0 <= j < r.len() && r[j] == y;
        if j == i {
            assert(s[s.len() - 1] == y);
            assert(s.contains(y));
        } else {
            assert(s[j] == y);
            assert(s.contains(y));
        }
    }
    assert forall|y: Vector| s.contains(y) && y != s[i] implies #[trigger] r.contains(y) by {
        let j = choose|j: int| 0 <= j < s.len() && s[j] == y;
        if j == s.len() - 1 {
            assert(r[i] == y);
        } else {
            assert(r[j] == y);
        }
    }
    assert forall|j: int, k: int|
        0 <= j < r.len() && 0 <= k < r.len() && j != k implies r[j] != r[k] by {
        if j == i {
            assert(r[j] == s[s.len() - 1] && r[k] == s[k]);
        } else if k == i {
            assert(r[k] == s[s.len() - 1] && r[j] == s[j]);
        } else {
            assert(r[j] == s[j] && r[k] == s[k]);
        }
    }
}

/// On a duplicate-free sequence, removing a value by swap-removal removes
/// exactly that value (where present), keeps the rest, and stays
/// duplicate-free.
pub proof fn lemma_remove_value(s: Seq<Vector>, x: Vector)
    requires
        s.no_duplicates(),
    ensures
        remove_value(s, x).no_duplicates(),
        forall|y: Vector| #[trigger] remove_value(s, x).contains(y) <==> s.contains(y) && y != x,
        remove_value(s, x).len() == if s.contains(x) {
            s.len() - 1
        } else {
            s.len() as int
        },
        !s.contains(x) ==> remove_value(s, x) == s,
{
    s.index_of_first_ensures(x);
    match s.index_of_first(x) {
        Some(i) => {
            lemma_swap_remove_seq(s, i);
        },
        None => {},
    }
}

/// The board cell at row-major position `k`: row `k / w`, column `k % w`.
pub open spec fn cell_at(w: int, k: int) -> Vector {
    Vector((k % w) as isize, (k / w) as isize)
}

/// A run ends: the terminal flag and its reason are set and the high score
/// absorbs the final score; nothing else changes.
pub open spec fn end_model(m: GameModel, r: GameOverReason) -> GameModel {
    GameModel {
        game_over: true,
        game_over_reason: Some(r),
        high_score: if m.score >= m.high_score {
            m.score
        } else {
            m.high_score
        },
        ..m
    }
}

/// One food item spawns: a position drawn from the free positions by the
/// generator moves to the food set, or, with the board full, the run ends as
/// a kill screen.
pub open spec fn spawn_step(m: GameModel) -> GameModel {
    if m.free_positions.len() == 0 {
        end_model(m, GameOverReason::KillScreen)
    } else {
        let i = lcg_output(m.rng) as int % m.free_positions.len() as int;
        GameModel {
            rng: lcg_next(m.rng),
            free_positions: swap_remove_seq(m.free_positions, i),
            food: m.food.push(m.free_positions[i]),
            ..m
        }
    }
}

/// `n` food items spawn one after the other.
pub open spec fn spawn_many(m: GameModel, n: nat) -> GameModel
    decreases n,
{
    if n == 0 {
        m
    } else {
        spawn_many(spawn_step(m), (n - 1) as nat)
    }
}

/// A cell becomes the new head: it leaves the free positions (where present)
/// and joins the front of the snake.
pub open spec fn push_head_model(m: GameModel, v: Vector) -> GameModel {
    GameModel {
        free_positions: remove_value(m.free_positions, v),
        snake: seq![v] + m.snake,
        ..m
    }
}

/// The snake's oldest cell is popped; it returns to the free positions
/// unless it doubles as a hazard.
pub open spec fn pop_tail_model(m: GameModel) -> GameModel {
    GameModel {
        snake: m.snake.drop_last(),
        free_positions: if m.hazards.contains(m.tail()) {
            m.free_positions
        } else {
            m.free_positions.push(m.tail())
        },
        ..m
    }
}

/// A direction change: ignored if it repeats or reverses the committed
/// direction, queued for the next step otherwise.
pub open spec fn change_direction_model(m: GameModel, d: Direction) -> GameModel {
    if m.direction == d || m.direction.opposite_spec() == d {
        m
    } else {
        GameModel { next_direction: d, ..m }
    }
}

/// One simulation step. A terminal state is left unchanged. Otherwise the
/// queued direction is committed and the head advances one cell: leaving the
/// board, hitting the body, or hitting a hazard ends the run; landing on food
/// grows the snake, scores, retains the oldest cell as a permanent hazard and
/// spawns a replacement food item; any other cell just moves the snake.
/// The head lands on food: the snake grows by the new head, the score rises,
/// the retained oldest segment joins the hazards, the eaten cell leaves the
/// food set and one replacement food item spawns.
pub open spec fn grow_model(g: GameModel, nh: Vector) -> GameModel {
    let g2 = push_head_model(g, nh);
    let g3 = GameModel {
        score: g2.score + 1,
        hazards: g2.hazards.push(g2.tail()),
        food: remove_value(g2.food, nh),
        ..g2
    };
    spawn_step(g3)
}

/// An ordinary move: the head advances onto a free cell and the oldest
/// segment is popped.
pub open spec fn move_model(g: GameModel, nh: Vector) -> GameModel {
    pop_tail_model(push_head_model(g, nh))
}

pub open spec fn tick_model(m: GameModel) -> GameModel {
    if m.game_over {
        m
    } else {
        let g = m.committed();
        let nh = g.next_head();
        if !g.in_board(nh) {
            end_model(g, GameOverReason::Walls)
        } else if g.snake.contains(nh) {
            end_model(g, GameOverReason::OwnTail)
        } else if g.hazards.contains(nh) {
            end_model(g, GameOverReason::Hazard)
        } else if g.food.contains(nh) {
            grow_model(g, nh)
        } else {
            move_model(g, nh)
        }
    }
}

impl GameModel {
    /// Whether a cell is claimed by none of the snake, the hazards and the
    /// food: the candidates for the free-position list.
    pub open spec fn cell_free(self, v: Vector) -> bool {
        !self.snake.contains(v) && !self.hazards.contains(v) && !self.food.contains(v)
    }

    /// The free-position list rebuilt from scratch, scanned over the first
    /// `k` cells of the board in row-major order.
    pub open spec fn free_scan(self, k: int) -> Seq<Vector>
        decreases k,
    {
        if k <= 0 {
            Seq::empty()
        } else {
            self.free_scan(k - 1) + if self.cell_free(cell_at(self.width, k - 1)) {
                seq![cell_at(self.width, k - 1)]
            } else {
                Seq::empty()
            }
        }
    }
}

/// One spawn step keeps the board occupancy sound: the drawn cell moves from
/// the free positions to the food set, and every other part of the state —
/// terminal fields aside, on a full board — is untouched.
pub proof fn lemma_spawn_step_geometry(m: GameModel)
    requires
        m.geometry_ok(),
    ensures
        spawn_step(m).geometry_ok(),
        spawn_step(m).snake == m.snake,
        spawn_step(m).hazards == m.hazards,
        spawn_step(m).score == m.score,
        spawn_step(m).direction == m.direction,
        spawn_step(m).next_direction == m.next_direction,
        spawn_step(m).width == m.width,
        spawn_step(m).height == m.height,
        spawn_step(m).high_score_display == m.high_score_display,
        m.free_positions.len() > 0 ==> spawn_step(m).game_over == m.game_over
            && spawn_step(m).game_over_reason == m.game_over_reason && spawn_step(m).high_score
            == m.high_score && spawn_step(m).free_positions.len() == m.free_positions.len() - 1
            && spawn_step(m).food.len() == m.food.len() + 1,
        m.free_positions.len() == 0 ==> spawn_step(m).game_over && spawn_step(
            m,
        ).game_over_reason == Some(GameOverReason::KillScreen),
{
    broadcast use vstd::seq_lib::group_seq_properties;

    if m.free_positions.len() == 0 {
        lemma_geometry_congruence(m, spawn_step(m));
    } else {
        let i = lcg_output(m.rng) as int % m.free_positions.len() as int;
        assert(0 <= i < m.free_positions.len());
        let c = m.free_positions[i];
        assert(m.free_positions.contains(c));
        lemma_swap_remove_seq(m.free_positions, i);
        let s = spawn_step(m);
        assert(s.food =~= m.food + seq![c]);
        assert(!m.food.contains(c));
        assert forall|a: int, b: int|
            0 <= a < m.food.len() && 0 <= b < seq![c].len() implies m.food[a] != seq![c][b] by {
            assert(m.food.contains(m.food[a]));
        }
        vstd::seq_lib::lemma_no_dup_in_concat(m.food, seq![c]);
        assert forall|v: Vector| #[trigger] s.food.contains(v) implies s.in_board(v)
            && !s.snake.contains(v) && !s.hazards.contains(v) && !s.free_positions.contains(
            v,
        ) by {
            if v == c {
                assert(s.in_board(v));
            } else {
                assert(m.food.contains(v));
            }
        }
        assert forall|v: Vector| #[trigger] s.in_board(v) implies s.snake.contains(v)
            || s.food.contains(v) || s.hazards.contains(v) || s.free_positions.contains(v) by {
            assert(m.in_board(v));
            if v == c {
                assert(s.food.contains(v));
            }
        }
        assert(s.geometry_ok());
    }
}

/// No direction is its own opposite.
pub proof fn lemma_opposite_irreflexive(d: Direction)
    ensures
        d.opposite_spec() != d,
{
}

/// Ending a run preserves the state invariant: only the terminal fields and
/// the high score change, and the high score never decreases.
pub proof fn lemma_end_preserves_inv(g: GameModel, r: GameOverReason)
    requires
        g.geometry_ok(),
        g.score == g.hazards.len(),
        g.next_direction != g.direction.opposite_spec(),
    ensures
        end_model(g, r).inv(),
        end_model(g, r).score == g.score,
        end_model(g, r).high_score >= g.high_score,
        end_model(g, r).high_score >= g.score,
{
    let e = end_model(g, r);
    assert forall|v: Vector| #[trigger] e.snake.contains(v) implies e.in_board(v) by {
        assert(g.snake.contains(v));
    }
    assert forall|v: Vector| #[trigger] e.food.contains(v) implies e.in_board(v)
        && !e.snake.contains(v) && !e.hazards.contains(v) && !e.free_positions.contains(v) by {
        assert(g.food.contains(v));
    }
    assert forall|v: Vector| #[trigger] e.hazards.contains(v) implies e.in_board(v) by {
        assert(g.hazards.contains(v));
    }
    assert forall|v: Vector| #[trigger] e.free_positions.contains(v) implies e.in_board(v)
        && !e.snake.contains(v) && !e.hazards.contains(v) by {
        assert(g.free_positions.contains(v));
    }
    assert forall|v: Vector| #[trigger] e.snake.contains(v) && e.hazards.contains(v) implies v
        == e.tail() by {
        assert(g.snake.contains(v) && g.hazards.contains(v));
    }
    assert forall|v: Vector| #[trigger] e.in_board(v) implies e.snake.contains(v)
        || e.food.contains(v) || e.hazards.contains(v) || e.free_positions.contains(v) by {
        assert(g.in_board(v));
    }
}

/// Landing on food preserves the state invariant.
proof fn lemma_grow_preserves_inv(g: GameModel, nh: Vector)
    requires
        g.inv(),
        !g.game_over,
        g.in_board(nh),
        !g.snake.contains(nh),
        !g.hazards.contains(nh),
        g.food.contains(nh),
    ensures
        grow_model(g, nh).inv(),
        grow_model(g, nh).score == g.score + 1,
        grow_model(g, nh).high_score >= g.high_score,
        grow_model(g, nh).direction == g.direction,
        grow_model(g, nh).next_direction == g.next_direction,
{
    broadcast use vstd::seq_lib::group_seq_properties;

    lemma_remove_value(g.free_positions, nh);
    assert(!g.free_positions.contains(nh));
    let g2 = push_head_model(g, nh);
    assert(g2.free_positions == g.free_positions);
    assert forall|a: int, b: int|
        0 <= a < seq![nh].len() && 0 <= b < g.snake.len() implies seq![nh][a] != g.snake[b] by {
        assert(g.snake.contains(g.snake[b]));
    }
    vstd::seq_lib::lemma_no_dup_in_concat(seq![nh], g.snake);
    assert(g2.snake.no_duplicates());
    assert(g2.snake.len() == g.snake.len() + 1);
    let tail = g2.tail();
    assert(g2.snake[g2.snake.len() - 1] == g.snake[g.snake.len() - 1]);
    assert(tail == g.tail());
    assert(g.snake.contains(tail));
    assert(nh != tail);
    assert forall|v: Vector| #[trigger] g2.snake.contains(v) implies v == nh
        || g.snake.contains(v) by {
        let j = choose|j: int| 0 <= j < g2.snake.len() && g2.snake[j] == v;
        if j > 0 {
            assert(g.snake[j - 1] == v);
        }
    }
    assert(g2.snake.contains(nh)) by {
        assert(g2.snake[0] == nh);
    }
    let g3 = GameModel {
        score: g2.score + 1,
        hazards: g2.hazards.push(g2.tail()),
        food: remove_value(g2.food, nh),
        ..g2
    };
    lemma_remove_value(g2.food, nh);
    assert(g3.hazards.len() == g.hazards.len() + 1);
    assert forall|v: Vector| #[trigger] g3.hazards.contains(v) implies v == tail
        || g.hazards.contains(v) by {}
    assert forall|v: Vector| #[trigger] g3.snake.contains(v) implies g3.in_board(v) by {
        if v != nh {
            assert(g.snake.contains(v));
        }
    }
    assert forall|v: Vector| #[trigger] g3.food.contains(v) implies g3.in_board(v)
        && !g3.snake.contains(v) && !g3.hazards.contains(v) && !g3.free_positions.contains(
        v,
    ) by {
        assert(g.food.contains(v) && v != nh);
        assert(!g.snake.contains(v) && v != nh && v != tail && !g.hazards.contains(v));
    }
    assert forall|v: Vector| #[trigger] g3.hazards.contains(v) implies g3.in_board(v) by {
        if v == tail {
            assert(g.snake.contains(tail));
        } else {
            assert(g.hazards.contains(v));
        }
    }
    assert forall|v: Vector| #[trigger] g3.free_positions.contains(v) implies g3.in_board(v)
        && !g3.snake.contains(v) && !g3.hazards.contains(v) by {
        assert(g.free_positions.contains(v));
        assert(!g.snake.contains(v) && v != nh && v != tail && !g.hazards.contains(v));
    }
    assert(g3.tail() == tail);
    assert forall|v: Vector| #[trigger] g3.snake.contains(v) && g3.hazards.contains(v) implies v
        == g3.tail() by {
        if v != tail {
            assert(g.snake.contains(v) || v == nh);
            assert(g.hazards.contains(v));
        }
    }
    assert forall|v: Vector| #[trigger] g3.in_board(v) implies g3.snake.contains(v)
        || g3.food.contains(v) || g3.hazards.contains(v) || g3.free_positions.contains(v) by {
        assert(g.in_board(v));
        if v == nh {
            assert(g3.snake.contains(v));
        } else if g.snake.contains(v) {
            assert(g3.snake.contains(v));
        } else if g.food.contains(v) {
            assert(g3.food.contains(v));
        } else if g.hazards.contains(v) {
            assert(g3.hazards.contains(v));
        } else {
            assert(g.free_positions.contains(v));
            assert(g3.free_positions.contains(v));
        }
    }
    assert(g3.geometry_ok());
    lemma_spawn_step_geometry(g3);
    let f = spawn_step(g3);
    assert(f.score == g3.score == g.score + 1);
    assert(f.hazards == g3.hazards);
    assert(f.score == f.hazards.len());
    if g3.free_positions.len() == 0 {
        assert(f.game_over && f.game_over_reason is Some);
    } else {
        assert(f.game_over == g3.game_over && f.game_over_reason == g3.game_over_reason);
    }
    assert(f.inv());
}

/// An ordinary move preserves the state invariant.
proof fn lemma_move_preserves_inv(g: GameModel, nh: Vector)
    requires
        g.inv(),
        !g.game_over,
        g.in_board(nh),
        !g.snake.contains(nh),
        !g.hazards.contains(nh),
        !g.food.contains(nh),
    ensures
        move_model(g, nh).inv(),
        move_model(g, nh).score == g.score,
        move_model(g, nh).high_score == g.high_score,
        move_model(g, nh).direction == g.direction,
        move_model(g, nh).next_direction == g.next_direction,
        move_model(g, nh).game_over == g.game_over,
{
    broadcast use vstd::seq_lib::group_seq_properties;

    // the head's target is neither snake, food nor hazard, so by coverage it
    // is one of the free positions
    assert(g.free_positions.contains(nh));
    lemma_remove_value(g.free_positions, nh);
    let g2 = push_head_model(g, nh);
    assert forall|a: int, b: int|
        0 <= a < seq![nh].len() && 0 <= b < g.snake.len() implies seq![nh][a] != g.snake[b] by {
        assert(g.snake.contains(g.snake[b]));
    }
    vstd::seq_lib::lemma_no_dup_in_concat(seq![nh], g.snake);
    assert(g2.snake.no_duplicates());
    assert(g2.snake.len() == g.snake.len() + 1);
    let tail = g2.tail();
    assert(g2.snake[g2.snake.len() - 1] == g.snake[g.snake.len() - 1]);
    assert(tail == g.tail());
    assert(g.snake.contains(tail));
    assert(nh != tail);
    let g4 = pop_tail_model(g2);
    assert(g4.snake =~= seq![nh] + g.snake.drop_last());
    assert(g4.snake.no_duplicates());
    assert(g4.snake.len() == g.snake.len());
    assert(g4.snake[0] == nh);
    assert(g4.snake.contains(nh));
    assert forall|v: Vector| #[trigger] g4.snake.contains(v) implies g2.snake.contains(v) by {}
    assert forall|v: Vector| #[trigger] g4.snake.contains(v) implies v == nh
        || g.snake.contains(v) by {
        let j = choose|j: int| 0 <= j < g4.snake.len() && g4.snake[j] == v;
        if j > 0 {
            assert(g.snake[j - 1] == v);
        }
    }
    assert(!g4.snake.contains(tail)) by {
        if g4.snake.contains(tail) {
            let j = choose|j: int| 0 <= j < g4.snake.len() && g4.snake[j] == tail;
            assert(g2.snake[j] == tail);
            assert(g2.snake[g2.snake.len() - 1] == tail);
        }
    }
    assert forall|v: Vector| #[trigger] g4.snake.contains(v) implies g4.in_board(v) by {
        if v != nh {
            assert(g.snake.contains(v));
        }
    }
    assert forall|v: Vector| #[trigger] g4.food.contains(v) implies g4.in_board(v)
        && !g4.snake.contains(v) && !g4.hazards.contains(v) && !g4.free_positions.contains(
        v,
    ) by {
        assert(g.food.contains(v));
        assert(!g.snake.contains(v) && v != nh && !g.hazards.contains(v)
            && !g.free_positions.contains(v));
        assert(v != tail);
    }
    assert forall|v: Vector| #[trigger] g4.hazards.contains(v) implies g4.in_board(v) by {
        assert(g.hazards.contains(v));
    }
    if g2.hazards.contains(tail) {
        assert forall|v: Vector| #[trigger] g4.free_positions.contains(v) implies g4.in_board(v)
            && !g4.snake.contains(v) && !g4.hazards.contains(v) by {
            assert(g.free_positions.contains(v) && v != nh);
        }
        assert forall|v: Vector| #[trigger] g4.snake.contains(v) && g4.hazards.contains(
            v,
        ) implies v == g4.tail() by {
            assert(v == nh || g.snake.contains(v));
            assert(g.hazards.contains(v));
        }
        assert forall|v: Vector| #[trigger] g4.in_board(v) implies g4.snake.contains(v)
            || g4.food.contains(v) || g4.hazards.contains(v) || g4.free_positions.contains(
            v,
        ) by {
            assert(g.in_board(v));
            if v == nh {
                assert(g4.snake.contains(v));
            } else if v == tail {
                assert(g4.hazards.contains(v));
            } else if g.snake.contains(v) {
                assert(g2.snake.contains(v));
                let j = choose|j: int| 0 <= j < g2.snake.len() && g2.snake[j] == v;
                assert(j < g2.snake.len() - 1);
                assert(g4.snake[j] == v);
            } else if g.food.contains(v) {
                assert(g4.food.contains(v));
            } else if g.hazards.contains(v) {
                assert(g4.hazards.contains(v));
            } else {
                assert(g.free_positions.contains(v));
                assert(g4.free_positions.contains(v));
            }
        }
        assert(g4.geometry_ok());
    } else {
        assert(!g.free_positions.contains(tail));
        assert(!g2.free_positions.contains(tail));
        assert(g4.free_positions =~= g2.free_positions + seq![tail]);
        assert forall|a: int, b: int|
            0 <= a < g2.free_positions.len() && 0 <= b < seq![tail].len() implies
            g2.free_positions[a] != seq![tail][b] by {
            assert(g2.free_positions.contains(g2.free_positions[a]));
        }
        vstd::seq_lib::lemma_no_dup_in_concat(g2.free_positions, seq![tail]);
        assert(g4.free_positions.no_duplicates());
        assert forall|v: Vector| #[trigger] g4.free_positions.contains(v) implies g4.in_board(v)
            && !g4.snake.contains(v) && !g4.hazards.contains(v) by {
            if v == tail {
                assert(g.snake.contains(tail));
            } else {
                assert(g2.free_positions.contains(v));
                assert(g.free_positions.contains(v) && v != nh);
            }
        }
        assert forall|v: Vector| #[trigger] g4.snake.contains(v) && g4.hazards.contains(
            v,
        ) implies v == g4.tail() by {
            assert(v == nh || g.snake.contains(v));
            assert(g.hazards.contains(v));
        }
        assert forall|v: Vector| #[trigger] g4.in_board(v) implies g4.snake.contains(v)
            || g4.food.contains(v) || g4.hazards.contains(v) || g4.free_positions.contains(
            v,
        ) by {
            assert(g.in_board(v));
            if v == nh {
                assert(g4.snake.contains(v));
            } else if v == tail {
                assert(g4.free_positions.contains(v));
            } else if g.snake.contains(v) {
                assert(g2.snake.contains(v));
                let j = choose|j: int| 0 <= j < g2.snake.len() && g2.snake[j] == v;
                assert(j < g2.snake.len() - 1);
                assert(g4.snake[j] == v);
            } else if g.food.contains(v) {
                assert(g4.food.contains(v));
            } else if g.hazards.contains(v) {
                assert(g4.hazards.contains(v));
            } else {
                assert(g.free_positions.contains(v));
                assert(g4.free_positions.contains(v));
            }
        }
        assert(g4.geometry_ok());
    }
    assert(g4.inv());
}

/// One simulation step preserves the state invariant, never lowers the high
/// score, and raises the score by one exactly when the head lands on food.
pub proof fn lemma_tick_preserves_inv(m: GameModel)
    requires
        m.inv(),
    ensures
        tick_model(m).inv(),
        tick_model(m).score == m.score + if m.eats_food() {
            1int
        } else {
            0int
        },
        tick_model(m).high_score >= m.high_score,
{
    if m.game_over {
    } else {
        let g = m.committed();
        let nh = g.next_head();
        lemma_opposite_irreflexive(g.direction);
        assert(g.geometry_ok()) by {
            lemma_geometry_congruence(m, g);
        }
        if !g.in_board(nh) {
            lemma_end_preserves_inv(g, GameOverReason::Walls);
        } else if g.snake.contains(nh) {
            lemma_end_preserves_inv(g, GameOverReason::OwnTail);
        } else if g.hazards.contains(nh) {
            lemma_end_preserves_inv(g, GameOverReason::Hazard);
        } else if g.food.contains(nh) {
            lemma_grow_preserves_inv(g, nh);
        } else {
            lemma_move_preserves_inv(g, nh);
        }
    }
}

/// Two states that agree on the board fields have the same board-occupancy
/// status.
pub proof fn lemma_geometry_congruence(a: GameModel, b: GameModel)
    requires
        a.geometry_ok(),
        b.width == a.width,
        b.height == a.height,
        b.snake == a.snake,
        b.food == a.food,
        b.hazards == a.hazards,
        b.free_positions == a.free_positions,
    ensures
        b.geometry_ok(),
{
    assert forall|v: Vector| #[trigger] b.snake.contains(v) implies b.in_board(v) by {
        assert(a.snake.contains(v));
    }
    assert forall|v: Vector| #[trigger] b.food.contains(v) implies b.in_board(v)
        && !b.snake.contains(v) && !b.hazards.contains(v) && !b.free_positions.contains(v) by {
        assert(a.food.contains(v));
    }
    assert forall|v: Vector| #[trigger] b.hazards.contains(v) implies b.in_board(v) by {
        assert(a.hazards.contains(v));
    }
    assert forall|v: Vector| #[trigger] b.free_positions.contains(v) implies b.in_board(v)
        && !b.snake.contains(v) && !b.hazards.contains(v) by {
        assert(a.free_positions.contains(v));
    }
    assert forall|v: Vector| #[trigger] b.snake.contains(v) && b.hazards.contains(v) implies v
        == b.tail() by {
        assert(a.snake.contains(v) && a.hazards.contains(v));
    }
    assert forall|v: Vector| #[trigger] b.in_board(v) implies b.snake.contains(v)
        || b.food.contains(v) || b.hazards.contains(v) || b.free_positions.contains(v) by {
        assert(a.in_board(v));
    }
}

/// The free positions are recomputed from scratch over the whole board.
pub open spec fn init_free_model(m: GameModel) -> GameModel {
    GameModel { free_positions: m.free_scan(m.width * m.height), ..m }
}

/// Snake, hazards and food are cleared and every board cell becomes free.
pub open spec fn clear_board_model(m: GameModel) -> GameModel {
    init_free_model(
        GameModel { snake: Seq::empty(), hazards: Seq::empty(), food: Seq::empty(), ..m },
    )
}

/// A restart: the board is cleared, a two-cell snake is placed horizontally
/// at the middle row against the right edge, one food item spawns, both
/// directions reset to Left, the terminal flag clears, the high score is
/// snapshotted into the display and the score resets; dimensions, the high
/// score and the generator state persist.
pub open spec fn restart_model(m: GameModel) -> GameModel {
    let c = clear_board_model(m);
    let t = push_head_model(c, Vector((m.width - 1) as isize, (m.height / 2) as isize));
    let h = push_head_model(t, Vector((m.width - 2) as isize, (m.height / 2) as isize));
    let f = spawn_many(h, 1);
    GameModel {
        direction: Direction::Left,
        next_direction: Direction::Left,
        game_over: false,
        game_over_reason: None,
        high_score_display: f.high_score,
        score: 0,
        ..f
    }
}

/// The state a game is in before its first restart: empty board lists, zero
/// counters and a generator seeded from the two given words.
pub open spec fn initial_model(width: isize, height: isize, word0: u16, word1: u16) -> GameModel {
    GameModel {
        width: width as int,
        height: height as int,
        free_positions: Seq::empty(),
        snake: Seq::empty(),
        direction: Direction::Left,
        next_direction: Direction::Left,
        hazards: Seq::empty(),
        food: Seq::empty(),
        game_over: false,
        game_over_reason: None,
        score: 0,
        high_score: 0,
        high_score_display: 0,
        rng: seed_state(word0, word1),
    }
}

/// A freshly constructed game: the initial state, restarted once.
pub open spec fn fresh_game(width: isize, height: isize, word0: u16, word1: u16) -> GameModel {
    restart_model(initial_model(width, height, word0, word1))
}

/// The state transition that one command denotes.
pub open spec fn apply_model(m: GameModel, command: Command) -> GameModel {
    match command {
        Command::MoveUp => change_direction_model(m, Direction::Up),
        Command::MoveRight => change_direction_model(m, Direction::Right),
        Command::MoveDown => change_direction_model(m, Direction::Down),
        Command::MoveLeft => change_direction_model(m, Direction::Left),
        Command::Restart => restart_model(m),
        Command::Step => tick_model(m),
    }
}

/// The state after a whole sequence of commands, applied in order.
pub open spec fn run_model(m: GameModel, commands: Seq<Command>) -> GameModel
    decreases commands.len(),
{
    if commands.len() == 0 {
        m
    } else {
        run_model(apply_model(m, commands[0]), commands.drop_first())
    }
}

/// After scanning the first `k` row-major cells, the rebuilt free-position
/// list holds exactly the scanned cells that no snake, hazard or food entry
/// claims, each at most once; where nothing claims any cell, it holds all
/// `k` of them.
pub proof fn lemma_free_scan(m: GameModel, k: int)
    requires
        m.dims_ok(),
        0 <= k <= m.width * m.height,
    ensures
        m.free_scan(k).no_duplicates(),
        forall|v: Vector|
            #[trigger] m.free_scan(k).contains(v) <==> (0 <= v.0 as int && (v.0 as int) < m.width
                && 0 <= v.1 as int && (v.1 as int) * m.width + (v.0 as int) < k && m.cell_free(v)),
        m.free_scan(k).len() <= k,
        (forall|v: Vector| #[trigger] m.cell_free(v)) ==> m.free_scan(k).len() == k,
    decreases k,
{
    broadcast use vstd::seq_lib::group_seq_properties;

    let w = m.width;
    if k <= 0 {
        assert forall|v: Vector| !(0 <= v.0 as int && (v.0 as int) < w && 0 <= v.1 as int && (
        v.1 as int) * w + (v.0 as int) < k && m.cell_free(v)) by {
            if 0 <= v.0 as int && 0 <= v.1 as int {
                vstd::arithmetic::mul::lemma_mul_nonnegative(v.1 as int, w);
            }
        }
    } else {
        lemma_free_scan(m, k - 1);
        let c = cell_at(w, k - 1);
        vstd::arithmetic::div_mod::lemma_mod_bound(k - 1, w);
        vstd::arithmetic::div_mod::lemma_div_pos_is_pos(k - 1, w);
        vstd::arithmetic::div_mod::lemma_fundamental_div_mod(k - 1, w);
        let q = (k - 1) / w;
        let r = (k - 1) % w;
        assert(q <= w * q) by (nonlinear_arith)
            requires
                0 <= q,
                1 <= w,
        ;
        assert(q <= k - 1);
        assert(c.0 as int == r && c.1 as int == q);
        assert((c.1 as int) * w + (c.0 as int) == k - 1) by {
            assert(q * w == w * q) by (nonlinear_arith);
        }
        let prev = m.free_scan(k - 1);
        assert(!prev.contains(c));
        assert forall|v: Vector|
            #[trigger] m.free_scan(k).contains(v) <==> (0 <= v.0 as int && (v.0 as int) < w && 0
                <= v.1 as int && (v.1 as int) * w + (v.0 as int) < k && m.cell_free(v)) by {
            if m.free_scan(k).contains(v) {
                if prev.contains(v) {
                } else {
                    assert(m.cell_free(c) && v == c);
                }
            } else {
                if 0 <= v.0 as int && (v.0 as int) < w && 0 <= v.1 as int && (v.1 as int) * w
                    + (v.0 as int) < k && m.cell_free(v) {
                    if (v.1 as int) * w + (v.0 as int) == k - 1 {
                        vstd::arithmetic::div_mod::lemma_fundamental_div_mod_converse(
                            k - 1,
                            w,
                            v.1 as int,
                            v.0 as int,
                        );
                        assert(v.0 as int == r && v.1 as int == q);
                        assert(v == c);
                        assert(m.free_scan(k).contains(v)) by {
                            assert(m.free_scan(k) == prev + seq![c]);
                            assert(m.free_scan(k)[m.free_scan(k).len() - 1] == c);
                        }
                        assert(false);
                    } else {
                        assert(prev.contains(v));
                        assert(false);
                    }
                }
            }
        }
        if m.cell_free(c) {
            assert forall|a: int, b: int|
                0 <= a < prev.len() && 0 <= b < seq![c].len() implies prev[a] != seq![c][b] by {
                assert(prev.contains(prev[a]));
            }
            vstd::seq_lib::lemma_no_dup_in_concat(prev, seq![c]);
            assert(m.free_scan(k).no_duplicates());
        } else {
            assert(m.free_scan(k) =~= prev);
        }
    }
}

/// A restart establishes the state invariant on any validly sized game: it
/// yields a running two-cell snake, one food item, no hazards, a zero score,
/// and a display snapshotted from the preserved high score.
pub proof fn lemma_restart_establishes_inv(m: GameModel)
    requires
        m.dims_ok(),
    ensures
        restart_model(m).inv(),
        restart_model(m).width == m.width,
        restart_model(m).height == m.height,
        restart_model(m).high_score == m.high_score,
        restart_model(m).high_score_display == m.high_score,
        restart_model(m).score == 0,
        !restart_model(m).game_over,
        restart_model(m).snake.len() == 2,
        restart_model(m).food.len() == 1,
        restart_model(m).hazards.len() == 0,
        restart_model(m).direction == Direction::Left,
        restart_model(m).next_direction == Direction::Left,
{
    broadcast use vstd::seq_lib::group_seq_properties;

    let w = m.width;
    let h = m.height;
    let area = w * h;
    assert(15 <= m.width * m.height) by (nonlinear_arith)
        requires
            5 <= m.width,
            3 <= m.height,
    ;
    assert(15 <= area);
    let cleared = GameModel { snake: Seq::empty(), hazards: Seq::empty(), food: Seq::empty(), ..m };
    assert forall|v: Vector| #[trigger] cleared.cell_free(v) by {}
    lemma_free_scan(cleared, area);
    let c = clear_board_model(m);
    assert(c.free_positions == cleared.free_scan(area));
    assert(c.free_positions.len() == area);
    // in-board cells are exactly those whose row-major index lies below the area
    assert forall|v: Vector| #[trigger] c.free_positions.contains(v) <==> c.in_board(v) by {
        if 0 <= v.0 as int && (v.0 as int) < w && 0 <= v.1 as int {
            assert((v.1 as int) * w + (v.0 as int) < area <==> (v.1 as int) < h) by (nonlinear_arith)
                requires
                    0 <= v.0 as int,
                    (v.0 as int) < w,
                    0 <= v.1 as int,
                    area == w * h,
                    1 <= w,
            ;
        }
    }
    let mid = h / 2;
    vstd::arithmetic::div_mod::lemma_fundamental_div_mod(h, 2);
    vstd::arithmetic::div_mod::lemma_div_pos_is_pos(h, 2);
    assert(1 <= mid && mid < h);
    assert(w - 1 <= isize::MAX as int && mid <= isize::MAX as int) by (nonlinear_arith)
        requires
            5 <= w,
            3 <= h,
            w * h <= isize::MAX as int,
            mid < h,
    ;
    let tailc = Vector((w - 1) as isize, mid as isize);
    let headc = Vector((w - 2) as isize, mid as isize);
    assert(tailc.0 as int == w - 1 && tailc.1 as int == mid);
    assert(headc.0 as int == w - 2 && headc.1 as int == mid);
    assert(headc != tailc);
    assert(c.in_board(tailc) && c.in_board(headc));
    lemma_remove_value(c.free_positions, tailc);
    let t = push_head_model(c, tailc);
    assert(t.snake =~= seq![tailc]);
    assert(t.free_positions.len() == area - 1);
    lemma_remove_value(t.free_positions, headc);
    let h2 = push_head_model(t, headc);
    assert(h2.snake =~= seq![headc, tailc]);
    assert(h2.snake.len() == 2);
    assert(h2.free_positions.len() == area - 2);
    assert(h2.snake.no_duplicates());
    assert forall|v: Vector| #[trigger] h2.snake.contains(v) implies v == headc || v == tailc by {
        let j = choose|j: int| 0 <= j < h2.snake.len() && h2.snake[j] == v;
    }
    assert(h2.snake.contains(headc) && h2.snake.contains(tailc));
    assert forall|v: Vector| #[trigger] h2.free_positions.contains(v) implies h2.in_board(v)
        && !h2.snake.contains(v) && !h2.hazards.contains(v) by {
        assert(c.free_positions.contains(v) && v != tailc && v != headc);
    }
    assert forall|v: Vector| #[trigger] h2.snake.contains(v) implies h2.in_board(v) by {}
    assert forall|v: Vector| #[trigger] h2.in_board(v) implies h2.snake.contains(v)
        || h2.food.contains(v) || h2.hazards.contains(v) || h2.free_positions.contains(v) by {
        if v != headc && v != tailc {
            assert(c.free_positions.contains(v));
            assert(h2.free_positions.contains(v));
        }
    }
    assert(h2.geometry_ok());
    lemma_spawn_step_geometry(h2);
    let f = spawn_many(h2, 1);
    assert(spawn_many(spawn_step(h2), 0) == spawn_step(h2));
    assert(f == spawn_step(h2));
    assert(f.game_over == m.game_over && f.high_score == m.high_score);
    assert(f.food.len() == 1);
    let rm = restart_model(m);
    lemma_geometry_congruence(f, rm);
    assert(rm.inv());
}

/// Whether `x` occurs in `v`.
fn vec_contains(v: &Vec<Vector>, x: Vector) -> (b: bool)
    ensures
        b == v@.contains(x),
{
    let n = v.len();
    let mut i: usize = 0;
    while i < n
        invariant
            n == v@.len(),
            0 <= i <= n,
            forall|j: int| 0 <= j < i ==> v@[j] != x,
        decreases n - i,
    {
        if v[i] == x {
            return true;
        }
        i += 1;
    }
    false
}

/// Whether `x` occurs in `v`.
fn deque_contains(v: &VecDeque<Vector>, x: Vector) -> (b: bool)
    ensures
        b == v@.contains(x),
{
    let n = v.len();
    let mut i: usize = 0;
    while i < n
        invariant
            n == v@.len(),
            0 <= i <= n,
            forall|j: int| 0 <= j < i ==> v@[j] != x,
        decreases n - i,
    {
        if v[i] == x {
            return true;
        }
        i += 1;
    }
    false
}

/// Removes the first occurrence of `search_element` from `vec` by swapping
/// the last element into its place; does nothing where it does not occur.
fn remove_from_vec(vec: &mut Vec<Vector>, search_element: Vector)
    ensures
        final(vec)@ == remove_value(old(vec)@, search_element),
{
    proof {
        old(vec)@.index_of_first_ensures(search_element);
    }
    let n = vec.len();
    let mut i: usize = 0;
    while i < n
        invariant
            vec@ == old(vec)@,
            n == vec@.len(),
            0 <= i <= n,
            forall|j: int| 0 <= j < i ==> old(vec)@[j] != search_element,
        decreases n - i,
    {
        proof {
            assert(vec@[i as int] == old(vec)@[i as int]);
        }
        if vec[i] == search_element {
            proof {
                old(vec)@.index_of_first_ensures(search_element);
                match old(vec)@.index_of_first(search_element) {
                    Some(i0) => {
                        if i0 < i as int {
                            assert(old(vec)@[i0] != search_element);
                            assert(false);
                        } else if i0 > i as int {
                            assert(old(vec)@[i as int] != search_element);
                            assert(false);
                        }
                    },
                    None => {
                        assert(old(vec)@.contains(search_element)) by {
                            assert(old(vec)@[i as int] == search_element);
                        }
                        assert(false);
                    },
                }
                assert(old(vec)@.index_of_first(search_element) == Some(i as int));
            }
            vec.swap_remove(i);
            return;
        }
        i += 1;
    }
    proof {
        assert(!old(vec)@.contains(search_element));
    }
}

impl SnakeGame {
    /// Whether a cell lies on the board.
    pub fn is_within_board(&self, v: Vector) -> (r: bool)
        ensures
            r == self@.in_board(v),
    {
        v.0 >= 0 && v.1 >= 0 && v.0 < self.width && v.1 < self.height
    }

    /// Ends the run: sets the terminal flag with its reason and folds the
    /// final score into the high score.
    fn end_game(&mut self, reason: GameOverReason)
        ensures
            final(self)@ == end_model(old(self)@, reason),
    {
        self.game_over = true;
        self.game_over_reason = Some(reason);
        if self.score >= self.high_score {
            self.high_score = self.score;
        }
        proof {
            assert(final(self)@ =~= end_model(old(self)@, reason));
        }
    }

    /// Claims a cell for the snake's head: removes it from the free
    /// positions (where present) and pushes it onto the snake's front.
    fn push_snake_head(&mut self, head: Vector)
        ensures
            final(self)@ == push_head_model(old(self)@, head),
    {
        remove_from_vec(&mut self.free_positions, head);
        self.snake.push_front(head);
        proof {
            assert(final(self)@.snake =~= seq![head] + old(self)@.snake);
            assert(final(self)@ =~= push_head_model(old(self)@, head));
        }
    }

    /// Pops the snake's oldest cell; it returns to the free positions unless
    /// it doubles as a hazard.
    fn pop_snake_tail(&mut self)
        requires
            old(self)@.snake.len() >= 1,
        ensures
            final(self)@ == pop_tail_model(old(self)@),
    {
        let pos = self.snake.pop_back().unwrap();
        if !vec_contains(&self.hazards, pos) {
            self.free_positions.push(pos);
        }
        proof {
            assert(old(self)@.snake.drop_last() =~= final(self)@.snake);
            assert(final(self)@ =~= pop_tail_model(old(self)@));
        }
    }

    /// Queues a direction change for the next step; a change to the current
    /// direction or its reverse is ignored and leaves the state untouched.
    pub fn change_direction(&mut self, direction: Direction)
        ensures
            final(self)@ == change_direction_model(old(self)@, direction),
            direction == old(self).direction || direction == old(self).direction.opposite_spec()
                ==> *final(self) == *old(self),
    {
        if self.direction == direction || self.direction.opposite() == direction {
            return;
        }
        self.next_direction = direction;
        proof {
            assert(final(self)@ =~= change_direction_model(old(self)@, direction));
        }
    }
}

impl SnakeGame {
    /// Spawns `number` food items, each drawn uniformly (up to the modulo
    /// bias of the 16-bit draw) from the free positions; with no free
    /// position left the run ends as a kill screen.
    pub fn add_food(&mut self, number: usize)
        ensures
            final(self)@ == spawn_many(old(self)@, number as nat),
    {
        let mut i: usize = 0;
        while i < number
            invariant
                0 <= i <= number,
                spawn_many(old(self)@, number as nat) == spawn_many(self@, (number - i) as nat),
            decreases number - i,
        {
            let ghost pre = self@;
            if self.free_positions.is_empty() {
                // kill screen: the board is entirely full
                self.end_game(GameOverReason::KillScreen);
                proof {
                    assert(self@ =~= spawn_step(pre));
                }
            } else {
                let drawn = self.prng.get_u16();
                let len = self.free_positions.len();
                let position_index = drawn as usize % len;
                let position = self.free_positions.swap_remove(position_index);
                self.food.push(position);
                proof {
                    assert(drawn as int % len as int == drawn as usize as int % len as int);
                    assert(self@ =~= spawn_step(pre));
                }
            }
            i += 1;
            proof {
                assert(spawn_many(pre, (number - i + 1) as nat) == spawn_many(
                    spawn_step(pre),
                    (number - i) as nat,
                ));
            }
        }
    }

    /// Rebuilds the free-position list from scratch: every board cell, in
    /// row-major order, that no snake, hazard or food entry claims.
    pub fn init_free_positions(&mut self)
        requires
            old(self)@.dims_ok(),
        ensures
            final(self)@ == init_free_model(old(self)@),
    {
        self.free_positions.clear();
        let total = self.width * self.height;
        let mut k: isize = 0;
        while k < total
            invariant
                self@.dims_ok(),
                total == self@.width * self@.height,
                0 <= k <= total,
                self.width == old(self).width,
                self.height == old(self).height,
                self.snake@ == old(self).snake@,
                self.hazards@ == old(self).hazards@,
                self.food@ == old(self).food@,
                self.direction == old(self).direction,
                self.next_direction == old(self).next_direction,
                self.game_over == old(self).game_over,
                self.game_over_reason == old(self).game_over_reason,
                self.score == old(self).score,
                self.high_score == old(self).high_score,
                self.high_score_display == old(self).high_score_display,
                self.prng == old(self).prng,
                self.free_positions@ == old(self)@.free_scan(k as int),
            decreases total - k,
        {
            let x = k % self.width;
            let y = k / self.width;
            let pos = Vector(x, y);
            proof {
                assert(pos == cell_at(self@.width, k as int));
                assert(old(self)@.cell_free(pos) == self@.cell_free(pos));
            }
            if !deque_contains(&self.snake, pos) && !vec_contains(&self.hazards, pos)
                && !vec_contains(&self.food, pos) {
                self.free_positions.push(pos);
                proof {
                    assert(self.free_positions@ =~= old(self)@.free_scan(k as int) + seq![pos]);
                    assert(self.free_positions@ == old(self)@.free_scan(k + 1));
                }
            } else {
                proof {
                    assert(self.free_positions@ =~= old(self)@.free_scan(k as int)
                        + Seq::<Vector>::empty());
                    assert(self.free_positions@ == old(self)@.free_scan(k + 1));
                }
            }
            k += 1;
        }
        proof {
            assert(final(self)@ =~= init_free_model(old(self)@));
        }
    }

    /// Clears snake, hazards and food and recomputes the free positions for
    /// the empty board.
    fn clear_board(&mut self)
        requires
            old(self)@.dims_ok(),
        ensures
            final(self)@ == clear_board_model(old(self)@),
    {
        self.snake.clear();
        self.hazards.clear();
        self.food.clear();
        self.init_free_positions();
        proof {
            assert(final(self)@ =~= clear_board_model(old(self)@));
        }
    }
}

impl SnakeGame {
    /// Begins a new run: clears the board, places the two-cell snake at the
    /// middle row against the right edge (head one cell left of the tail),
    /// spawns one food item, resets both directions to Left, clears the
    /// terminal flag, snapshots the high score into the display and zeroes
    /// the score. Dimensions, the high score and the generator state persist.
    pub fn restart(&mut self)
        requires
            old(self)@.dims_ok(),
        ensures
            final(self)@ == restart_model(old(self)@),
            final(self)@.inv(),
    {
        let width = self.width;
        let height = self.height;

        self.clear_board();

        let tail = Vector(width - 1, height / 2);
        self.push_snake_head(tail);

        let head = Vector(width - 2, height / 2);
        self.push_snake_head(head);

        self.add_food(1);

        self.direction = Direction::Left;
        self.next_direction = Direction::Left;
        self.game_over = false;
        self.game_over_reason = None;
        self.high_score_display = self.high_score;
        self.score = 0;
        proof {
            let m = old(self)@;
            let pre_spawn = push_head_model(
                push_head_model(
                    clear_board_model(m),
                    Vector((m.width - 1) as isize, (m.height / 2) as isize),
                ),
                Vector((m.width - 2) as isize, (m.height / 2) as isize),
            );
            assert(spawn_many(spawn_step(pre_spawn), 0) == spawn_step(pre_spawn));
            assert(final(self)@ =~= restart_model(m));
            lemma_restart_establishes_inv(m);
        }
    }

    /// Builds a game on a `width` by `height` board, seeded from the two
    /// given words, and starts its first run. The board must be at least
    /// five cells wide and three tall.
    pub fn new_with_seed(width: isize, height: isize, word0: u16, word1: u16) -> (r: SnakeGame)
        requires
            width >= 5,
            height >= 3,
            width as int * height as int <= isize::MAX as int,
        ensures
            r@ == fresh_game(width, height, word0, word1),
            r@.inv(),
    {
        let mut game = SnakeGame {
            width,
            height,
            free_positions: Vec::new(),
            snake: VecDeque::new(),
            direction: Direction::Left,
            next_direction: Direction::Left,
            hazards: Vec::new(),
            food: Vec::new(),
            game_over: false,
            game_over_reason: None,
            score: 0,
            high_score: 0,
            high_score_display: 0,
            prng: Prng::new(word0, word1),
        };
        proof {
            assert(game@ =~= initial_model(width, height, word0, word1));
        }
        game.restart();
        game
    }

    /// Builds a game on a `width` by `height` board, seeded from the host's
    /// coarse entropy source, and starts its first run.
    pub fn new(width: isize, height: isize) -> (r: SnakeGame)
        requires
            width >= 5,
            height >= 3,
            width as int * height as int <= isize::MAX as int,
        ensures
            exists|word0: u16, word1: u16| r@ == fresh_game(width, height, word0, word1),
            r@.inv(),
    {
        let (word0, word1) = crate::random::get_prng_seed();
        let game = SnakeGame::new_with_seed(width, height, word0, word1);
        proof {
            assert(game@ == fresh_game(width, height, word0, word1));
        }
        game
    }
}

impl SnakeGame {
    /// One simulation step, as `tick_model` describes: a terminal state is
    /// left untouched; otherwise the queued direction is committed and the
    /// head advances one cell, ending the run on a wall, body or hazard hit,
    /// growing and scoring on food, and just moving otherwise. The score
    /// rises by one exactly when the head lands on food, and the high score
    /// never falls.
    pub fn tick(&mut self)
        requires
            old(self)@.inv(),
        ensures
            final(self)@ == tick_model(old(self)@),
            final(self)@.inv(),
            old(self).game_over ==> *final(self) == *old(self),
            final(self)@.score == old(self)@.score + if old(self)@.eats_food() {
                1int
            } else {
                0int
            },
            final(self)@.score >= old(self)@.score,
            final(self)@.high_score >= old(self)@.high_score,
            final(self)@.snake.no_duplicates(),
    {
        proof {
            lemma_tick_preserves_inv(old(self)@);
        }
        if self.game_over {
            return;
        }

        self.direction = self.next_direction;
        let ghost m = old(self)@;
        let ghost g = m.committed();
        proof {
            assert(self@ =~= g);
            assert(m.snake.contains(m.snake[0])) by {
                assert(m.snake[0] == m.snake[0]);
            }
            assert(m.in_board(m.snake[0]));
            assert(m.width <= m.width * m.height) by (nonlinear_arith)
                requires
                    5 <= m.width,
                    3 <= m.height,
            ;
            assert(m.height <= m.width * m.height) by (nonlinear_arith)
                requires
                    5 <= m.width,
                    3 <= m.height,
            ;
        }

        // the cell the head moves to
        let old_head = self.snake[0];
        let new_head = self.direction.to_vector().add(old_head);
        proof {
            assert(new_head == g.next_head());
        }

        if !self.is_within_board(new_head) {
            self.end_game(GameOverReason::Walls);
            return;
        }

        if deque_contains(&self.snake, new_head) {
            self.end_game(GameOverReason::OwnTail);
            return;
        }

        if vec_contains(&self.hazards, new_head) {
            self.end_game(GameOverReason::Hazard);
            return;
        }

        // add the new head
        self.push_snake_head(new_head);
        let ghost g2 = push_head_model(g, new_head);

        // check for eating
        if vec_contains(&self.food, new_head) {
            let tail_index = self.snake.len() - 1;
            let tail_pos = self.snake[tail_index];
            proof {
                assert(g2.snake[g2.snake.len() - 1] == g.snake[g.snake.len() - 1]);
                assert(tail_pos == g2.tail());
            }

            // two food items side by side can lay the same hazard twice; the
            // entry is pushed regardless, and such a cell is later withheld
            // from the free positions rather than deduplicated
            self.hazards.push(tail_pos);
            let hazard_count = self.hazards.len();
            proof {
                assert(hazard_count as int == m.hazards.len() + 1);
                assert(self.score as int == m.hazards.len() as int);
            }
            self.score = self.score + 1;

            remove_from_vec(&mut self.food, new_head);
            let ghost g3 = GameModel {
                score: g2.score + 1,
                hazards: g2.hazards.push(g2.tail()),
                food: remove_value(g2.food, new_head),
                ..g2
            };
            proof {
                assert(self@ =~= g3);
            }

            self.add_food(1);
            proof {
                assert(spawn_many(spawn_step(g3), 0) == spawn_step(g3));
                assert(self@ == grow_model(g, new_head));
                assert(self@ == tick_model(m));
            }
        } else {
            // remove the tail only if not eating; the snake grows by eating
            self.pop_snake_tail();
            proof {
                assert(self@ == move_model(g, new_head));
                assert(self@ == tick_model(m));
            }
        }
    }
}

impl GameModel {
    /// The in-bounds cells orthogonally adjacent to `v`: left, right, up,
    /// down, in that order.
    pub open spec fn adjacent_spec(self, v: Vector) -> Seq<Vector> {
        let l = Vector((v.0 - 1) as isize, v.1);
        let r = Vector((v.0 + 1) as isize, v.1);
        let u = Vector(v.0, (v.1 - 1) as isize);
        let d = Vector(v.0, (v.1 + 1) as isize);
        (if self.in_board(l) {
            seq![l]
        } else {
            Seq::empty()
        }) + (if self.in_board(r) {
            seq![r]
        } else {
            Seq::empty()
        }) + (if self.in_board(u) {
            seq![u]
        } else {
            Seq::empty()
        }) + (if self.in_board(d) {
            seq![d]
        } else {
            Seq::empty()
        })
    }

    /// The adjacents of the first `k` food cells, concatenated in food
    /// order.
    pub open spec fn food_adjacents(self, k: int) -> Seq<Vector>
        decreases k,
    {
        if k <= 0 {
            Seq::empty()
        } else {
            self.food_adjacents(k - 1) + self.adjacent_spec(self.food[k - 1])
        }
    }

    /// The semi-open tiles: the in-bounds cells orthogonally adjacent to the
    /// snake's head and to every food cell.
    pub open spec fn semi_open_spec(self) -> Seq<Vector> {
        self.adjacent_spec(self.head()) + self.food_adjacents(self.food.len() as int)
    }
}

impl SnakeGame {
    /// The in-bounds cells orthogonally adjacent to `position`.
    fn adjacent_tiles(&self, position: Vector) -> (r: Vec<Vector>)
        requires
            self@.dims_ok(),
            self@.in_board(position),
        ensures
            r@ == self@.adjacent_spec(position),
    {
        proof {
            assert(self@.width <= self@.width * self@.height) by (nonlinear_arith)
                requires
                    5 <= self@.width,
                    3 <= self@.height,
            ;
            assert(self@.height <= self@.width * self@.height) by (nonlinear_arith)
                requires
                    5 <= self@.width,
                    3 <= self@.height,
            ;
        }
        let candidates = [
            Vector(position.0 - 1, position.1),
            Vector(position.0 + 1, position.1),
            Vector(position.0, position.1 - 1),
            Vector(position.0, position.1 + 1),
        ];
        let mut vec: Vec<Vector> = Vec::new();
        if self.is_within_board(candidates[0]) {
            vec.push(candidates[0]);
        }
        if self.is_within_board(candidates[1]) {
            vec.push(candidates[1]);
        }
        if self.is_within_board(candidates[2]) {
            vec.push(candidates[2]);
        }
        if self.is_within_board(candidates[3]) {
            vec.push(candidates[3]);
        }
        proof {
            assert(vec@ =~= self@.adjacent_spec(position));
        }
        vec
    }

    /// The debug overlay's read-only query: every in-bounds cell orthogonally
    /// adjacent to the snake's head or to a food cell. No state changes.
    pub fn get_semi_open_tiles(&self) -> (r: Vec<Vector>)
        requires
            self@.inv(),
        ensures
            r@ == self@.semi_open_spec(),
    {
        let snake_head = self.snake[0];
        proof {
            assert(self@.snake.contains(self@.snake[0]));
        }

        let mut vec: Vec<Vector> = Vec::new();
        let mut head_adjacent = self.adjacent_tiles(snake_head);
        vec.append(&mut head_adjacent);

        let food_count = self.food.len();
        let mut i: usize = 0;
        while i < food_count
            invariant
                self@.inv(),
                food_count == self@.food.len(),
                0 <= i <= food_count,
                vec@ == self@.adjacent_spec(self@.head()) + self@.food_adjacents(i as int),
            decreases food_count - i,
        {
            let fruit = self.food[i];
            proof {
                assert(self@.food.contains(self@.food[i as int]));
            }
            let mut fruit_adjacent = self.adjacent_tiles(fruit);
            vec.append(&mut fruit_adjacent);
            i += 1;
        }
        proof {
            assert(vec@ == self@.semi_open_spec());
        }
        vec
    }

    /// The single entry point for externally driven input: dispatches one
    /// command to the operation it denotes.
    pub fn apply(&mut self, command: Command)
        requires
            old(self)@.inv(),
        ensures
            final(self)@ == apply_model(old(self)@, command),
            final(self)@.inv(),
    {
        match command {
            Command::MoveUp => self.change_direction(Direction::Up),
            Command::MoveRight => self.change_direction(Direction::Right),
            Command::MoveDown => self.change_direction(Direction::Down),
            Command::MoveLeft => self.change_direction(Direction::Left),
            Command::Restart => self.restart(),
            Command::Step => self.tick(),
        }
        proof {
            match command {
                Command::MoveUp => lemma_change_preserves_inv(old(self)@, Direction::Up),
                Command::MoveRight => lemma_change_preserves_inv(old(self)@, Direction::Right),
                Command::MoveDown => lemma_change_preserves_inv(old(self)@, Direction::Down),
                Command::MoveLeft => lemma_change_preserves_inv(old(self)@, Direction::Left),
                Command::Restart => {},
                Command::Step => {},
            }
        }
    }
}

/// A queued direction change preserves the state invariant.
pub proof fn lemma_change_preserves_inv(m: GameModel, d: Direction)
    requires
        m.inv(),
    ensures
        change_direction_model(m, d).inv(),
{
    lemma_geometry_congruence(m, change_direction_model(m, d));
}

} // verus!
