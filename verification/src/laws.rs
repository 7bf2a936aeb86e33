use vstd::prelude::*;

use crate::snake::{
    change_direction_model, end_model, restart_model, run_model, tick_model, Command, GameModel,
    GameOverReason, Vector,
};

verus! {

/// All cells of a `w` by `h` board.
pub open spec fn board_set(w: int, h: int) -> Set<Vector> {
    Set::new(
        |v: Vector| 0 <= v.0 as int && (v.0 as int) < w && 0 <= v.1 as int && (v.1 as int) < h,
    )
}

/// The cells of row `y` with a column below `w`.
spec fn row_set(w: int, y: int) -> Set<Vector> {
    Set::new(|v: Vector| 0 <= v.0 as int && (v.0 as int) < w && v.1 as int == y)
}

/// A row of `w` cells has exactly `w` elements.
proof fn lemma_row_card(w: int, y: int)
    requires
        0 <= w <= isize::MAX as int,
        0 <= y <= isize::MAX as int,
    ensures
        row_set(w, y).finite(),
        row_set(w, y).len() == w,
    decreases w,
{
    broadcast use vstd::set::group_set_axioms;

    if w == 0 {
        assert(row_set(0, y) =~= Set::<Vector>::empty());
    } else {
        lemma_row_card(w - 1, y);
        let c = Vector((w - 1) as isize, y as isize);
        assert(!row_set(w - 1, y).contains(c));
        assert(row_set(w, y) =~= row_set(w - 1, y).insert(c));
    }
}

/// A `w` by `h` board has exactly `w * h` cells.
pub proof fn lemma_board_card(w: int, h: int)
    requires
        0 <= w <= isize::MAX as int,
        0 <= h <= isize::MAX as int,
    ensures
        board_set(w, h).finite(),
        board_set(w, h).len() == w * h,
    decreases h,
{
    broadcast use vstd::set::group_set_axioms;
    broadcast use vstd::set_lib::lemma_set_disjoint_lens;

    if h == 0 {
        assert(board_set(w, 0) =~= Set::<Vector>::empty());
    } else {
        lemma_board_card(w, h - 1);
        lemma_row_card(w, h - 1);
        assert(board_set(w, h - 1).disjoint(row_set(w, h - 1)));
        assert(board_set(w, h) =~= board_set(w, h - 1) + row_set(w, h - 1));
        assert((board_set(w, h - 1) + row_set(w, h - 1)).len() == board_set(w, h - 1).len()
            + row_set(w, h - 1).len());
        assert(w * h == w * (h - 1) + w) by (nonlinear_arith);
    }
}

/// Occupancy accounting: in any valid state whose oldest snake segment is
/// not doubling as a hazard, the snake, food, hazard and free-position cell
/// sets are pairwise disjoint and their cardinalities sum to the board area.
/// (Right after the snake eats, the retained oldest segment is both a body
/// cell and a hazard, so the account holds again once it is popped.)
pub proof fn lemma_occupancy_partition(m: GameModel)
    requires
        m.inv(),
        !m.hazards.contains(m.tail()),
    ensures
        m.snake.to_set().disjoint(m.food.to_set()),
        m.snake.to_set().disjoint(m.hazards.to_set()),
        m.snake.to_set().disjoint(m.free_positions.to_set()),
        m.food.to_set().disjoint(m.hazards.to_set()),
        m.food.to_set().disjoint(m.free_positions.to_set()),
        m.hazards.to_set().disjoint(m.free_positions.to_set()),
        m.snake.to_set().len() + m.food.to_set().len() + m.hazards.to_set().len()
            + m.free_positions.to_set().len() == m.width * m.height,
        m.snake.to_set().len() == m.snake.len(),
        m.food.to_set().len() == m.food.len(),
        m.free_positions.to_set().len() == m.free_positions.len(),
{
    broadcast use vstd::set::group_set_axioms;
    broadcast use vstd::set_lib::lemma_set_disjoint_lens;
    broadcast use vstd::seq_lib::seq_to_set_is_finite;

    let s = m.snake.to_set();
    let f = m.food.to_set();
    let hz = m.hazards.to_set();
    let fr = m.free_positions.to_set();

    // a snake cell in the hazards could only be the retained oldest segment
    assert forall|v: Vector| s.contains(v) implies !hz.contains(v) by {
        if m.hazards.contains(v) {
            assert(v == m.tail());
        }
    }
    assert(s.disjoint(f) && s.disjoint(hz) && s.disjoint(fr));
    assert(f.disjoint(hz) && f.disjoint(fr));
    assert(hz.disjoint(fr));

    m.snake.unique_seq_to_set();
    m.food.unique_seq_to_set();
    m.free_positions.unique_seq_to_set();

    assert(((s + f) + hz).disjoint(fr));
    assert((s + f).disjoint(hz));
    assert((((s + f) + hz) + fr).len() == s.len() + f.len() + hz.len() + fr.len());

    assert(((s + f) + hz) + fr =~= board_set(m.width, m.height)) by {
        assert forall|v: Vector| #[trigger] board_set(m.width, m.height).contains(v) implies (((s
            + f) + hz) + fr).contains(v) by {
            assert(m.in_board(v));
        }
        assert forall|v: Vector| (((s + f) + hz) + fr).contains(v) implies board_set(
            m.width,
            m.height,
        ).contains(v) by {
            if m.snake.contains(v) || m.food.contains(v) || m.hazards.contains(v)
                || m.free_positions.contains(v) {
                assert(m.in_board(v));
            }
        }
    }
    assert(m.width <= isize::MAX as int && m.height <= isize::MAX as int) by (nonlinear_arith)
        requires
            5 <= m.width,
            3 <= m.height,
            m.width * m.height <= isize::MAX as int,
    ;
    lemma_board_card(m.width, m.height);
}

/// Reversal guard: queuing the opposite of the committed direction
/// immediately before a step changes nothing — in particular not the
/// direction that the step commits.
pub proof fn lemma_reversal_guard(m: GameModel)
    ensures
        change_direction_model(m, m.direction.opposite_spec()) == m,
        tick_model(change_direction_model(m, m.direction.opposite_spec())) == tick_model(m),
{
}

/// Determinism: the engine's evolution is a function of its state and of the
/// commands fed to it; two games in equal states stay equal under the same
/// command sequence.
pub proof fn lemma_run_deterministic(m1: GameModel, m2: GameModel, commands: Seq<Command>)
    requires
        m1 == m2,
    ensures
        run_model(m1, commands) == run_model(m2, commands),
{
}

/// Terminal-state entry: ending a run sets the terminal flag with its
/// reason and folds the final score into the high score, taking the maximum;
/// the board — snake, food, hazards, free positions — and the score itself
/// are untouched.
pub proof fn lemma_end_fold(m: GameModel, r: GameOverReason)
    ensures
        end_model(m, r).game_over,
        end_model(m, r).game_over_reason == Some(r),
        end_model(m, r).high_score == if m.score >= m.high_score {
            m.score
        } else {
            m.high_score
        },
        end_model(m, r).score == m.score,
        end_model(m, r).snake == m.snake,
        end_model(m, r).food == m.food,
        end_model(m, r).hazards == m.hazards,
        end_model(m, r).free_positions == m.free_positions,
        end_model(m, r).high_score_display == m.high_score_display,
{
}

/// High-score carry: a step that does not end the run leaves the high score
/// alone; one that ends it folds the final score in, taking the maximum; and
/// a restart snapshots the carried high score into the display while the
/// score resets to zero.
pub proof fn lemma_high_score_carry(m: GameModel)
    requires
        m.inv(),
    ensures
        !tick_model(m).game_over ==> tick_model(m).high_score == m.high_score,
        tick_model(m).game_over && !m.game_over ==> tick_model(m).high_score == if tick_model(
            m,
        ).score >= m.high_score {
            tick_model(m).score
        } else {
            m.high_score
        },
        restart_model(m).high_score == m.high_score,
        restart_model(m).high_score_display == m.high_score,
        restart_model(m).score == 0,
{
    crate::snake::lemma_restart_establishes_inv(m);
}

} // verus!
