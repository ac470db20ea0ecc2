//! What the scores of a search mean for the game: a move that scores
//! `VICTORY` wins whatever the opponent does, and an undecided move that
//! scores `DEFEAT` loses if the opponent plays well.

use crate::board::Grid;
use crate::interfaces::{BoardStateEntry, GameResult, PlayerID, Score, TicTacToeReferee};
use crate::player::minmax::{
    are_scores, evaluation_at, evaluation_is_sound, evaluation_is_sound_at,
    lemma_peak_is_a_score, lemma_peak_is_maximum, lemma_reply_gives_score,
    lemma_score_at_by_verdict, lemma_sound_by_cells, lemma_verdict_gives_score, peak, reaches,
    score_at, score_is_sound_at, verdict_at, DEFEAT, VICTORY,
};
use crate::referee::rules::{after_move, count_free, lemma_move_uses_a_free_cell};
use vstd::prelude::*;

verus! {

/// `index` is the row-major position of a cell of the grid.
pub open spec fn is_cell(grid: Grid<BoardStateEntry>, index: int) -> bool {
    0 <= index < grid.cells.len()
}

/// The move of `me` to the cell at `index` wins by force: it wins at once,
/// or it leaves the game undecided and every reply of the opponent loses.
pub open spec fn is_winning_move<R: TicTacToeReferee>(
    referee: R,
    grid: Grid<BoardStateEntry>,
    me: PlayerID,
    opponent: PlayerID,
    index: int,
) -> bool
    decreases count_free(grid.cells), 1nat,
{
    match verdict_at(referee, grid, me, index) {
        GameResult::Victory => true,
        GameResult::Undecided => if grid.wf() {
            proof {
                lemma_move_uses_a_free_cell(grid, grid.point(index), me);
            }
            forall|reply: int| #[trigger]
                is_cell(grid, reply) ==> is_losing_reply(
                    referee,
                    after_move(grid, grid.point(index), me),
                    opponent,
                    me,
                    reply,
                )
        } else {
            false
        },
        _ => false,
    }
}

/// The reply of `me` to the cell at `index` loses: it is not legal, or it
/// leaves the game undecided and the opponent then has a winning move.
pub open spec fn is_losing_reply<R: TicTacToeReferee>(
    referee: R,
    grid: Grid<BoardStateEntry>,
    me: PlayerID,
    opponent: PlayerID,
    index: int,
) -> bool
    decreases count_free(grid.cells), 0nat,
{
    match verdict_at(referee, grid, me, index) {
        GameResult::IllegalMove => true,
        GameResult::Undecided => if grid.wf() {
            proof {
                lemma_move_uses_a_free_cell(grid, grid.point(index), me);
            }
            can_force_win(referee, after_move(grid, grid.point(index), me), opponent, me)
        } else {
            false
        },
        _ => false,
    }
}

/// `me`, to move on `grid`, has a move that wins by force.
pub open spec fn can_force_win<R: TicTacToeReferee>(
    referee: R,
    grid: Grid<BoardStateEntry>,
    me: PlayerID,
    opponent: PlayerID,
) -> bool
    decreases count_free(grid.cells), 2nat,
{
    exists|index: int| #[trigger]
        is_cell(grid, index) && is_winning_move(referee, grid, me, opponent, index)
}

/// Every score of a sound evaluation is one of `DEFEAT`, `DRAW` and `VICTORY`.
pub proof fn lemma_sound_scores_are_scores<R: TicTacToeReferee>(
    referee: R,
    grid: Grid<BoardStateEntry>,
    me: PlayerID,
    opponent: PlayerID,
    depth: nat,
    scores: Seq<Score>,
)
    requires
        evaluation_is_sound(referee, grid, me, opponent, depth, scores),
    ensures
        are_scores(scores),
        scores.len() == grid.cells.len(),
    decreases count_free(grid.cells),
{
    let deeper = choose|deeper: nat|
        #[trigger] reaches(deeper, depth) && evaluation_is_sound_at(
            referee,
            grid,
            me,
            opponent,
            deeper,
            scores,
        );
    assert forall|index: int| 0 <= index < scores.len() implies DEFEAT <= #[trigger] scores[index]
        <= VICTORY by {
        assert(score_is_sound_at(referee, grid, me, opponent, deeper, index, scores[index]));
        let verdict = verdict_at(referee, grid, me, index);
        if verdict == GameResult::Undecided && deeper > 1 {
            let after = after_move(grid, grid.point(index), me);
            let replies = choose|replies: Seq<Score>|
                scores[index] == -(#[trigger] peak(replies)) && evaluation_is_sound(
                    referee,
                    after,
                    opponent,
                    me,
                    (deeper - 1) as nat,
                    replies,
                );
            lemma_move_uses_a_free_cell(grid, grid.point(index), me);
            lemma_sound_scores_are_scores(
                referee,
                after,
                opponent,
                me,
                (deeper - 1) as nat,
                replies,
            );
            lemma_peak_is_a_score(replies);
        }
    }
}

/// In a sound evaluation a move that scores `VICTORY` wins by force, and an
/// undecided move that scores `DEFEAT` hands the opponent a win by force.
pub proof fn lemma_scores_tell_forced_results<R: TicTacToeReferee>(
    referee: R,
    grid: Grid<BoardStateEntry>,
    me: PlayerID,
    opponent: PlayerID,
    depth: nat,
    scores: Seq<Score>,
    index: int,
)
    requires
        grid.wf(),
        evaluation_is_sound(referee, grid, me, opponent, depth, scores),
        0 <= index < grid.cells.len(),
    ensures
        scores[index] == VICTORY ==> is_winning_move(referee, grid, me, opponent, index),
        scores[index] == DEFEAT && verdict_at(referee, grid, me, index) == GameResult::Undecided
            ==> can_force_win(referee, after_move(grid, grid.point(index), me), opponent, me),
    decreases count_free(grid.cells),
{
    let deeper = choose|deeper: nat|
        #[trigger] reaches(deeper, depth) && evaluation_is_sound_at(
            referee,
            grid,
            me,
            opponent,
            deeper,
            scores,
        );
    assert(score_is_sound_at(referee, grid, me, opponent, deeper, index, scores[index]));
    let verdict = verdict_at(referee, grid, me, index);
    if verdict == GameResult::Undecided && deeper > 1 {
        let after = after_move(grid, grid.point(index), me);
        let replies = choose|replies: Seq<Score>|
            scores[index] == -(#[trigger] peak(replies)) && evaluation_is_sound(
                referee,
                after,
                opponent,
                me,
                (deeper - 1) as nat,
                replies,
            );
        lemma_move_uses_a_free_cell(grid, grid.point(index), me);
        lemma_sound_scores_are_scores(referee, after, opponent, me, (deeper - 1) as nat, replies);
        assert(replies.len() == grid.cells.len());
        crate::board::lemma_cell_count_positive(grid.rows, grid.columns);
        lemma_peak_is_maximum(replies);
        if scores[index] == VICTORY {
            assert forall|reply: int| #[trigger] is_cell(grid, reply) implies is_losing_reply(
                referee,
                after,
                opponent,
                me,
                reply,
            ) by {
                assert(replies[reply] <= peak(replies));
                assert(replies[reply] == DEFEAT);
                lemma_defeat_neither_wins_nor_draws(
                    referee,
                    after,
                    opponent,
                    me,
                    (deeper - 1) as nat,
                    replies,
                    reply,
                );
                let answer = verdict_at(referee, after, opponent, reply);
                if answer == GameResult::Undecided {
                    lemma_scores_tell_forced_results(
                        referee,
                        after,
                        opponent,
                        me,
                        (deeper - 1) as nat,
                        replies,
                        reply,
                    );
                }
            }
        }
        if scores[index] == DEFEAT {
            let best = choose|best: int|
                0 <= best < replies.len() && #[trigger] replies[best] == peak(replies);
            assert(replies[best] == VICTORY);
            lemma_scores_tell_forced_results(
                referee,
                after,
                opponent,
                me,
                (deeper - 1) as nat,
                replies,
                best,
            );
            assert(is_cell(after, best));
        }
    }
}

/// A move that scores `DEFEAT` in a sound evaluation neither wins at once
/// nor draws.
pub proof fn lemma_defeat_neither_wins_nor_draws<R: TicTacToeReferee>(
    referee: R,
    grid: Grid<BoardStateEntry>,
    me: PlayerID,
    opponent: PlayerID,
    depth: nat,
    scores: Seq<Score>,
    index: int,
)
    requires
        evaluation_is_sound(referee, grid, me, opponent, depth, scores),
        0 <= index < scores.len(),
        scores[index] == DEFEAT,
    ensures
        verdict_at(referee, grid, me, index) != GameResult::Victory,
        verdict_at(referee, grid, me, index) != GameResult::Draw,
{
    let deeper = choose|deeper: nat|
        #[trigger] reaches(deeper, depth) && evaluation_is_sound_at(
            referee,
            grid,
            me,
            opponent,
            deeper,
            scores,
        );
    assert(score_is_sound_at(referee, grid, me, opponent, deeper, index, scores[index]));
}

/// The evaluation that a search of exactly `depth` plies computes is sound
/// at that depth, so what holds of every sound evaluation holds of it.
pub proof fn lemma_evaluation_at_is_sound<R: TicTacToeReferee>(
    referee: R,
    grid: Grid<BoardStateEntry>,
    me: PlayerID,
    opponent: PlayerID,
    depth: nat,
)
    requires
        grid.wf(),
    ensures
        evaluation_is_sound_at(
            referee,
            grid,
            me,
            opponent,
            depth,
            evaluation_at(referee, grid, me, opponent, depth),
        ),
        evaluation_is_sound(
            referee,
            grid,
            me,
            opponent,
            depth,
            evaluation_at(referee, grid, me, opponent, depth),
        ),
    decreases depth,
{
    let scores = evaluation_at(referee, grid, me, opponent, depth);
    assert forall|index: int| 0 <= index < scores.len() implies score_is_sound_at(
        referee,
        grid,
        me,
        opponent,
        depth,
        index,
        #[trigger] scores[index],
    ) by {
        lemma_score_at_by_verdict(referee, grid, me, opponent, depth, index);
        lemma_verdict_gives_score(referee, grid, me, opponent, depth, index);
        assert(scores[index] == score_at(referee, grid, me, opponent, depth, index));
        if verdict_at(referee, grid, me, index) == GameResult::Undecided && depth > 1 {
            let after = after_move(grid, grid.point(index), me);
            let replies = evaluation_at(referee, after, opponent, me, (depth - 1) as nat);
            lemma_move_uses_a_free_cell(grid, grid.point(index), me);
            lemma_evaluation_at_is_sound(referee, after, opponent, me, (depth - 1) as nat);
            lemma_sound_scores_are_scores(
                referee,
                after,
                opponent,
                me,
                (depth - 1) as nat,
                replies,
            );
            lemma_peak_is_a_score(replies);
            lemma_reply_gives_score(referee, grid, me, opponent, depth, index, replies);
        }
    }
    lemma_sound_by_cells(referee, grid, me, opponent, depth, depth, scores);
}

} // verus!
