//! A player that searches the game tree to a fixed depth, negamax style,
//! and remembers what it found in a transposition cache.

use crate::board::{lemma_point_in_bounds, Grid};
use crate::game_state_storage::{covers, GameStateStorage};
use crate::interfaces::{
    BoardStateEntry, Evaluation, GameResult, GameState, Placement, Player, PlayerID, Score,
    TicTacToeReferee, Weight,
};
use crate::referee::rules::{
    adjudicate, after_move, count_free, lemma_move_uses_a_free_cell,
};
use vstd::prelude::*;

verus! {

/// The score of a move that loses or is not legal.
pub const DEFEAT: Score = -1;

/// The score of a move that wins.
pub const VICTORY: Score = 1;

/// The score of a move that neither wins nor loses.
pub const DRAW: Score = 0;

/// The largest of the scores; `DEFEAT` where there is none.
pub open spec fn peak(scores: Seq<Score>) -> Score
    decreases scores.len(),
{
    if scores.len() == 0 {
        DEFEAT
    } else if scores.len() == 1 {
        scores[0]
    } else if scores.last() > peak(scores.drop_last()) {
        scores.last()
    } else {
        peak(scores.drop_last())
    }
}

/// The verdict of `referee` on `me` moving to the cell at `index` of `grid`.
pub open spec fn verdict_at<R: TicTacToeReferee>(
    referee: R,
    grid: Grid<BoardStateEntry>,
    me: PlayerID,
    index: int,
) -> GameResult {
    adjudicate(
        grid,
        grid.point(index),
        me,
        referee.sees_win(after_move(grid, grid.point(index), me), grid.point(index), me),
    )
}

/// The score that a search of exactly `depth` plies gives the cell at
/// `index` when `me` is to move on `grid`: a win scores `VICTORY`, a draw
/// `DRAW`, a move that is not legal `DEFEAT`; an undecided move scores
/// `DRAW` at the horizon and otherwise the negation of the best score of
/// the opponent's replies, searched exactly one ply less deep.
pub open spec fn score_at<R: TicTacToeReferee>(
    referee: R,
    grid: Grid<BoardStateEntry>,
    me: PlayerID,
    opponent: PlayerID,
    depth: nat,
    index: int,
) -> Score
    decreases depth, 0nat,
{
    match verdict_at(referee, grid, me, index) {
        GameResult::Victory => VICTORY,
        GameResult::Draw => DRAW,
        GameResult::Undecided => if depth <= 1 {
            DRAW
        } else {
            (-peak(
                evaluation_at(
                    referee,
                    after_move(grid, grid.point(index), me),
                    opponent,
                    me,
                    (depth - 1) as nat,
                ),
            )) as Score
        },
        _ => DEFEAT,
    }
}

/// The evaluation that a search of exactly `depth` plies computes for `me`
/// on `grid`: the score of every cell, in row-major order.
pub open spec fn evaluation_at<R: TicTacToeReferee>(
    referee: R,
    grid: Grid<BoardStateEntry>,
    me: PlayerID,
    opponent: PlayerID,
    depth: nat,
) -> Seq<Score>
    decreases depth, 1nat,
{
    Seq::new(grid.cells.len(), |index: int| score_at(referee, grid, me, opponent, depth, index))
}

/// `score` is what a search of `depth` plies through a cache may assign to
/// the cell at `index` when `me` is to move on `grid`: as `score_at`, but
/// that the replies to an undecided move may have been searched one ply
/// less deep or deeper.
pub open spec fn score_is_sound_at<R: TicTacToeReferee>(
    referee: R,
    grid: Grid<BoardStateEntry>,
    me: PlayerID,
    opponent: PlayerID,
    depth: nat,
    index: int,
    score: Score,
) -> bool
    decreases count_free(grid.cells), 0nat,
{
    match verdict_at(referee, grid, me, index) {
        GameResult::Victory => score == VICTORY,
        GameResult::Draw => score == DRAW,
        GameResult::Undecided => if depth <= 1 {
            score == DRAW
        } else if grid.wf() {
            proof {
                lemma_move_uses_a_free_cell(grid, grid.point(index), me);
            }
            exists|replies: Seq<Score>|
                score == -(#[trigger] peak(replies)) && evaluation_is_sound(
                    referee,
                    after_move(grid, grid.point(index), me),
                    opponent,
                    me,
                    (depth - 1) as nat,
                    replies,
                )
        } else {
            false
        },
        _ => score == DEFEAT,
    }
}

/// `scores` is what a search of `depth` plies through a cache may compute
/// for `me` on `grid`: for every cell a score that is sound at that depth.
pub open spec fn evaluation_is_sound_at<R: TicTacToeReferee>(
    referee: R,
    grid: Grid<BoardStateEntry>,
    me: PlayerID,
    opponent: PlayerID,
    depth: nat,
    scores: Seq<Score>,
) -> bool
    decreases count_free(grid.cells), 1nat,
{
    &&& scores.len() == grid.cells.len()
    &&& forall|index: int|
        0 <= index < scores.len() ==> score_is_sound_at(
            referee,
            grid,
            me,
            opponent,
            depth,
            index,
            #[trigger] scores[index],
        )
}

/// `scores` is what a search of `depth` plies or more may compute for `me`
/// on `grid`. The cache answers a question with what a deeper search found,
/// so this is what a search through the cache promises.
pub open spec fn evaluation_is_sound<R: TicTacToeReferee>(
    referee: R,
    grid: Grid<BoardStateEntry>,
    me: PlayerID,
    opponent: PlayerID,
    depth: nat,
    scores: Seq<Score>,
) -> bool
    decreases count_free(grid.cells), 2nat,
{
    exists|deeper: nat|
        #[trigger] reaches(deeper, depth) && evaluation_is_sound_at(
            referee,
            grid,
            me,
            opponent,
            deeper,
            scores,
        )
}

/// A search of `deeper` plies looks at least `depth` plies ahead.
pub open spec fn reaches(deeper: nat, depth: nat) -> bool {
    deeper >= depth
}

/// A score that is sound at a depth for every cell makes an evaluation
/// that is sound at that depth and at every smaller one.
pub proof fn lemma_sound_by_cells<R: TicTacToeReferee>(
    referee: R,
    grid: Grid<BoardStateEntry>,
    me: PlayerID,
    opponent: PlayerID,
    depth: nat,
    asked: nat,
    scores: Seq<Score>,
)
    requires
        asked <= depth,
        scores.len() == grid.cells.len(),
        forall|index: int|
            0 <= index < scores.len() ==> score_is_sound_at(
                referee,
                grid,
                me,
                opponent,
                depth,
                index,
                #[trigger] scores[index],
            ),
    ensures
        evaluation_is_sound_at(referee, grid, me, opponent, depth, scores),
        evaluation_is_sound(referee, grid, me, opponent, asked, scores),
{
    assert(reaches(depth, asked));
}

/// An evaluation that is sound at a depth is sound at every smaller one.
pub proof fn lemma_sound_at_is_sound<R: TicTacToeReferee>(
    referee: R,
    grid: Grid<BoardStateEntry>,
    me: PlayerID,
    opponent: PlayerID,
    depth: nat,
    asked: nat,
    scores: Seq<Score>,
)
    requires
        asked <= depth,
        evaluation_is_sound_at(referee, grid, me, opponent, depth, scores),
    ensures
        evaluation_is_sound(referee, grid, me, opponent, asked, scores),
{
    assert(reaches(depth, asked));
}

/// A sound evaluation is sound at every smaller depth too.
pub proof fn lemma_sound_at_smaller_depth<R: TicTacToeReferee>(
    referee: R,
    grid: Grid<BoardStateEntry>,
    me: PlayerID,
    opponent: PlayerID,
    depth: nat,
    asked: nat,
    scores: Seq<Score>,
)
    requires
        asked <= depth,
        evaluation_is_sound(referee, grid, me, opponent, depth, scores),
    ensures
        evaluation_is_sound(referee, grid, me, opponent, asked, scores),
{
    let deeper = choose|deeper: nat|
        #[trigger] reaches(deeper, depth) && evaluation_is_sound_at(
            referee,
            grid,
            me,
            opponent,
            deeper,
            scores,
        );
    assert(reaches(deeper, asked));
}

/// The negated best reply is a sound score for an undecided move that is
/// searched further.
pub proof fn lemma_reply_gives_score<R: TicTacToeReferee>(
    referee: R,
    grid: Grid<BoardStateEntry>,
    me: PlayerID,
    opponent: PlayerID,
    depth: nat,
    index: int,
    replies: Seq<Score>,
)
    requires
        grid.wf(),
        depth >= 2,
        verdict_at(referee, grid, me, index) == GameResult::Undecided,
        evaluation_is_sound(
            referee,
            after_move(grid, grid.point(index), me),
            opponent,
            me,
            (depth - 1) as nat,
            replies,
        ),
        DEFEAT <= peak(replies) <= VICTORY,
    ensures
        score_is_sound_at(referee, grid, me, opponent, depth, index, (-peak(replies)) as Score),
{
}

/// What the verdict alone decides of a move's score.
pub proof fn lemma_verdict_gives_score<R: TicTacToeReferee>(
    referee: R,
    grid: Grid<BoardStateEntry>,
    me: PlayerID,
    opponent: PlayerID,
    depth: nat,
    index: int,
)
    ensures
        match verdict_at(referee, grid, me, index) {
            GameResult::Victory => score_is_sound_at(
                referee,
                grid,
                me,
                opponent,
                depth,
                index,
                VICTORY,
            ),
            GameResult::Draw => score_is_sound_at(referee, grid, me, opponent, depth, index, DRAW),
            GameResult::Undecided => depth <= 1 ==> score_is_sound_at(
                referee,
                grid,
                me,
                opponent,
                depth,
                index,
                DRAW,
            ),
            _ => score_is_sound_at(referee, grid, me, opponent, depth, index, DEFEAT),
        },
{
}

/// The largest score is one of the scores and none exceeds it.
pub proof fn lemma_peak_is_maximum(scores: Seq<Score>)
    requires
        scores.len() > 0,
    ensures
        exists|i: int| 0 <= i < scores.len() && #[trigger] scores[i] == peak(scores),
        forall|i: int| 0 <= i < scores.len() ==> #[trigger] scores[i] <= peak(scores),
    decreases scores.len(),
{
    if scores.len() == 1 {
        assert(scores[0] == peak(scores));
    } else {
        let front = scores.drop_last();
        lemma_peak_is_maximum(front);
        let i = choose|i: int| 0 <= i < front.len() && #[trigger] front[i] == peak(front);
        assert(scores[i] == front[i]);
        assert(scores[scores.len() - 1] == scores.last());
        assert forall|k: int| 0 <= k < scores.len() implies #[trigger] scores[k] <= peak(
            scores,
        ) by {
            if k < front.len() {
                assert(front[k] == scores[k]);
            }
        }
    }
}

/// Whether every score is one of `DEFEAT`, `DRAW` and `VICTORY`.
pub open spec fn are_scores(scores: Seq<Score>) -> bool {
    forall|i: int| 0 <= i < scores.len() ==> DEFEAT <= #[trigger] scores[i] <= VICTORY
}

/// The largest of a list of scores is a score.
pub proof fn lemma_peak_is_a_score(scores: Seq<Score>)
    requires
        are_scores(scores),
    ensures
        DEFEAT <= peak(scores) <= VICTORY,
{
    if scores.len() > 0 {
        lemma_peak_is_maximum(scores);
    }
}

/// The weights that an evaluation asks for: where every move loses, `1`
/// for every cell; otherwise `1` for each best cell and `0` for the others.
pub open spec fn placement_of(evaluation: Grid<Score>) -> Grid<Weight> {
    Grid {
        rows: evaluation.rows,
        columns: evaluation.columns,
        cells: Seq::new(
            evaluation.cells.len(),
            |i: int|
                if peak(evaluation.cells) == DEFEAT || evaluation.cells[i] == peak(
                    evaluation.cells,
                ) {
                    1 as Weight
                } else {
                    0 as Weight
                },
        ),
    }
}

/// An evaluation that is `DEFEAT` everywhere asks for the weight `1` everywhere.
pub proof fn lemma_certain_defeat_is_uniform(evaluation: Grid<Score>)
    requires
        evaluation.wf(),
        forall|i: int| 0 <= i < evaluation.cells.len() ==> #[trigger] evaluation.cells[i] == DEFEAT,
    ensures
        placement_of(evaluation) == Grid::<Weight>::filled(evaluation.rows, evaluation.columns, 1),
{
    crate::board::lemma_cell_count_positive(evaluation.rows, evaluation.columns);
    lemma_peak_is_maximum(evaluation.cells);
    assert(placement_of(evaluation).cells =~= Grid::<Weight>::filled(
        evaluation.rows,
        evaluation.columns,
        1,
    ).cells);
}

/// The largest value of an evaluation.
pub fn get_maximum(evaluations: &Evaluation) -> (max: Score)
    requires
        evaluations.wf(),
    ensures
        max == peak(evaluations@.cells),
{
    let cells = evaluations.iter_2d();
    proof {
        crate::board::lemma_cell_count_positive(evaluations@.rows, evaluations@.columns);
    }
    let mut max = *cells[0].1;
    let mut i: usize = 1;
    assert(evaluations@.cells.subrange(0, 1) =~= seq![evaluations@.cells[0]]);
    while i < cells.len()
        invariant
            1 <= i <= cells.len(),
            cells.len() == evaluations@.cells.len(),
            forall|k: int|
                0 <= k < cells.len() ==> *(#[trigger] cells[k]).1 == evaluations@.cells[k],
            max == peak(evaluations@.cells.subrange(0, i as int)),
        decreases cells.len() - i,
    {
        let value = *cells[i].1;
        proof {
            let longer = evaluations@.cells.subrange(0, i + 1);
            assert(longer.drop_last() =~= evaluations@.cells.subrange(0, i as int));
            assert(longer.last() == value);
        }
        if !(max > value) {
            max = value;
        }
        i += 1;
    }
    assert(evaluations@.cells.subrange(0, i as int) =~= evaluations@.cells);
    max
}

/// Who moves, who waits and how far to look.
#[derive(Debug, Clone, Copy)]
pub struct GetEvaluationsArgs {
    pub self_id: PlayerID,
    pub other_id: PlayerID,
    pub max_depth: u32,
}

/// What the cache maps: game states to the depth and the evaluation found.
pub type CacheEntries = Map<Grid<BoardStateEntry>, (u32, Evaluation)>;

/// `evaluation` has the shape of `grid` and holds scores only.
pub open spec fn is_tidy(grid: Grid<BoardStateEntry>, evaluation: Grid<Score>) -> bool {
    &&& evaluation.wf()
    &&& evaluation.same_shape(grid)
    &&& are_scores(evaluation.cells)
}

/// Every cached evaluation has the shape of its game state and holds scores only.
pub open spec fn cache_is_tidy(entries: CacheEntries) -> bool {
    forall|grid: Grid<BoardStateEntry>| #[trigger]
        entries.contains_key(grid) ==> is_tidy(grid, entries[grid].1@)
}

/// Who is to move on `grid`, given who moves on the grids with an even
/// number of free cells and who on those with an odd number.
pub open spec fn to_move(grid: Grid<BoardStateEntry>, even: PlayerID, odd: PlayerID) -> PlayerID {
    if count_free(grid.cells) % 2 == 0 {
        even
    } else {
        odd
    }
}

/// Who moves on the grids with an even number of free cells, where `me`
/// moves on `grid` and `opponent` after that.
pub open spec fn even_seat(
    grid: Grid<BoardStateEntry>,
    me: PlayerID,
    opponent: PlayerID,
) -> PlayerID {
    to_move(grid, me, opponent)
}

/// Who moves on the grids with an odd number of free cells, where `me`
/// moves on `grid` and `opponent` after that.
pub open spec fn odd_seat(
    grid: Grid<BoardStateEntry>,
    me: PlayerID,
    opponent: PlayerID,
) -> PlayerID {
    to_move(grid, opponent, me)
}

/// Every cached evaluation is sound at its depth for the player whose
/// turn it is on its game state, the two players taking turns.
pub open spec fn cache_is_sound<R: TicTacToeReferee>(
    referee: R,
    entries: CacheEntries,
    even: PlayerID,
    odd: PlayerID,
) -> bool {
    forall|grid: Grid<BoardStateEntry>| #[trigger]
        entries.contains_key(grid) ==> evaluation_is_sound(
            referee,
            grid,
            to_move(grid, even, odd),
            to_move(grid, odd, even),
            entries[grid].0 as nat,
            entries[grid].1@.cells,
        )
}

/// Every cached evaluation is the one that a search of exactly its depth
/// computes for the player whose turn it is on its game state, the two
/// players taking turns.
pub open spec fn cache_is_exact<R: TicTacToeReferee>(
    referee: R,
    entries: CacheEntries,
    even: PlayerID,
    odd: PlayerID,
) -> bool {
    forall|grid: Grid<BoardStateEntry>| #[trigger]
        entries.contains_key(grid) ==> entries[grid].1@.cells == evaluation_at(
            referee,
            grid,
            to_move(grid, even, odd),
            to_move(grid, odd, even),
            entries[grid].0 as nat,
        )
}

/// By how many cells the free cells of `grid` exceed the depth of a search
/// of it. A search keeps this number at every position that it visits: one
/// ply down there is one free cell less and one ply less to search.
pub open spec fn slack(grid: Grid<BoardStateEntry>, depth: nat) -> int {
    count_free(grid.cells) - depth
}

/// No cached evaluation is deeper than a search of the given slack asks
/// for at its game state.
pub open spec fn cache_is_within(entries: CacheEntries, slack: int) -> bool {
    forall|grid: Grid<BoardStateEntry>| #[trigger]
        entries.contains_key(grid) ==> entries[grid].0 + slack <= count_free(grid.cells)
}

/// The cache can only answer a search of `depth` plies for `me` on `grid`
/// with what that search would compute itself: it is exact, and no entry
/// is deeper than the search asks for.
pub open spec fn cache_is_aligned<R: TicTacToeReferee>(
    referee: R,
    entries: CacheEntries,
    grid: Grid<BoardStateEntry>,
    me: PlayerID,
    opponent: PlayerID,
    depth: nat,
) -> bool {
    &&& cache_is_exact(
        referee,
        entries,
        even_seat(grid, me, opponent),
        odd_seat(grid, me, opponent),
    )
    &&& cache_is_within(entries, slack(grid, depth))
}

/// A cache that is aligned with a search stays aligned with every search
/// of the same player that asks at least as deep on a game state with the
/// same player to move and no more free cells: with every later search of
/// a game, while the horizon stays.
pub proof fn lemma_cache_stays_aligned<R: TicTacToeReferee>(
    referee: R,
    entries: CacheEntries,
    grid: Grid<BoardStateEntry>,
    later: Grid<BoardStateEntry>,
    me: PlayerID,
    opponent: PlayerID,
    depth: nat,
    later_depth: nat,
)
    requires
        cache_is_aligned(referee, entries, grid, me, opponent, depth),
        count_free(later.cells) <= count_free(grid.cells),
        count_free(later.cells) % 2 == count_free(grid.cells) % 2,
        later_depth >= depth,
    ensures
        cache_is_aligned(referee, entries, later, me, opponent, later_depth),
{
}

/// A cache that holds nothing is aligned with every search.
pub proof fn lemma_empty_cache_is_aligned<R: TicTacToeReferee>(
    referee: R,
    grid: Grid<BoardStateEntry>,
    me: PlayerID,
    opponent: PlayerID,
    depth: nat,
)
    ensures
        cache_is_aligned(referee, Map::empty(), grid, me, opponent, depth),
        cache_is_sound(
            referee,
            Map::empty(),
            even_seat(grid, me, opponent),
            odd_seat(grid, me, opponent),
        ),
        cache_is_tidy(Map::empty()),
{
}

/// What the verdict on a move makes of its score.
pub proof fn lemma_score_at_by_verdict<R: TicTacToeReferee>(
    referee: R,
    grid: Grid<BoardStateEntry>,
    me: PlayerID,
    opponent: PlayerID,
    depth: nat,
    index: int,
)
    ensures
        score_at(referee, grid, me, opponent, depth, index) == (match verdict_at(
            referee,
            grid,
            me,
            index,
        ) {
            GameResult::Victory => VICTORY,
            GameResult::Draw => DRAW,
            GameResult::Undecided => if depth <= 1 {
                DRAW
            } else {
                (-peak(
                    evaluation_at(
                        referee,
                        after_move(grid, grid.point(index), me),
                        opponent,
                        me,
                        (depth - 1) as nat,
                    ),
                )) as Score
            },
            _ => DEFEAT,
        }),
{
}

/// The scores of all cells, in row-major order, are the evaluation.
pub proof fn lemma_evaluation_at_by_cells<R: TicTacToeReferee>(
    referee: R,
    grid: Grid<BoardStateEntry>,
    me: PlayerID,
    opponent: PlayerID,
    depth: nat,
    scores: Seq<Score>,
)
    requires
        scores.len() == grid.cells.len(),
        forall|index: int|
            0 <= index < scores.len() ==> #[trigger] scores[index] == score_at(
                referee,
                grid,
                me,
                opponent,
                depth,
                index,
            ),
    ensures
        scores == evaluation_at(referee, grid, me, opponent, depth),
{
    assert(scores =~= evaluation_at(referee, grid, me, opponent, depth));
}

/// The two caches agree on every game state, other than `grid`, that has
/// at least as many free cells as `grid`.
pub open spec fn caches_agree_beside(
    before: CacheEntries,
    after: CacheEntries,
    grid: Grid<BoardStateEntry>,
) -> bool {
    forall|other: Grid<BoardStateEntry>|
        other != grid && count_free(other.cells) >= count_free(grid.cells) ==> (
        #[trigger] after.contains_key(other)) == before.contains_key(other) && after[other]
            == before[other]
}

/// The two caches agree on every game state that has at least as many free
/// cells as `grid`.
pub open spec fn caches_agree_from(
    before: CacheEntries,
    after: CacheEntries,
    grid: Grid<BoardStateEntry>,
) -> bool {
    forall|other: Grid<BoardStateEntry>|
        count_free(other.cells) >= count_free(grid.cells) ==> (#[trigger] after.contains_key(
            other,
        )) == before.contains_key(other) && after[other] == before[other]
}

/// A player that searches `max_depth` plies deep and moves to one of the
/// cells with the best score.
pub struct MinMaxPlayer<S: GameStateStorage<GameState, Evaluation>, R: TicTacToeReferee> {
    max_depth: u32,
    other_id: PlayerID,
    game_state_storage: S,
    referee: R,
    self_id: PlayerID,
}

impl<S: GameStateStorage<GameState, Evaluation>, R: TicTacToeReferee> MinMaxPlayer<S, R> {
    /// The search horizon.
    pub closed spec fn horizon(&self) -> u32 {
        self.max_depth
    }

    /// The opponent's id.
    pub closed spec fn opponent(&self) -> PlayerID {
        self.other_id
    }

    /// The player's own id.
    pub closed spec fn me(&self) -> PlayerID {
        self.self_id
    }

    /// The referee that the search consults.
    pub closed spec fn judge(&self) -> R {
        self.referee
    }

    /// What the cache holds.
    pub closed spec fn cache(&self) -> CacheEntries {
        self.game_state_storage.entries()
    }

    /// The horizon is at least one ply and the cache is tidy.
    pub open spec fn is_ready(&self) -> bool {
        self.horizon() >= 1 && cache_is_tidy(self.cache())
    }

    /// The same player but for what its cache holds.
    pub open spec fn same_setup(&self, other: &Self) -> bool {
        &&& self.horizon() == other.horizon()
        &&& self.opponent() == other.opponent()
        &&& self.me() == other.me()
        &&& self.judge() == other.judge()
    }

    /// A player with the id `self_id` that searches `max_depth` plies deep
    /// against `other_id`, with the given cache and referee.
    pub fn new(
        max_depth: u32,
        other_id: PlayerID,
        game_state_storage: S,
        referee: R,
        self_id: PlayerID,
    ) -> (player: Self)
        requires
            max_depth >= 1,
            cache_is_tidy(game_state_storage.entries()),
        ensures
            player.is_ready(),
            player.horizon() == max_depth,
            player.opponent() == other_id,
            player.me() == self_id,
            player.judge() == referee,
            player.cache() == game_state_storage.entries(),
    {
        Self { max_depth, other_id, game_state_storage, referee, self_id }
    }

    /// The cache.
    pub fn storage(&self) -> (storage: &S)
        ensures
            storage.entries() == self.cache(),
    {
        &self.game_state_storage
    }

    /// The evaluation of `board` for `args.self_id`, `args.max_depth` plies
    /// deep: from the cache where it covers the question, computed and then
    /// cached otherwise.
    pub fn get_evaluations(&mut self, board: &GameState, args: &GetEvaluationsArgs) -> (evaluations:
        Evaluation)
        requires
            old(self).is_ready(),
            board.wf(),
            args.max_depth >= 1,
        ensures
            final(self).is_ready(),
            final(self).same_setup(old(self)),
            is_tidy(board@, evaluations@),
            covers(old(self).cache(), board@, args.max_depth) ==> evaluations@ == old(
                self,
            ).cache()[board@].1@ && final(self).cache() == old(self).cache(),
            covers(final(self).cache(), board@, args.max_depth),
            final(self).cache()[board@].1@ == evaluations@,
            caches_agree_beside(old(self).cache(), final(self).cache(), board@),
            cache_is_aligned(
                old(self).judge(),
                old(self).cache(),
                board@,
                args.self_id,
                args.other_id,
                args.max_depth as nat,
            ) ==> cache_is_aligned(
                old(self).judge(),
                final(self).cache(),
                board@,
                args.self_id,
                args.other_id,
                args.max_depth as nat,
            ) && evaluations@.cells == evaluation_at(
                old(self).judge(),
                board@,
                args.self_id,
                args.other_id,
                args.max_depth as nat,
            ),
            !covers(old(self).cache(), board@, args.max_depth) && (args.max_depth == 1
                || cache_is_sound(
                old(self).judge(),
                old(self).cache(),
                even_seat(board@, args.self_id, args.other_id),
                odd_seat(board@, args.self_id, args.other_id),
            )) ==> evaluation_is_sound_at(
                old(self).judge(),
                board@,
                args.self_id,
                args.other_id,
                args.max_depth as nat,
                evaluations@.cells,
            ),
            cache_is_sound(
                old(self).judge(),
                old(self).cache(),
                even_seat(board@, args.self_id, args.other_id),
                odd_seat(board@, args.self_id, args.other_id),
            ) ==> cache_is_sound(
                old(self).judge(),
                final(self).cache(),
                even_seat(board@, args.self_id, args.other_id),
                odd_seat(board@, args.self_id, args.other_id),
            ) && evaluation_is_sound(
                old(self).judge(),
                board@,
                args.self_id,
                args.other_id,
                args.max_depth as nat,
                evaluations@.cells,
            ),
        decreases args.max_depth, 1nat,
    {
        let ghost even = even_seat(board@, args.self_id, args.other_id);
        let ghost odd = odd_seat(board@, args.self_id, args.other_id);
        let ghost trusted = cache_is_sound(
            self.referee,
            self.game_state_storage.entries(),
            even,
            odd,
        );
        let ghost aligned = cache_is_aligned(
            self.referee,
            self.game_state_storage.entries(),
            board@,
            args.self_id,
            args.other_id,
            args.max_depth as nat,
        );
        if let Some(evaluations) = self.game_state_storage.get_payload(board, args.max_depth) {
            let found = evaluations.clone();
            proof {
                let entries = self.game_state_storage.entries();
                assert(entries.contains_key(board@));
                if aligned {
                    assert(entries[board@].0 == args.max_depth);
                }
                if trusted {
                    lemma_sound_at_smaller_depth(
                        self.referee,
                        board@,
                        args.self_id,
                        args.other_id,
                        entries[board@].0 as nat,
                        args.max_depth as nat,
                        found@.cells,
                    );
                }
            }
            return found;
        }
        let evaluations = if args.max_depth == 1 {
            self.get_evaluations_1(board, args)
        } else {
            self.get_evaluations_n(board, args)
        };
        let ghost middle = self.game_state_storage.entries();
        assert(!covers(middle, board@, args.max_depth)) by {
            assert(middle.contains_key(board@) == old(self).cache().contains_key(board@));
        }
        let payload = evaluations.clone();
        self.game_state_storage.register_game_state(board, payload, args.max_depth);
        proof {
            let entries = self.game_state_storage.entries();
            assert(entries == middle.insert(board@, (args.max_depth, payload)));
            assert(cache_is_tidy(entries));
            if aligned {
                assert forall|grid: Grid<BoardStateEntry>| #[trigger]
                    entries.contains_key(grid) implies entries[grid].1@.cells == evaluation_at(
                    self.referee,
                    grid,
                    to_move(grid, even, odd),
                    to_move(grid, odd, even),
                    entries[grid].0 as nat,
                ) && entries[grid].0 + slack(board@, args.max_depth as nat) <= count_free(
                    grid.cells,
                ) by {
                    if grid != board@ {
                        assert(middle.contains_key(grid));
                    }
                }
            }
            if trusted {
                lemma_sound_at_is_sound(
                    self.referee,
                    board@,
                    args.self_id,
                    args.other_id,
                    args.max_depth as nat,
                    args.max_depth as nat,
                    payload@.cells,
                );
                assert forall|grid: Grid<BoardStateEntry>| #[trigger]
                    entries.contains_key(grid) implies evaluation_is_sound(
                    self.referee,
                    grid,
                    to_move(grid, even, odd),
                    to_move(grid, odd, even),
                    entries[grid].0 as nat,
                    entries[grid].1@.cells,
                ) by {
                    if grid != board@ {
                        assert(middle.contains_key(grid));
                    }
                }
            }
            assert forall|other: Grid<BoardStateEntry>|
                other != board@ && count_free(other.cells) >= count_free(
                    board@.cells,
                ) implies (#[trigger] entries.contains_key(other)) == old(
                self,
            ).cache().contains_key(other) && entries[other] == old(self).cache()[other] by {
                assert(middle.contains_key(other) == old(self).cache().contains_key(other));
            }
        }
        evaluations
    }

    /// The weights that an evaluation asks for.
    pub fn to_placement(evaluations: &Evaluation) -> (placements: Placement)
        requires
            evaluations.wf(),
        ensures
            placements.wf(),
            placements@ == placement_of(evaluations@),
    {
        let max = get_maximum(evaluations);
        let nrows = evaluations.get_number_of_rows();
        let ncolumns = evaluations.get_number_of_columns();
        if max == DEFEAT {
            let placements = Placement::filled(nrows, ncolumns, 1);
            assert(placements@.cells =~= placement_of(evaluations@).cells);
            return placements;
        }
        let mut placements = Placement::filled(nrows, ncolumns, 0);
        let cells = evaluations.iter_2d();
        let mut i: usize = 0;
        while i < cells.len()
            invariant
                evaluations.wf(),
                placements.wf(),
                placements@.same_shape(evaluations@),
                i <= cells.len(),
                cells.len() == evaluations@.cells.len(),
                max == peak(evaluations@.cells),
                max != DEFEAT,
                forall|k: int|
                    0 <= k < cells.len() ==> (#[trigger] cells[k]).0 == evaluations@.point(k)
                        && *cells[k].1 == evaluations@.cells[k],
                forall|k: int|
                    0 <= k < i ==> #[trigger] placements@.cells[k] == placement_of(
                        evaluations@,
                    ).cells[k],
                forall|k: int| i <= k < cells.len() ==> #[trigger] placements@.cells[k] == 0,
            decreases cells.len() - i,
        {
            let pp = cells[i].0;
            proof {
                lemma_point_in_bounds(evaluations@, i as int);
            }
            if *cells[i].1 == max {
                placements.set(pp, 1);
            }
            i += 1;
        }
        assert(placements@.cells =~= placement_of(evaluations@).cells);
        placements
    }

    fn get_evaluations_1(&mut self, board: &GameState, args: &GetEvaluationsArgs) -> (evaluation:
        Evaluation)
        requires
            old(self).is_ready(),
            board.wf(),
            args.max_depth == 1,
        ensures
            final(self).is_ready(),
            final(self).same_setup(old(self)),
            final(self).cache() == old(self).cache(),
            is_tidy(board@, evaluation@),
            evaluation@.cells == evaluation_at(
                old(self).judge(),
                board@,
                args.self_id,
                args.other_id,
                1,
            ),
            evaluation_is_sound_at(
                old(self).judge(),
                board@,
                args.self_id,
                args.other_id,
                1,
                evaluation@.cells,
            ),
    {
        let mut evaluation = Evaluation::filled(
            board.get_number_of_rows(),
            board.get_number_of_columns(),
            DEFEAT,
        );
        let mut temporary_board = board.clone();
        let cells = board.iter_2d();
        let mut i: usize = 0;
        while i < cells.len()
            invariant
                board.wf(),
                temporary_board.wf(),
                temporary_board@ == board@,
                self.referee == old(self).referee,
                args.max_depth == 1,
                i <= cells.len(),
                cells.len() == board@.cells.len(),
                is_tidy(board@, evaluation@),
                forall|k: int|
                    0 <= k < cells.len() ==> (#[trigger] cells[k]).0 == board@.point(k)
                        && *cells[k].1 == board@.cells[k],
                forall|k: int|
                    0 <= k < i ==> #[trigger] score_is_sound_at(
                        self.referee,
                        board@,
                        args.self_id,
                        args.other_id,
                        1,
                        k,
                        evaluation@.cells[k],
                    ),
                forall|k: int|
                    0 <= k < i ==> #[trigger] evaluation@.cells[k] == score_at(
                        self.referee,
                        board@,
                        args.self_id,
                        args.other_id,
                        1,
                        k,
                    ),
            decreases cells.len() - i,
        {
            let pp = cells[i].0;
            let old_board_val = *cells[i].1;
            proof {
                lemma_point_in_bounds(board@, i as int);
            }
            let move_result = self.referee.receive_move(&mut temporary_board, pp, args.self_id);
            let score = match move_result {
                GameResult::Defeat | GameResult::IllegalMove => DEFEAT,
                GameResult::Victory => VICTORY,
                GameResult::Draw | GameResult::Undecided => DRAW,
            };
            let ghost scores_before = evaluation@.cells;
            evaluation.set(pp, score);
            temporary_board.set(pp, old_board_val);
            proof {
                assert(temporary_board@.cells =~= board@.cells);
                lemma_score_at_by_verdict(
                    self.referee,
                    board@,
                    args.self_id,
                    args.other_id,
                    1,
                    i as int,
                );
                assert forall|k: int| 0 <= k < i + 1 implies #[trigger] evaluation@.cells[k]
                    == score_at(self.referee, board@, args.self_id, args.other_id, 1, k) by {
                    if k < i {
                        assert(evaluation@.cells[k] == scores_before[k]);
                    }
                }
                lemma_verdict_gives_score(
                    self.referee,
                    board@,
                    args.self_id,
                    args.other_id,
                    1,
                    i as int,
                );
                assert forall|k: int| 0 <= k < i + 1 implies #[trigger] score_is_sound_at(
                    self.referee,
                    board@,
                    args.self_id,
                    args.other_id,
                    1,
                    k,
                    evaluation@.cells[k],
                ) by {
                    if k < i {
                        assert(evaluation@.cells[k] == scores_before[k]);
                        assert(score_is_sound_at(
                            self.referee,
                            board@,
                            args.self_id,
                            args.other_id,
                            1,
                            k,
                            scores_before[k],
                        ));
                    }
                }
            }
            i += 1;
        }
        proof {
            lemma_evaluation_at_by_cells(
                self.referee,
                board@,
                args.self_id,
                args.other_id,
                1,
                evaluation@.cells,
            );
            lemma_sound_by_cells(
                self.referee,
                board@,
                args.self_id,
                args.other_id,
                1,
                1,
                evaluation@.cells,
            );
        }
        evaluation
    }

    fn get_evaluations_n(&mut self, board: &GameState, args: &GetEvaluationsArgs) -> (evaluation:
        Evaluation)
        requires
            old(self).is_ready(),
            board.wf(),
            args.max_depth >= 2,
        ensures
            final(self).is_ready(),
            final(self).same_setup(old(self)),
            is_tidy(board@, evaluation@),
            caches_agree_from(old(self).cache(), final(self).cache(), board@),
            cache_is_aligned(
                old(self).judge(),
                old(self).cache(),
                board@,
                args.self_id,
                args.other_id,
                args.max_depth as nat,
            ) ==> cache_is_aligned(
                old(self).judge(),
                final(self).cache(),
                board@,
                args.self_id,
                args.other_id,
                args.max_depth as nat,
            ) && evaluation@.cells == evaluation_at(
                old(self).judge(),
                board@,
                args.self_id,
                args.other_id,
                args.max_depth as nat,
            ),
            cache_is_sound(
                old(self).judge(),
                old(self).cache(),
                even_seat(board@, args.self_id, args.other_id),
                odd_seat(board@, args.self_id, args.other_id),
            ) ==> cache_is_sound(
                old(self).judge(),
                final(self).cache(),
                even_seat(board@, args.self_id, args.other_id),
                odd_seat(board@, args.self_id, args.other_id),
            ) && evaluation_is_sound_at(
                old(self).judge(),
                board@,
                args.self_id,
                args.other_id,
                args.max_depth as nat,
                evaluation@.cells,
            ),
        decreases args.max_depth, 0nat,
    {
        let ghost even = even_seat(board@, args.self_id, args.other_id);
        let ghost odd = odd_seat(board@, args.self_id, args.other_id);
        let ghost start = self.game_state_storage.entries();
        let ghost trusted = cache_is_sound(self.referee, start, even, odd);
        let ghost depth = args.max_depth as nat;
        let ghost aligned = cache_is_aligned(
            self.referee,
            start,
            board@,
            args.self_id,
            args.other_id,
            depth,
        );
        let mut evaluation = Evaluation::filled(
            board.get_number_of_rows(),
            board.get_number_of_columns(),
            DEFEAT,
        );
        let mut temporary_board = board.clone();
        let pass_down_args = GetEvaluationsArgs {
            other_id: args.self_id,
            self_id: args.other_id,
            max_depth: args.max_depth - 1,
        };
        let cells = board.iter_2d();
        let mut i: usize = 0;
        while i < cells.len()
            invariant
                board.wf(),
                temporary_board.wf(),
                temporary_board@ == board@,
                self.is_ready(),
                self.same_setup(old(self)),
                args.max_depth >= 2,
                depth == args.max_depth,
                pass_down_args.other_id == args.self_id,
                pass_down_args.self_id == args.other_id,
                pass_down_args.max_depth == args.max_depth - 1,
                even == even_seat(board@, args.self_id, args.other_id),
                odd == odd_seat(board@, args.self_id, args.other_id),
                i <= cells.len(),
                cells.len() == board@.cells.len(),
                is_tidy(board@, evaluation@),
                caches_agree_from(start, self.game_state_storage.entries(), board@),
                forall|k: int|
                    0 <= k < cells.len() ==> (#[trigger] cells[k]).0 == board@.point(k)
                        && *cells[k].1 == board@.cells[k],
                trusted ==> cache_is_sound(
                    self.referee,
                    self.game_state_storage.entries(),
                    even,
                    odd,
                ),
                aligned ==> cache_is_aligned(
                    self.referee,
                    self.game_state_storage.entries(),
                    board@,
                    args.self_id,
                    args.other_id,
                    depth,
                ),
                aligned ==> forall|k: int|
                    0 <= k < i ==> #[trigger] evaluation@.cells[k] == score_at(
                        self.referee,
                        board@,
                        args.self_id,
                        args.other_id,
                        depth,
                        k,
                    ),
                trusted ==> forall|k: int|
                    0 <= k < i ==> #[trigger] score_is_sound_at(
                        self.referee,
                        board@,
                        args.self_id,
                        args.other_id,
                        depth,
                        k,
                        evaluation@.cells[k],
                    ),
            decreases cells.len() - i,
        {
            let pp = cells[i].0;
            let old_board_val = *cells[i].1;
            proof {
                lemma_point_in_bounds(board@, i as int);
            }
            let ghost entries_before = self.game_state_storage.entries();
            let move_result = self.referee.receive_move(&mut temporary_board, pp, args.self_id);
            let score = match move_result {
                GameResult::Defeat | GameResult::IllegalMove => DEFEAT,
                GameResult::Victory => VICTORY,
                GameResult::Draw => DRAW,
                GameResult::Undecided => {
                    proof {
                        lemma_move_uses_a_free_cell(board@, pp, args.self_id);
                    }
                    let pp_evaluations = self.get_evaluations(&temporary_board, &pass_down_args);
                    let best = get_maximum(&pp_evaluations);
                    proof {
                        lemma_peak_is_a_score(pp_evaluations@.cells);
                        if trusted {
                            lemma_reply_gives_score(
                                self.referee,
                                board@,
                                args.self_id,
                                args.other_id,
                                depth,
                                i as int,
                                pp_evaluations@.cells,
                            );
                        }
                    }
                    -best
                },
            };
            let ghost scores_before = evaluation@.cells;
            evaluation.set(pp, score);
            temporary_board.set(pp, old_board_val);
            proof {
                assert(temporary_board@.cells =~= board@.cells);
                lemma_score_at_by_verdict(
                    self.referee,
                    board@,
                    args.self_id,
                    args.other_id,
                    depth,
                    i as int,
                );
                if aligned {
                    assert forall|k: int| 0 <= k < i + 1 implies #[trigger] evaluation@.cells[k]
                        == score_at(
                        self.referee,
                        board@,
                        args.self_id,
                        args.other_id,
                        depth,
                        k,
                    ) by {
                        if k < i {
                            assert(evaluation@.cells[k] == scores_before[k]);
                        }
                    }
                }
                lemma_verdict_gives_score(
                    self.referee,
                    board@,
                    args.self_id,
                    args.other_id,
                    depth,
                    i as int,
                );
                if trusted {
                    assert forall|k: int| 0 <= k < i + 1 implies #[trigger] score_is_sound_at(
                        self.referee,
                        board@,
                        args.self_id,
                        args.other_id,
                        depth,
                        k,
                        evaluation@.cells[k],
                    ) by {
                        if k < i {
                            assert(evaluation@.cells[k] == scores_before[k]);
                            assert(score_is_sound_at(
                                self.referee,
                                board@,
                                args.self_id,
                                args.other_id,
                                depth,
                                k,
                                scores_before[k],
                            ));
                        }
                    }
                }
            }
            i += 1;
        }
        proof {
            if aligned {
                lemma_evaluation_at_by_cells(
                    self.referee,
                    board@,
                    args.self_id,
                    args.other_id,
                    depth,
                    evaluation@.cells,
                );
            }
            if trusted {
                lemma_sound_by_cells(
                    self.referee,
                    board@,
                    args.self_id,
                    args.other_id,
                    depth,
                    depth,
                    evaluation@.cells,
                );
            }
        }
        evaluation
    }
}

impl<S: GameStateStorage<GameState, Evaluation>, R: TicTacToeReferee> MinMaxPlayer<S, R> {
    /// Whether the player's cache is aligned with a search of `board` to
    /// the player's horizon.
    pub open spec fn is_aligned(&self, board: Grid<BoardStateEntry>) -> bool {
        cache_is_aligned(
            self.judge(),
            self.cache(),
            board,
            self.me(),
            self.opponent(),
            self.horizon() as nat,
        )
    }

    /// Whether the player's cache is sound for a search of `board`.
    pub open spec fn is_sound(&self, board: Grid<BoardStateEntry>) -> bool {
        cache_is_sound(
            self.judge(),
            self.cache(),
            even_seat(board, self.me(), self.opponent()),
            odd_seat(board, self.me(), self.opponent()),
        )
    }

    /// Whether `evaluation` is one that the player, as it is, may find for
    /// `board`:
    /// - where its cache covers the board at its horizon, what the cache holds;
    /// - where its cache is aligned with the search, the evaluation that a
    ///   search of exactly the horizon computes;
    /// - where its cache is sound, a sound evaluation, and one that is sound
    ///   at the horizon where the cache does not cover the board;
    /// - in any case a grid of scores of the shape of the board.
    pub open spec fn may_evaluate(
        &self,
        board: Grid<BoardStateEntry>,
        evaluation: Grid<Score>,
    ) -> bool {
        &&& is_tidy(board, evaluation)
        &&& covers(self.cache(), board, self.horizon()) ==> evaluation == self.cache()[board].1@
        &&& self.is_aligned(board) ==> evaluation.cells == evaluation_at(
            self.judge(),
            board,
            self.me(),
            self.opponent(),
            self.horizon() as nat,
        )
        &&& self.is_sound(board) ==> evaluation_is_sound(
            self.judge(),
            board,
            self.me(),
            self.opponent(),
            self.horizon() as nat,
            evaluation.cells,
        )
        &&& !covers(self.cache(), board, self.horizon()) && (self.horizon() == 1 || self.is_sound(
            board,
        )) ==> evaluation_is_sound_at(
            self.judge(),
            board,
            self.me(),
            self.opponent(),
            self.horizon() as nat,
            evaluation.cells,
        )
    }
}

/// The cache changes no answer: two players of the same setup whose caches
/// are both aligned with the search of a board, as an empty cache is and
/// as a cache stays that the player's own searches fill, answer the board
/// with the same weights, cell for cell.
pub proof fn lemma_aligned_players_answer_alike<
    S: GameStateStorage<GameState, Evaluation>,
    R: TicTacToeReferee,
>(
    one: MinMaxPlayer<S, R>,
    other: MinMaxPlayer<S, R>,
    board: Grid<BoardStateEntry>,
    one_placement: Grid<Weight>,
    other_placement: Grid<Weight>,
)
    requires
        one.same_setup(&other),
        one.is_aligned(board),
        other.is_aligned(board),
        one.answers(board, one_placement),
        other.answers(board, other_placement),
    ensures
        one_placement == other_placement,
        one_placement == placement_of(
            Grid {
                rows: board.rows,
                columns: board.columns,
                cells: evaluation_at(
                    one.judge(),
                    board,
                    one.me(),
                    one.opponent(),
                    one.horizon() as nat,
                ),
            },
        ),
{
    let first = choose|evaluation: Grid<Score>|
        one.may_evaluate(board, evaluation) && #[trigger] placement_of(evaluation)
            == one_placement;
    let second = choose|evaluation: Grid<Score>|
        other.may_evaluate(board, evaluation) && #[trigger] placement_of(evaluation)
            == other_placement;
    assert(first == second);
}

impl<S: GameStateStorage<GameState, Evaluation>, R: TicTacToeReferee> Player for MinMaxPlayer<
    S,
    R,
> {
    open spec fn wf(&self) -> bool {
        self.is_ready()
    }

    open spec fn id(&self) -> PlayerID {
        self.me()
    }

    open spec fn answers(&self, board: Grid<BoardStateEntry>, placement: Grid<Weight>) -> bool {
        exists|evaluation: Grid<Score>|
            self.may_evaluate(board, evaluation) && #[trigger] placement_of(evaluation)
                == placement
    }

    /// The weights that the evaluation of `board` at the player's horizon
    /// asks for. The evaluation is cached.
    fn do_move(&mut self, board: &GameState) -> (placement: Placement)
        ensures
            final(self).same_setup(old(self)),
            covers(final(self).cache(), board@, old(self).horizon()),
            placement@ == placement_of(final(self).cache()[board@].1@),
            old(self).may_evaluate(board@, final(self).cache()[board@].1@),
            old(self).is_aligned(board@) ==> final(self).is_aligned(board@),
            old(self).is_sound(board@) ==> final(self).is_sound(board@),
            caches_agree_beside(old(self).cache(), final(self).cache(), board@),
    {
        let args = GetEvaluationsArgs {
            self_id: self.self_id,
            other_id: self.other_id,
            max_depth: self.max_depth,
        };
        let evaluations = self.get_evaluations(board, &args);
        let placement = Self::to_placement(&evaluations);
        assert(placement@ == placement_of(evaluations@));
        assert(old(self).may_evaluate(board@, evaluations@));
        placement
    }

    fn get_id(&self) -> (id: PlayerID) {
        self.self_id
    }
}

} // verus!
