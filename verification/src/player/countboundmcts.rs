//! A player that samples a bounded number of random continuations and
//! weighs each first move by how often it led to a win.

use crate::arena::{play_turn, turn_follows};
use crate::board::{lemma_index_in_range, Board, Grid};
use crate::interfaces::{
    seat_id, BoardStateEntry, GameResult, GameState, Placement, Player, PlayerID, PointPlacement,
    TicTacToeReferee, Weight,
};
use crate::player::minmax::verdict_at;
use crate::referee::rules::{
    adjudicate, after_move, count_free, is_legal, lemma_move_keeps_other_cells,
    lemma_move_takes_cell, lemma_move_uses_a_free_cell, owned,
};
use vstd::prelude::*;

verus! {

/// A number of sampled games.
pub type NSamplesT = u16;

/// The largest weight that the player gives: the weight of a move that
/// succeeded in every sample.
pub const FULL_WEIGHT: Weight = 65536;

/// A player that samples `nsamples` games between two other players
/// before each move.
pub struct CountBoundMCTSPlayer<First: Player, Second: Player, R: TicTacToeReferee> {
    id: PlayerID,
    nsamples: NSamplesT,
    player0: First,
    player1: Second,
    referee: R,
}

/// The share `count / total` as a weight: scaled to `FULL_WEIGHT` and
/// rounded down; `0` where nothing was tried.
pub open spec fn ratio_weight(count: NSamplesT, total: NSamplesT) -> Weight {
    if total == 0 {
        0
    } else {
        ((count as int * FULL_WEIGHT as int) / (total as int)) as Weight
    }
}

/// Computes `ratio_weight`.
pub fn ratio_weight_of(count: NSamplesT, total: NSamplesT) -> (weight: Weight)
    ensures
        weight == ratio_weight(count, total),
        count > 0 && total > 0 ==> weight > 0,
        count <= total ==> weight <= FULL_WEIGHT,
{
    if total == 0 {
        0
    } else {
        let scaled: u32 = count as u32 * FULL_WEIGHT;
        proof {
            let s = scaled as int;
            let t = total as int;
            vstd::arithmetic::div_mod::lemma_div_pos_is_pos(s, t);
            if count > 0 {
                assert(s >= t);
                vstd::arithmetic::div_mod::lemma_div_is_ordered(t, s, t);
                vstd::arithmetic::div_mod::lemma_div_by_self(t);
            }
            if count <= total {
                assert(s <= t * 65536) by (nonlinear_arith)
                    requires
                        s == count * 65536,
                        count <= t,
                ;
                vstd::arithmetic::div_mod::lemma_div_is_ordered(s, t * 65536, t);
                vstd::arithmetic::div_mod::lemma_div_multiples_vanish(65536, t);
                assert(t * 65536 == 65536 * t) by (nonlinear_arith);
            }
            vstd::arithmetic::div_mod::lemma_div_is_ordered_by_denominator(s, 1, t);
        }
        scaled / total as u32
    }
}

/// A share of nothing is no weight, and a share that is at most the whole
/// is at most `FULL_WEIGHT`.
pub proof fn lemma_ratio_weight_bounds(count: NSamplesT, total: NSamplesT)
    ensures
        total == 0 ==> ratio_weight(count, total) == 0,
        count <= total ==> ratio_weight(count, total) <= FULL_WEIGHT,
{
    if total > 0 && count <= total {
        let s = count as int * 65536;
        let t = total as int;
        assert(s <= t * 65536) by (nonlinear_arith)
            requires
                s == count * 65536,
                count <= t,
        ;
        vstd::arithmetic::div_mod::lemma_div_is_ordered(s, t * 65536, t);
        vstd::arithmetic::div_mod::lemma_div_multiples_vanish(65536, t);
        assert(t * 65536 == 65536 * t) by (nonlinear_arith);
        vstd::arithmetic::div_mod::lemma_div_pos_is_pos(s, t);
    }
}

/// Plays a game to its end from `board`, the player at position `first`
/// moving first and the two taking turns, and reports how it ended, who
/// made the last move and which move was the first.
pub fn do_one_step_sample<First: Player, Second: Player, R: TicTacToeReferee>(
    board: &mut GameState,
    player0: &mut First,
    player1: &mut Second,
    first: usize,
    referee: &R,
) -> (outcome: (GameResult, PlayerID, Option<PointPlacement>))
    requires
        old(board).wf(),
        old(player0).wf(),
        old(player1).wf(),
        first < 2,
    ensures
        final(board).wf(),
        final(player0).wf(),
        final(player1).wf(),
        final(player0).id() == old(player0).id(),
        final(player1).id() == old(player1).id(),
        outcome.0 != GameResult::Undecided,
        outcome.1 == old(player0).id() || outcome.1 == old(player1).id(),
        exists|placement: Grid<Weight>|
            (if first == 0 {
                old(player0).answers(old(board)@, placement)
            } else {
                old(player1).answers(old(board)@, placement)
            }) && #[trigger] turn_follows(old(board)@, placement, outcome.2),
        outcome.0 != GameResult::IllegalMove,
        outcome.2 matches Some(pp) ==> {
            let mover = seat_id((old(player0).id(), old(player1).id()), first as int);
            let verdict = adjudicate(
                old(board)@,
                pp,
                mover,
                referee.sees_win(after_move(old(board)@, pp, mover), pp, mover),
            );
            &&& is_legal(old(board)@, pp)
            &&& owned(final(board)@, mover, pp.row as int, pp.column as int)
            &&& verdict != GameResult::Undecided ==> outcome.0 == verdict && outcome.1 == mover
                && final(board)@ == after_move(old(board)@, pp, mover)
        },
        outcome.2.is_none() ==> outcome.0 == GameResult::Defeat && final(board)@ == old(board)@
            && outcome.1 == seat_id((old(player0).id(), old(player1).id()), first as int),
{
    let ghost mover = seat_id((player0.id(), player1.id()), first as int);
    let (result, first_player_id, first_point_placement) = if first == 0 {
        play_turn(board, player0, referee)
    } else {
        play_turn(board, player1, referee)
    };
    proof {
        if first_point_placement is Some {
            lemma_move_takes_cell(old(board)@, first_point_placement.unwrap(), mover);
        }
    }
    if result != GameResult::Undecided {
        return (result, first_player_id, first_point_placement);
    }
    let mut active: usize = 1 - first;
    loop
        invariant
            board.wf(),
            player0.wf(),
            player1.wf(),
            player0.id() == old(player0).id(),
            player1.id() == old(player1).id(),
            active < 2,
            mover == seat_id((old(player0).id(), old(player1).id()), first as int),
            first_point_placement matches Some(pp) && is_legal(old(board)@, pp) && owned(
                board@,
                mover,
                pp.row as int,
                pp.column as int,
            ) && adjudicate(
                old(board)@,
                pp,
                mover,
                referee.sees_win(after_move(old(board)@, pp, mover), pp, mover),
            ) == GameResult::Undecided,
            exists|placement: Grid<Weight>|
                (if first == 0 {
                    old(player0).answers(old(board)@, placement)
                } else {
                    old(player1).answers(old(board)@, placement)
                }) && #[trigger] turn_follows(old(board)@, placement, first_point_placement),
        decreases count_free(board@.cells),
    {
        let ghost before = board@;
        let (result, player_id, point_placement) = if active == 0 {
            play_turn(board, player0, referee)
        } else {
            play_turn(board, player1, referee)
        };
        proof {
            if point_placement is Some {
                let first_pp = first_point_placement.unwrap();
                lemma_move_keeps_other_cells(
                    before,
                    point_placement.unwrap(),
                    player_id,
                    first_pp.row as int,
                    first_pp.column as int,
                );
            }
        }
        match result {
            GameResult::Undecided => {},
            _ => {
                return (result, player_id, first_point_placement);
            },
        }
        proof {
            lemma_move_uses_a_free_cell(before, point_placement.unwrap(), player_id);
        }
        active = 1 - active;
    }
}

/// The sum of the counts.
pub open spec fn total(counts: Seq<NSamplesT>) -> nat
    decreases counts.len(),
{
    if counts.len() == 0 {
        0
    } else {
        total(counts.drop_last()) + counts.last() as nat
    }
}

/// Counting one more at one position adds one to the sum.
pub proof fn lemma_total_after_counting(counts: Seq<NSamplesT>, index: int)
    requires
        0 <= index < counts.len(),
        counts[index] < NSamplesT::MAX,
    ensures
        total(counts.update(index, (counts[index] + 1) as NSamplesT)) == total(counts) + 1,
    decreases counts.len(),
{
    let counted = counts.update(index, (counts[index] + 1) as NSamplesT);
    if index == counts.len() - 1 {
        assert(counted.drop_last() =~= counts.drop_last());
    } else {
        assert(counted.drop_last() =~= counts.drop_last().update(
            index,
            (counts[index] + 1) as NSamplesT,
        ));
        lemma_total_after_counting(counts.drop_last(), index);
    }
}

/// Where nothing is counted the sum is zero.
pub proof fn lemma_total_of_zeros(counts: Seq<NSamplesT>)
    requires
        forall|index: int| 0 <= index < counts.len() ==> #[trigger] counts[index] == 0,
    ensures
        total(counts) == 0,
    decreases counts.len(),
{
    if counts.len() > 0 {
        lemma_total_of_zeros(counts.drop_last());
    }
}

/// How the sampled games went, for each first move.
pub struct SampleCounts {
    /// How many sampled games began with the move.
    pub tries: Board<NSamplesT>,
    /// How many of them the sampling player won.
    pub wins: Board<NSamplesT>,
    /// How many of them ended in a draw.
    pub draws: Board<NSamplesT>,
    /// Whether any sampled game was won, by either player.
    pub has_win_prob: bool,
}

impl SampleCounts {
    /// The three grids have one valid shape, and no move won or drew more
    /// games than began with it.
    pub open spec fn wf(&self) -> bool {
        &&& self.tries.wf()
        &&& self.wins.wf()
        &&& self.draws.wf()
        &&& self.wins@.same_shape(self.tries@)
        &&& self.draws@.same_shape(self.tries@)
        &&& forall|index: int|
            0 <= index < self.tries@.cells.len() ==> (#[trigger] self.wins@.cells[index])
                <= self.tries@.cells[index] && self.draws@.cells[index] <= self.tries@.cells[index]
    }

    /// No move began more than `limit` games.
    pub open spec fn within(&self, limit: int) -> bool {
        forall|index: int|
            0 <= index < self.tries@.cells.len() ==> (#[trigger] self.tries@.cells[index]) <= limit
    }

    /// Only moves to free cells of `board` began a game.
    pub open spec fn tried_free_cells(&self, board: Grid<BoardStateEntry>) -> bool {
        forall|index: int|
            0 <= index < self.tries@.cells.len() ==> (#[trigger] self.tries@.cells[index]) > 0
                ==> board.cells[index].0.is_none()
    }

    /// The counts before any game was sampled on a board of the shape of `board`.
    pub fn new(board: &GameState) -> (counts: Self)
        requires
            board.wf(),
        ensures
            counts.wf(),
            counts.tries@ == Grid::<NSamplesT>::filled(board@.rows, board@.columns, 0),
            counts.wins@ == counts.tries@,
            counts.draws@ == counts.tries@,
            !counts.has_win_prob,
            total(counts.tries@.cells) == 0,
    {
        proof {
            lemma_total_of_zeros(
                Grid::<NSamplesT>::filled(board@.rows, board@.columns, 0).cells,
            );
        }
        let tries = Board::<NSamplesT>::filled(
            board.get_number_of_rows(),
            board.get_number_of_columns(),
            0,
        );
        let wins = tries.clone();
        let draws = tries.clone();
        SampleCounts { tries, wins, draws, has_win_prob: false }
    }

    /// Counts one sampled game that began with the move `pp` and ended in
    /// `result`; `won_by_me` says whether the sampling player made the last move.
    pub fn record(&mut self, pp: PointPlacement, result: GameResult, won_by_me: bool)
        requires
            old(self).wf(),
            old(self).tries@.contains(pp),
            old(self).tries@.get(pp) < NSamplesT::MAX,
        ensures
            final(self).wf(),
            final(self).tries@ == old(self).tries@.set(pp, (old(self).tries@.get(pp) + 1) as u16),
            final(self).wins@ == (if result == GameResult::Victory && won_by_me {
                old(self).wins@.set(pp, (old(self).wins@.get(pp) + 1) as u16)
            } else {
                old(self).wins@
            }),
            final(self).draws@ == (if result == GameResult::Draw {
                old(self).draws@.set(pp, (old(self).draws@.get(pp) + 1) as u16)
            } else {
                old(self).draws@
            }),
            final(self).has_win_prob == (old(self).has_win_prob || result == GameResult::Victory),
            total(final(self).tries@.cells) == total(old(self).tries@.cells) + 1,
    {
        proof {
            lemma_index_in_range(self.tries@, pp.row as int, pp.column as int);
            lemma_total_after_counting(
                self.tries@.cells,
                self.tries@.index_of(pp.row as int, pp.column as int),
            );
            let index = self.tries@.index_of(pp.row as int, pp.column as int);
            assert(self.wins@.cells[index] <= self.tries@.cells[index]);
            assert(self.draws@.cells[index] <= self.tries@.cells[index]);
        }
        let tried = self.tries.get(pp);
        self.tries.set(pp, tried + 1);
        match result {
            GameResult::Victory => {
                if won_by_me {
                    let won = self.wins.get(pp);
                    self.wins.set(pp, won + 1);
                }
                self.has_win_prob = true;
            },
            GameResult::Draw => {
                let drawn = self.draws.get(pp);
                self.draws.set(pp, drawn + 1);
            },
            _ => {},
        }
    }

    /// The weights that the counts ask for: for each move the share of its
    /// games that the sampling player won; where no sampled game was won by
    /// anyone, the share that ended in a draw.
    pub open spec fn chances(&self) -> Grid<Weight> {
        Grid {
            rows: self.tries@.rows,
            columns: self.tries@.columns,
            cells: Seq::new(
                self.tries@.cells.len(),
                |index: int|
                    if self.has_win_prob {
                        ratio_weight(self.wins@.cells[index], self.tries@.cells[index])
                    } else {
                        ratio_weight(self.draws@.cells[index], self.tries@.cells[index])
                    },
            ),
        }
    }

    /// Turns the counts into weights.
    pub fn into_placement(self) -> (placements: Placement)
        requires
            self.wf(),
        ensures
            placements.wf(),
            placements@ == self.chances(),
    {
        let ghost chances = self.chances();
        let nrows = self.tries.get_number_of_rows();
        let ncolumns = self.tries.get_number_of_columns();
        let working_arr = if self.has_win_prob {
            self.wins
        } else {
            self.draws
        };
        let mut placements = Placement::filled(nrows, ncolumns, 0);
        let counts = working_arr.joint_into_iter_2d(self.tries);
        let mut i: usize = 0;
        while i < counts.len()
            invariant
                placements.wf(),
                placements@.rows == chances.rows,
                placements@.columns == chances.columns,
                i <= counts.len(),
                counts.len() == chances.cells.len(),
                counts.len() == placements@.cells.len(),
                forall|k: int|
                    0 <= k < counts.len() ==> {
                        &&& (#[trigger] counts[k]).0 == placements@.point(k)
                        &&& ratio_weight(counts[k].1, counts[k].2) == chances.cells[k]
                    },
                forall|k: int| 0 <= k < i ==> #[trigger] placements@.cells[k] == chances.cells[k],
            decreases counts.len() - i,
        {
            let (pp, count, total) = counts[i];
            proof {
                crate::board::lemma_point_in_bounds(placements@, i as int);
            }
            let chance = ratio_weight_of(count, total);
            placements.set(pp, chance);
            i += 1;
        }
        assert(placements@.cells =~= chances.cells);
        placements
    }
}

impl<First: Player, Second: Player, R: TicTacToeReferee> CountBoundMCTSPlayer<First, Second, R> {
    /// The number of continuations that one move samples.
    pub closed spec fn samples(&self) -> NSamplesT {
        self.nsamples
    }

    /// The player's own id.
    pub closed spec fn me(&self) -> PlayerID {
        self.id
    }

    /// Both players of the sampled games are well formed and exactly one
    /// of them plays under this player's id.
    pub closed spec fn is_ready(&self) -> bool {
        &&& self.player0.wf()
        &&& self.player1.wf()
        &&& (self.player0.id() == self.id) != (self.player1.id() == self.id)
    }

    /// The referee of the sampled games.
    pub closed spec fn judge(&self) -> R {
        self.referee
    }

    /// The ids of the two players of the sampled games, in their order.
    pub closed spec fn ids(&self) -> (PlayerID, PlayerID) {
        (self.player0.id(), self.player1.id())
    }

    /// The player that makes the first move of the sampled games may, in
    /// some state of it, answer `board` with weights that leave no cell
    /// eligible.
    pub open spec fn may_lack_first_move(&self, board: Grid<BoardStateEntry>) -> bool {
        if self.ids().0 == self.me() {
            exists|mover: First, offered: Grid<Weight>|
                mover.id() == self.me() && #[trigger] mover.answers(board, offered)
                    && turn_follows(board, offered, None)
        } else {
            exists|mover: Second, offered: Grid<Weight>|
                mover.id() == self.me() && #[trigger] mover.answers(board, offered)
                    && turn_follows(board, offered, None)
        }
    }

    /// A player that samples `nsamples` games between `player0` and
    /// `player1`, of which the one with the id `id` plays in its place.
    #[allow(dead_code)]
    pub fn new(
        id: PlayerID,
        nsamples: NSamplesT,
        player0: First,
        player1: Second,
        referee: R,
    ) -> (player: Self)
        requires
            player0.wf(),
            player1.wf(),
            (player0.id() == id) != (player1.id() == id),
        ensures
            player.is_ready(),
            player.me() == id,
            player.samples() == nsamples,
            player.ids() == (player0.id(), player1.id()),
            player.judge() == referee,
    {
        Self { id, nsamples, player0, player1, referee }
    }
}

/// The counts of the first move to the cell at `index` fit the verdict on
/// it: where it wins at once, it won every game that began with it and
/// drew none; where it draws at once, it drew every such game and won none.
pub open spec fn counts_follow_verdict_at(
    counts: SampleCounts,
    verdict: GameResult,
    index: int,
) -> bool {
    match verdict {
        GameResult::Victory => counts.wins@.cells[index] == counts.tries@.cells[index]
            && counts.draws@.cells[index] == 0,
        GameResult::Draw => counts.draws@.cells[index] == counts.tries@.cells[index]
            && counts.wins@.cells[index] == 0,
        _ => true,
    }
}

/// The counts fit the verdicts on the first moves. A first move that wins
/// at once won every game that began with it and drew none; one that draws
/// at once drew every such game and won none. And a game was won only
/// where some first move that was tried wins at once or leaves the game
/// undecided.
pub open spec fn counts_follow_verdicts<R: TicTacToeReferee>(
    counts: SampleCounts,
    referee: R,
    board: Grid<BoardStateEntry>,
    me: PlayerID,
) -> bool {
    &&& forall|index: int|
        0 <= index < counts.tries@.cells.len() ==> #[trigger] counts_follow_verdict_at(
            counts,
            verdict_at(referee, board, me, index),
            index,
        )
    &&& counts.has_win_prob ==> exists|index: int|
        0 <= index < counts.tries@.cells.len() && (#[trigger] counts.tries@.cells[index]) > 0
            && (verdict_at(referee, board, me, index) == GameResult::Victory || verdict_at(
            referee,
            board,
            me,
            index,
        ) == GameResult::Undecided)
}

/// Every cell with a weight is free, and no weight exceeds `FULL_WEIGHT`.
pub open spec fn weighs_free_cells(board: Grid<BoardStateEntry>, placement: Grid<Weight>) -> bool {
    forall|index: int|
        0 <= index < placement.cells.len() ==> (#[trigger] placement.cells[index]) <= FULL_WEIGHT
            && (placement.cells[index] != 0 ==> board.cells[index].0.is_none())
}

impl<First: Player, Second: Player, R: TicTacToeReferee> Player for CountBoundMCTSPlayer<
    First,
    Second,
    R,
> {
    open spec fn wf(&self) -> bool {
        self.is_ready()
    }

    open spec fn id(&self) -> PlayerID {
        self.me()
    }

    open spec fn answers(&self, board: Grid<BoardStateEntry>, placement: Grid<Weight>) -> bool {
        exists|counts: SampleCounts|
            {
                &&& #[trigger] counts.chances() == placement
                &&& counts.wf()
                &&& counts.tries@.same_shape(board)
                &&& counts.within(self.samples() as int)
                &&& counts.tried_free_cells(board)
                &&& counts_follow_verdicts(counts, self.judge(), board, self.me())
                &&& total(counts.tries@.cells) == self.samples() || (total(counts.tries@.cells)
                    == 0 && self.may_lack_first_move(board))
            }
    }

    /// Samples games that start on `board` with this player's move, counts
    /// for each first move how its games ended, and turns the counts into
    /// weights. Where a sampled game has no first move, no cell gets a weight.
    fn do_move(&mut self, board: &GameState) -> (placement: Placement)
        ensures
            final(self).samples() == old(self).samples(),
            final(self).ids() == old(self).ids(),
            final(self).judge() == old(self).judge(),
            weighs_free_cells(board@, placement@),
    {
        let mut counts = SampleCounts::new(board);
        let ghost fresh = counts;
        let first: usize = if self.player0.get_id() == self.id {
            0
        } else {
            1
        };
        let mut n: NSamplesT = 0;
        while n < self.nsamples
            invariant
                board.wf(),
                self.is_ready(),
                self.id == old(self).id,
                self.nsamples == old(self).nsamples,
                first < 2,
                n <= self.nsamples,
                counts.wf(),
                counts.tries@.same_shape(board@),
                counts.within(n as int),
                counts.tried_free_cells(board@),
                fresh.wf(),
                fresh.tries@ == Grid::<NSamplesT>::filled(board@.rows, board@.columns, 0),
                fresh.tried_free_cells(board@),
                fresh.within(0),
                total(fresh.tries@.cells) == 0,
                total(counts.tries@.cells) == n,
                self.ids() == old(self).ids(),
                self.referee == old(self).referee,
                first == 0 <==> old(self).ids().0 == old(self).me(),
                counts_follow_verdicts(counts, self.referee, board@, self.id),
                counts_follow_verdicts(fresh, self.referee, board@, self.id),
            decreases self.nsamples - n,
        {
            let mut sampled_board = board.clone();
            let ghost first_mover = self.player0;
            let ghost second_mover = self.player1;
            let (result, player_id, first_point_placement) = do_one_step_sample(
                &mut sampled_board,
                &mut self.player0,
                &mut self.player1,
                first,
                &self.referee,
            );
            match first_point_placement {
                Some(pp) => {
                    proof {
                        lemma_index_in_range(board@, pp.row as int, pp.column as int);
                        lemma_index_in_range(counts.tries@, pp.row as int, pp.column as int);
                    }
                    let ghost before = counts;
                    counts.record(pp, result, player_id == self.id);
                    proof {
                        let at = board@.index_of(pp.row as int, pp.column as int);
                        assert(board@.point(at) == pp);
                        assert(counts.tries@.cells[at] > 0);
                        assert(before.wins@.cells[at] <= before.tries@.cells[at]);
                        let first_id = seat_id(
                            (first_mover.id(), second_mover.id()),
                            first as int,
                        );
                        assert(first_id == self.id);
                        let first_verdict = verdict_at(self.referee, board@, self.id, at);
                        assert(first_verdict != GameResult::Undecided ==> result == first_verdict
                            && player_id == self.id);
                        assert(counts.draws@.cells[at] == (if result == GameResult::Draw {
                            before.draws@.cells[at] + 1
                        } else {
                            before.draws@.cells[at] as int
                        }));
                        assert(counts.tries@.cells[at] == before.tries@.cells[at] + 1);
                        assert forall|index: int|
                            0 <= index < counts.tries@.cells.len()
                        implies #[trigger] counts_follow_verdict_at(
                            counts,
                            verdict_at(self.referee, board@, self.id, index),
                            index,
                        ) by {
                            assert(counts_follow_verdict_at(
                                before,
                                verdict_at(self.referee, board@, self.id, index),
                                index,
                            ));
                        }
                        if counts.has_win_prob {
                            if before.has_win_prob {
                                let seen = choose|index: int|
                                    0 <= index < before.tries@.cells.len() && (
                                    #[trigger] before.tries@.cells[index]) > 0 && (verdict_at(
                                        self.referee,
                                        board@,
                                        self.id,
                                        index,
                                    ) == GameResult::Victory || verdict_at(
                                        self.referee,
                                        board@,
                                        self.id,
                                        index,
                                    ) == GameResult::Undecided);
                                assert(counts.tries@.cells[seen] >= before.tries@.cells[seen]);
                                assert(0 <= seen < counts.tries@.cells.len()
                                    && counts.tries@.cells[seen] > 0 && (verdict_at(
                                    self.referee,
                                    board@,
                                    self.id,
                                    seen,
                                ) == GameResult::Victory || verdict_at(
                                    self.referee,
                                    board@,
                                    self.id,
                                    seen,
                                ) == GameResult::Undecided));
                            } else {
                                let mover = seat_id(
                                    (first_mover.id(), second_mover.id()),
                                    first as int,
                                );
                                assert(mover == self.id);
                                let verdict = verdict_at(self.referee, board@, self.id, at);
                                assert(result == GameResult::Victory);
                                assert(verdict == GameResult::Victory || verdict
                                    == GameResult::Undecided);
                                assert(counts.tries@.cells[at] > 0);
                            }
                        }
                        assert(counts_follow_verdicts(counts, self.referee, board@, self.id));
                    }
                },
                None => {
                    let nothing = Placement::filled(
                        board.get_number_of_rows(),
                        board.get_number_of_columns(),
                        0,
                    );
                    proof {
                        assert(fresh.chances().cells =~= nothing@.cells);
                        assert(fresh.chances() == nothing@);
                        if first == 0 {
                            let offered = choose|placement: Grid<Weight>|
                                first_mover.answers(board@, placement) && #[trigger] turn_follows(
                                    board@,
                                    placement,
                                    first_point_placement,
                                );
                            assert(turn_follows(board@, offered, None));
                        } else {
                            let offered = choose|placement: Grid<Weight>|
                                second_mover.answers(board@, placement) && #[trigger] turn_follows(
                                    board@,
                                    placement,
                                    first_point_placement,
                                );
                            assert(turn_follows(board@, offered, None));
                        }
                        assert(old(self).may_lack_first_move(board@));
                    }
                    return nothing;
                },
            }
            n += 1;
        }
        let ghost chances = counts.chances();
        proof {
            assert forall|index: int| 0 <= index < chances.cells.len() implies (
            #[trigger] chances.cells[index]) <= FULL_WEIGHT && (chances.cells[index] != 0
                ==> board@.cells[index].0.is_none()) by {
                let total = counts.tries@.cells[index];
                assert(counts.wins@.cells[index] <= total);
                assert(counts.draws@.cells[index] <= total);
                lemma_ratio_weight_bounds(counts.wins@.cells[index], total);
                lemma_ratio_weight_bounds(counts.draws@.cells[index], total);
            }
        }
        let placement = counts.into_placement();
        assert(counts.chances() == placement@);
        placement
    }

    fn get_id(&self) -> (id: PlayerID) {
        self.id
    }
}

} // verus!
