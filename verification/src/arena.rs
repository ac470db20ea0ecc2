//! The turn protocol: ask the active player for weights, sample one
//! eligible cell by weight, let the referee judge the move, pass the turn.

pub mod exploring;

use crate::board::{lemma_cell_count_fits, lemma_point_in_bounds, Grid};
use crate::interfaces::TicTacToeArena as _;
use crate::interfaces::{
    seat_id, BoardStateEntry, GameResult, GameState, Placement, Player, PlayerID, PointPlacement,
    TicTacToeReferee, Weight,
};
use crate::referee::rules::{adjudicate, after_move, is_legal};
use rand::distr::weighted::{Error as WeightError, WeightedIndex};
use rand::distr::Distribution;
use rand::rngs::ThreadRng;
use vstd::prelude::*;

verus! {

/// The cell at row-major position `index` may be sampled: it is free and
/// its weight is not zero.
pub open spec fn is_eligible(
    board: Grid<BoardStateEntry>,
    placement: Grid<Weight>,
    index: int,
) -> bool {
    board.cells[index].0.is_none() && placement.cells[index] != 0
}

/// The coordinates of the eligible cells among the first `upto`, in
/// row-major order.
pub open spec fn eligible_points(
    board: Grid<BoardStateEntry>,
    placement: Grid<Weight>,
    upto: nat,
) -> Seq<PointPlacement>
    decreases upto,
{
    if upto == 0 {
        Seq::empty()
    } else if is_eligible(board, placement, upto - 1) {
        eligible_points(board, placement, (upto - 1) as nat).push(board.point(upto - 1))
    } else {
        eligible_points(board, placement, (upto - 1) as nat)
    }
}

/// The weights of the eligible cells among the first `upto`, in row-major order.
pub open spec fn eligible_weights(
    board: Grid<BoardStateEntry>,
    placement: Grid<Weight>,
    upto: nat,
) -> Seq<u64>
    decreases upto,
{
    if upto == 0 {
        Seq::empty()
    } else if is_eligible(board, placement, upto - 1) {
        eligible_weights(board, placement, (upto - 1) as nat).push(
            placement.cells[upto - 1] as u64,
        )
    } else {
        eligible_weights(board, placement, (upto - 1) as nat)
    }
}

/// The sum of the weights.
pub open spec fn total_weight(weights: Seq<u64>) -> nat
    decreases weights.len(),
{
    if weights.len() == 0 {
        0
    } else {
        total_weight(weights.drop_last()) + weights.last() as nat
    }
}

/// Whether the weights make a distribution: there is one at least, and
/// their sum is neither zero nor beyond `u64`.
pub open spec fn can_be_sampled(weights: Seq<u64>) -> bool {
    weights.len() > 0 && 0 < total_weight(weights) <= u64::MAX
}

/// A distribution over indices, each with a chance in proportion to its
/// weight: a `WeightedIndex` of `rand`.
#[verifier::external_body]
pub struct IndexSampler {
    dist: WeightedIndex<u64>,
}

/// Why weights make no distribution.
#[verifier::external_type_specification]
#[verifier::external_body]
pub struct ExWeightError(rand::distr::weighted::Error);

/// The handle to the random number generator of the running thread.
#[verifier::external_type_specification]
#[verifier::external_body]
pub struct ExThreadRng(rand::rngs::ThreadRng);

/// The weights of a distribution, as its method `weights` lists them.
pub uninterp spec fn sampler_weights(sampler: IndexSampler) -> Seq<u64>;

/// Makes the distribution over the indices of `weights`.
///
/// This is `WeightedIndex::new` of `rand`. It refuses an empty list, a sum
/// of zero and a sum beyond `u64`, and nothing else where the weights are
/// unsigned; the distribution that it makes has the weights it was given.
#[verifier::external_body]
fn new_weighted_index(weights: &Vec<u64>) -> (made: Result<IndexSampler, WeightError>)
    ensures
        made is Ok == can_be_sampled(weights@),
        made matches Ok(sampler) ==> sampler_weights(sampler) == weights@,
{
    match WeightedIndex::new(weights) {
        Ok(dist) => Ok(IndexSampler { dist }),
        Err(error) => Err(error),
    }
}

/// The random number generator of the running thread.
///
/// This is `rand::rng`. Nothing is claimed of it.
#[verifier::external_body]
fn thread_rng() -> (rng: ThreadRng) {
    rand::rng()
}

/// Draws an index at random.
///
/// This is `sample` of `rand`'s `WeightedIndex`. All that is claimed of
/// the outcome is what holds of every draw: the index is one of the
/// distribution's and its weight is not zero.
#[verifier::external_body]
fn sample_index(sampler: &IndexSampler, rng: &mut ThreadRng) -> (index: usize)
    ensures
        index < sampler_weights(*sampler).len(),
        sampler_weights(*sampler)[index as int] > 0,
{
    sampler.dist.sample(rng)
}

/// Every eligible cell with its weight, in row-major order.
pub fn eligible_candidates(board: &GameState, placement: &Placement) -> (candidates: (
    Vec<PointPlacement>,
    Vec<u64>,
))
    requires
        board.wf(),
        placement.wf(),
        board@.same_shape(placement@),
    ensures
        candidates.0@ == eligible_points(board@, placement@, board@.cells.len()),
        candidates.1@ == eligible_weights(board@, placement@, board@.cells.len()),
        candidates.0.len() == candidates.1.len(),
        candidates.0.len() == 0 <==> forall|index: int|
            0 <= index < board@.cells.len() ==> !is_eligible(board@, placement@, index),
        forall|j: int|
            0 <= j < candidates.0.len() ==> {
                &&& board@.contains(#[trigger] candidates.0[j])
                &&& is_legal(board@, candidates.0[j])
                &&& placement@.get(candidates.0[j]) == candidates.1[j]
                &&& candidates.1[j] > 0
            },
        total_weight(candidates.1@) <= candidates.1.len() * u32::MAX,
        candidates.1.len() > 0 ==> total_weight(candidates.1@) > 0,
        candidates.1.len() <= board@.cells.len(),
{
    let mut pps: Vec<PointPlacement> = Vec::new();
    let mut weights: Vec<u64> = Vec::new();
    let cells = placement.iter_2d();
    let mut i: usize = 0;
    assert(placement@.cells.len() == board@.cells.len());
    while i < cells.len()
        invariant
            board.wf(),
            placement.wf(),
            board@.same_shape(placement@),
            placement@.cells.len() == board@.cells.len(),
            cells.len() == placement@.cells.len(),
            i <= cells.len(),
            forall|k: int|
                0 <= k < cells.len() ==> (#[trigger] cells[k]).0 == placement@.point(k)
                    && *cells[k].1 == placement@.cells[k],
            pps@ == eligible_points(board@, placement@, i as nat),
            weights@ == eligible_weights(board@, placement@, i as nat),
            pps.len() == weights.len(),
            pps.len() <= i,
            pps.len() == 0 <==> forall|index: int|
                0 <= index < i ==> !is_eligible(board@, placement@, index),
            forall|j: int|
                0 <= j < pps.len() ==> {
                    &&& board@.contains(#[trigger] pps[j])
                    &&& is_legal(board@, pps[j])
                    &&& placement@.get(pps[j]) == weights[j]
                    &&& weights[j] > 0
                },
            total_weight(weights@) <= weights.len() * u32::MAX,
            weights.len() > 0 ==> total_weight(weights@) > 0,
        decreases cells.len() - i,
    {
        let pp = cells[i].0;
        let weight = *cells[i].1;
        proof {
            lemma_point_in_bounds(board@, i as int);
            lemma_point_in_bounds(placement@, i as int);
        }
        if !board.get(pp).is_taken() && weight != 0 {
            let ghost weights_before = weights@;
            pps.push(pp);
            weights.push(weight as u64);
            proof {
                assert(weights@.drop_last() =~= weights_before);
                assert((weights_before.len() + 1) * u32::MAX == weights_before.len() * u32::MAX
                    + u32::MAX) by (nonlinear_arith);
                assert(is_eligible(board@, placement@, i as int));
            }
        }
        i += 1;
    }
    (pps, weights)
}

/// The cell `chosen` is what a turn may sample from the weights
/// `placement` on `board`: none exactly where no cell is eligible, and
/// otherwise a free cell whose weight is not zero.
pub open spec fn turn_follows(
    board: Grid<BoardStateEntry>,
    placement: Grid<Weight>,
    chosen: Option<PointPlacement>,
) -> bool {
    &&& placement.wf()
    &&& placement.same_shape(board)
    &&& chosen.is_none() <==> forall|index: int|
        0 <= index < board.cells.len() ==> !is_eligible(board, placement, index)
    &&& chosen matches Some(pp) ==> is_legal(board, pp) && placement.get(pp) != 0
}

/// Samples one eligible cell with a chance in proportion to its weight;
/// `None` where no cell is eligible.
pub fn sample_point_placement(board: &GameState, placement: &Placement) -> (sampled: Option<
    PointPlacement,
>)
    requires
        board.wf(),
        placement.wf(),
        board@.same_shape(placement@),
    ensures
        sampled.is_none() <==> forall|index: int|
            0 <= index < board@.cells.len() ==> !is_eligible(board@, placement@, index),
        sampled matches Some(pp) ==> is_legal(board@, pp) && placement@.get(pp) != 0,
        turn_follows(board@, placement@, sampled),
{
    // Get point placement candidates with weights
    let (pps, weights) = eligible_candidates(board, placement);
    if weights.len() == 0 {
        return None;
    }
    proof {
        lemma_cell_count_fits(board@.rows, board@.columns);
        assert(weights.len() * u32::MAX <= 0xfffe_0001 * 0xffff_ffff) by (nonlinear_arith)
            requires
                weights.len() <= 0xfffe_0001,
        ;
    }
    // Sample candidate from eligible options
    let mut rng = thread_rng();
    match new_weighted_index(&weights) {
        Ok(sampler) => {
            let sampled_idx = sample_index(&sampler, &mut rng);
            Some(pps[sampled_idx])
        },
        Err(_) => None,
    }
}

/// Turns the weights that `mover` offered into one move and lets the
/// referee judge it. Where no cell is eligible the mover is defeated and
/// the board stays as it is.
pub fn place_sampled_move<R: TicTacToeReferee>(
    board: &mut GameState,
    placement: &Placement,
    mover: PlayerID,
    referee: &R,
) -> (outcome: (GameResult, PlayerID, Option<PointPlacement>))
    requires
        old(board).wf(),
        placement.wf(),
        old(board)@.same_shape(placement@),
    ensures
        final(board).wf(),
        outcome.1 == mover,
        turn_follows(old(board)@, placement@, outcome.2),
        outcome.2.is_none() <==> forall|index: int|
            0 <= index < old(board)@.cells.len() ==> !is_eligible(old(board)@, placement@, index),
        outcome.2.is_none() ==> outcome.0 == GameResult::Defeat && final(board)@ == old(board)@,
        outcome.2 matches Some(pp) ==> {
            &&& is_legal(old(board)@, pp)
            &&& placement@.get(pp) != 0
            &&& final(board)@ == after_move(old(board)@, pp, mover)
            &&& outcome.0 == adjudicate(
                old(board)@,
                pp,
                mover,
                referee.sees_win(after_move(old(board)@, pp, mover), pp, mover),
            )
        },
{
    let maybe_pp = sample_point_placement(board, placement);
    match maybe_pp {
        Some(pp) => {
            let result = referee.receive_move(board, pp, mover);
            (result, mover, Some(pp))
        },
        None => (GameResult::Defeat, mover, None),
    }
}

/// One turn of `player` on `board`: the player is asked for its weights
/// on the board, a cell is sampled among those that are free and have a
/// weight, and the referee judges the move there. Where no cell is
/// eligible the player is defeated and the board stays as it is.
pub fn play_turn<P: Player, R: TicTacToeReferee>(
    board: &mut GameState,
    player: &mut P,
    referee: &R,
) -> (outcome: (GameResult, PlayerID, Option<PointPlacement>))
    requires
        old(board).wf(),
        old(player).wf(),
    ensures
        final(board).wf(),
        final(player).wf(),
        final(player).id() == old(player).id(),
        outcome.1 == old(player).id(),
        exists|placement: Grid<Weight>|
            old(player).answers(old(board)@, placement) && #[trigger] turn_follows(
                old(board)@,
                placement,
                outcome.2,
            ),
        outcome.2.is_none() ==> outcome.0 == GameResult::Defeat && final(board)@ == old(board)@,
        outcome.2 matches Some(pp) ==> {
            &&& is_legal(old(board)@, pp)
            &&& final(board)@ == after_move(old(board)@, pp, old(player).id())
            &&& outcome.0 == adjudicate(
                old(board)@,
                pp,
                old(player).id(),
                referee.sees_win(
                    after_move(old(board)@, pp, old(player).id()),
                    pp,
                    old(player).id(),
                ),
            )
        },
{
    let placements = player.do_move(board);
    let id = player.get_id();
    let outcome = place_sampled_move(board, &placements, id, referee);
    assert(turn_follows(old(board)@, placements@, outcome.2));
    outcome
}

/// Two players who take turns on one board, the first of them starting.
pub struct TicTacToeArena<First: Player, Second: Player, R: TicTacToeReferee> {
    active_player: usize,
    board: GameState,
    player0: First,
    player1: Second,
    referee: R,
}

impl<First: Player, Second: Player, R: TicTacToeReferee> TicTacToeArena<First, Second, R> {
    /// The referee.
    pub closed spec fn judge(&self) -> R {
        self.referee
    }

    /// The two players, in their order.
    pub closed spec fn players(&self) -> (First, Second) {
        (self.player0, self.player1)
    }

    /// An arena on `board` in which `player0` moves first.
    pub fn new(board: GameState, player0: First, player1: Second, referee: R) -> (arena: Self)
        requires
            board.wf(),
            player0.wf(),
            player1.wf(),
        ensures
            arena.wf(),
            arena.active() == 0,
            arena.state() == board@,
            arena.judge() == referee,
            arena.players() == (player0, player1),
            arena.ids() == (player0.id(), player1.id()),
            arena.active_id() == player0.id(),
    {
        TicTacToeArena { active_player: 0, board, player0, player1, referee }
    }
}

impl<
    First: Player,
    Second: Player,
    R: TicTacToeReferee,
> crate::interfaces::TicTacToeArena for TicTacToeArena<First, Second, R> {
    closed spec fn wf(&self) -> bool {
        &&& self.active_player < 2
        &&& self.board.wf()
        &&& self.player0.wf()
        &&& self.player1.wf()
    }

    closed spec fn state(&self) -> Grid<BoardStateEntry> {
        self.board@
    }

    closed spec fn active(&self) -> int {
        self.active_player as int
    }

    closed spec fn ids(&self) -> (PlayerID, PlayerID) {
        (self.player0.id(), self.player1.id())
    }

    open spec fn active_id(&self) -> PlayerID {
        seat_id(self.ids(), self.active())
    }

    open spec fn active_answers(
        &self,
        board: Grid<BoardStateEntry>,
        placement: Grid<Weight>,
    ) -> bool {
        if self.active() == 0 {
            self.players().0.answers(board, placement)
        } else {
            self.players().1.answers(board, placement)
        }
    }

    open spec fn sees_win(
        &self,
        after: Grid<BoardStateEntry>,
        at: PointPlacement,
        mover: PlayerID,
    ) -> bool {
        self.judge().sees_win(after, at, mover)
    }

    fn do_next_move(&mut self) -> (outcome: (GameResult, PlayerID, Option<PointPlacement>))
        ensures
            final(self).judge() == old(self).judge(),
    {
        let outcome = if self.active_player == 0 {
            play_turn(&mut self.board, &mut self.player0, &self.referee)
        } else {
            play_turn(&mut self.board, &mut self.player1, &self.referee)
        };
        self.active_player = 1 - self.active_player;
        outcome
    }

    fn get_board(&self) -> (board: GameState) {
        self.board.clone()
    }
}

} // verus!
