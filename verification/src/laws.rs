use crate::identity::Identity;
use crate::session::StudySession;
use crate::trivia::claim_allowed;
use crate::trivia::claim_next;
use crate::trivia::claim_payout;
use crate::trivia::hash_contribution;
use crate::trivia::initialize_view;
use crate::trivia::lemma_submit_score_next_wf;
use crate::trivia::submit_hash_next;
use crate::trivia::submit_score_next;
use crate::trivia::GameView;
use vstd::prelude::*;

verus! {

// ------------------------------------------------------------------
// Session laws
// ------------------------------------------------------------------

/// Success never outlives the payout flag: every session transition takes a
/// well-formed record (`completed` implies `tokens_returned`) to a
/// well-formed record, so along any run of transitions the implication
/// holds in every state.
pub proof fn lemma_session_transitions_preserve_wf(
    s: StudySession,
    caller: Identity,
    now: i64,
    actual_keystrokes: u32,
)
    requires
        s.wf(),
    ensures
        s.complete_next(caller, now, actual_keystrokes).wf(),
        s.fail_next(caller).wf(),
{
}

/// Terminal records are absorbing: once `tokens_returned` is set, Complete
/// and Fail both refuse, whoever calls and whatever they report, and the
/// record stays exactly as it is.
pub proof fn lemma_terminal_is_absorbing(
    s: StudySession,
    caller: Identity,
    now: i64,
    actual_keystrokes: u32,
)
    requires
        s.tokens_returned,
    ensures
        s.complete_next(caller, now, actual_keystrokes) == s,
        s.complete_outcome(caller, now, actual_keystrokes) is Err,
        s.fail_next(caller) == s,
        s.fail_outcome(caller) is Err,
{
}

// ------------------------------------------------------------------
// Trivia laws
// ------------------------------------------------------------------

/// One invocation of the trivia engine, with the caller-side inputs that
/// decide whether it is accepted.
pub enum GameOp {
    SubmitHashAttempt { player: Identity, player_balance: u64, successful: bool },
    SubmitScore { player: Identity, now: i64, score: u64, successful_hashes: u64 },
    ClaimPrize { player: Identity },
}

/// The state one invocation leads to.
pub open spec fn game_step(v: GameView, op: GameOp) -> GameView {
    match op {
        GameOp::SubmitHashAttempt { player_balance, successful, .. } => submit_hash_next(
            v,
            player_balance,
            successful,
        ),
        GameOp::SubmitScore { player, now, score, successful_hashes } => submit_score_next(
            v,
            player,
            now,
            score,
            successful_hashes,
        ),
        GameOp::ClaimPrize { player } => claim_next(v, player),
    }
}

/// What one invocation adds to the pool: the fee of an accepted
/// contribution, nothing otherwise.
pub open spec fn step_contribution(v: GameView, op: GameOp) -> nat {
    match op {
        GameOp::SubmitHashAttempt { player_balance, successful, .. } => hash_contribution(
            player_balance,
            successful,
        ),
        _ => 0,
    }
}

/// What one invocation pays out of the pool: the whole pool on an accepted
/// claim, nothing otherwise.
pub open spec fn step_payout(v: GameView, op: GameOp) -> nat {
    match op {
        GameOp::ClaimPrize { player } => claim_payout(v, player),
        _ => 0,
    }
}

/// The state a whole run of invocations leads to.
pub open spec fn run(v: GameView, ops: Seq<GameOp>) -> GameView
    decreases ops.len(),
{
    if ops.len() == 0 {
        v
    } else {
        run(game_step(v, ops[0]), ops.drop_first())
    }
}

/// The contributions a run accepts, summed.
pub open spec fn total_contributions(v: GameView, ops: Seq<GameOp>) -> nat
    decreases ops.len(),
{
    if ops.len() == 0 {
        0
    } else {
        step_contribution(v, ops[0]) + total_contributions(game_step(v, ops[0]), ops.drop_first())
    }
}

/// The prizes a run pays, summed.
pub open spec fn total_payouts(v: GameView, ops: Seq<GameOp>) -> nat
    decreases ops.len(),
{
    if ops.len() == 0 {
        0
    } else {
        step_payout(v, ops[0]) + total_payouts(game_step(v, ops[0]), ops.drop_first())
    }
}

/// Every invocation preserves the trivia record's invariant: the cached
/// count stays exact, the board stays within its bound, sorted by
/// descending score, one entry per player.
pub proof fn lemma_step_preserves_wf(v: GameView, op: GameOp)
    requires
        v.wf(),
    ensures
        game_step(v, op).wf(),
{
    match op {
        GameOp::SubmitScore { player, now, score, successful_hashes } => {
            lemma_submit_score_next_wf(v, player, now, score, successful_hashes);
        },
        _ => {},
    }
}

/// The invariant holds in every state a run from a well-formed state
/// passes through.
pub proof fn lemma_run_preserves_wf(v: GameView, ops: Seq<GameOp>)
    requires
        v.wf(),
    ensures
        run(v, ops).wf(),
    decreases ops.len(),
{
    if ops.len() > 0 {
        lemma_step_preserves_wf(v, ops[0]);
        lemma_run_preserves_wf(game_step(v, ops[0]), ops.drop_first());
    }
}

/// Ranking is strict wherever it can be: two players may tie, and a tie
/// orders by arrival, but on a board whose scores are pairwise distinct
/// the entries descend strictly.
pub proof fn lemma_distinct_scores_rank_strictly(v: GameView)
    requires
        v.wf(),
        forall|i: int, j: int|
            0 <= i < j < v.leaderboard.len() ==> (#[trigger] v.leaderboard[i].score) != (
            #[trigger] v.leaderboard[j].score),
    ensures
        forall|i: int, j: int|
            0 <= i < j < v.leaderboard.len() ==> (#[trigger] v.leaderboard[i].score) > (
            #[trigger] v.leaderboard[j].score),
{
}

/// Pool accounting: along any run, the pool moves exactly by the accepted
/// contributions and the paid prizes.
pub proof fn lemma_pool_accounting(v: GameView, ops: Seq<GameOp>)
    ensures
        run(v, ops).prize_pool + total_payouts(v, ops) == v.prize_pool + total_contributions(
            v,
            ops,
        ),
    decreases ops.len(),
{
    if ops.len() > 0 {
        lemma_pool_accounting(game_step(v, ops[0]), ops.drop_first());
    }
}

/// From a fresh deployment the pool always equals the sum of accepted
/// contributions minus the sum of paid prizes; in particular the prizes
/// paid never exceed the contributions accepted, so the pool never goes
/// negative.
pub proof fn lemma_pool_is_net_contributions(owner: Identity, ops: Seq<GameOp>)
    ensures
        run(initialize_view(owner), ops).prize_pool as int == total_contributions(
            initialize_view(owner),
            ops,
        ) as int - total_payouts(initialize_view(owner), ops) as int,
        total_payouts(initialize_view(owner), ops) <= total_contributions(
            initialize_view(owner),
            ops,
        ),
{
    lemma_pool_accounting(initialize_view(owner), ops);
}

/// A successful claim empties the pool, so a second claim — by anyone —
/// cannot go through before fresh contributions lift the pool back over
/// the minimum.
pub proof fn lemma_claim_resets_pool(v: GameView, first: Identity, second: Identity)
    requires
        claim_allowed(v, first),
    ensures
        claim_next(v, first).prize_pool == 0,
        !claim_allowed(claim_next(v, first), second),
{
}

} // verus!
