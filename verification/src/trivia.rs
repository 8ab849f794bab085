use crate::identity::Identity;
use vstd::prelude::*;

verus! {

/// Fee, in micro-units, that every failed hash attempt pays into the pool.
pub const CONTRIBUTION_FEE: u64 = 1_000_000;

/// Smallest pool, in micro-units, that the top player may claim.
pub const MIN_PRIZE_CLAIM: u64 = 10_000_000;

/// Upper bound on the number of leaderboard entries.
pub const MAX_LEADERBOARD_SIZE: usize = 100;

/// Everything that can go wrong while driving the trivia engine.
#[derive(Clone, Copy, Debug, PartialEq, Eq, Structural)]
pub enum TriviaGameError {
    /// The caller lacks the balance for the prize-pool contribution.
    InsufficientFunds,
    /// The leaderboard is empty at claim time.
    NoPlayers,
    /// The caller is not the current top entry.
    NotTopPlayer,
    /// The pool is below the minimum claimable amount.
    PrizePoolTooSmall,
}

/// One leaderboard entry.
#[derive(Clone, Copy, Debug, PartialEq, Eq, Structural)]
pub struct PlayerScore {
    pub player: Identity,
    pub score: u64,
    pub successful_hashes: u64,
    pub timestamp: i64,
}

/// Published when a hash attempt is recorded, successful or not.
#[derive(Clone, Copy, Debug, PartialEq)]
pub struct HashAttemptEvent {
    pub player: Identity,
    pub hash: [u8; 32],
    pub successful: bool,
}

/// Published when a score submission is recorded.
#[derive(Clone, Copy, Debug, PartialEq, Eq, Structural)]
pub struct ScoreSubmittedEvent {
    pub player: Identity,
    pub score: u64,
    pub successful_hashes: u64,
}

/// Published when the top player claims the pool.
#[derive(Clone, Copy, Debug, PartialEq, Eq, Structural)]
pub struct PrizeClaimedEvent {
    pub winner: Identity,
    pub amount: u64,
}

/// Scores never increase along the board: earlier entries rank at least
/// as high as later ones.
pub open spec fn sorted_descending(s: Seq<PlayerScore>) -> bool {
    forall|i: int, j: int|
        0 <= i < j < s.len() ==> #[trigger] s[i].score >= #[trigger] s[j].score
}

/// No player owns two entries.
pub open spec fn players_unique(s: Seq<PlayerScore>) -> bool {
    forall|i: int, j: int|
        0 <= i < j < s.len() ==> (#[trigger] s[i].player) != (#[trigger] s[j].player)
}

/// Some entry belongs to `p`.
pub open spec fn has_player(s: Seq<PlayerScore>, p: Identity) -> bool {
    exists|i: int| 0 <= i < s.len() && (#[trigger] s[i].player) == p
}

/// The index of the entry that belongs to `p`; meaningful only where
/// `has_player(s, p)` holds and players are unique.
pub open spec fn player_index(s: Seq<PlayerScore>, p: Identity) -> int {
    choose|i: int| 0 <= i < s.len() && (#[trigger] s[i].player) == p
}

/// How many leading entries score at least `score`: the slot where a new
/// entry lands, below every entry it cannot beat.
pub open spec fn insert_position(s: Seq<PlayerScore>, score: u64) -> int
    decreases s.len(),
{
    if s.len() == 0 {
        0
    } else if s[0].score >= score {
        1 + insert_position(s.drop_first(), score)
    } else {
        0
    }
}

/// Place `e` into its rank slot, after every entry scoring at least as much.
pub open spec fn insert_entry(s: Seq<PlayerScore>, e: PlayerScore) -> Seq<PlayerScore> {
    s.insert(insert_position(s, e.score), e)
}

/// The mathematical content of the trivia record: the pool as an unbounded
/// accumulator and the board as a sequence.
#[verifier::ext_equal]
pub ghost struct GameView {
    pub owner: Identity,
    pub prize_pool: nat,
    pub hash_difficulty: u8,
    pub leaderboard_count: nat,
    pub leaderboard: Seq<PlayerScore>,
}

impl GameView {
    /// The record's invariant: the cached count equals the board's length,
    /// the board respects its bound, ranks descend, and players are unique.
    pub open spec fn wf(self) -> bool {
        &&& self.leaderboard_count == self.leaderboard.len()
        &&& self.leaderboard.len() <= MAX_LEADERBOARD_SIZE
        &&& sorted_descending(self.leaderboard)
        &&& players_unique(self.leaderboard)
    }
}

/// The state a fresh deployment starts in.
pub open spec fn initialize_view(owner: Identity) -> GameView {
    GameView {
        owner,
        prize_pool: 0,
        hash_difficulty: 4,
        leaderboard_count: 0,
        leaderboard: Seq::empty(),
    }
}

/// What a hash attempt adds to the pool: the fee on an affordable failed
/// attempt, nothing otherwise.
pub open spec fn hash_contribution(player_balance: u64, successful: bool) -> nat {
    if !successful && player_balance >= CONTRIBUTION_FEE {
        CONTRIBUTION_FEE as nat
    } else {
        0
    }
}

/// State after a hash attempt: only the pool can move.
pub open spec fn submit_hash_next(v: GameView, player_balance: u64, successful: bool) -> GameView {
    GameView { prize_pool: v.prize_pool + hash_contribution(player_balance, successful), ..v }
}

/// State after a score submission.
pub open spec fn submit_score_next(
    v: GameView,
    player: Identity,
    now: i64,
    score: u64,
    successful_hashes: u64,
) -> GameView {
    let e = PlayerScore { player, score, successful_hashes, timestamp: now };
    let lb = v.leaderboard;
    if has_player(lb, player) {
        if score > lb[player_index(lb, player)].score {
            GameView { leaderboard: insert_entry(lb.remove(player_index(lb, player)), e), ..v }
        } else {
            v
        }
    } else if lb.len() < MAX_LEADERBOARD_SIZE {
        GameView {
            leaderboard: insert_entry(lb, e),
            leaderboard_count: (v.leaderboard_count + 1) as nat,
            ..v
        }
    } else if score > lb.last().score {
        GameView { leaderboard: insert_entry(lb.drop_last(), e), ..v }
    } else {
        v
    }
}

/// A claim goes through exactly when the board is non-empty, the caller is
/// its top entry, and the pool has reached the minimum.
pub open spec fn claim_allowed(v: GameView, player: Identity) -> bool {
    &&& v.leaderboard.len() >= 1
    &&& v.leaderboard[0].player == player
    &&& v.prize_pool >= MIN_PRIZE_CLAIM
}

/// What a claim pays out: the whole pool on success, nothing otherwise.
pub open spec fn claim_payout(v: GameView, player: Identity) -> nat {
    if claim_allowed(v, player) {
        v.prize_pool
    } else {
        0
    }
}

/// State after a claim: the pool empties on success, nothing else moves.
pub open spec fn claim_next(v: GameView, player: Identity) -> GameView {
    if claim_allowed(v, player) {
        GameView { prize_pool: 0, ..v }
    } else {
        v
    }
}

/// The singleton trivia record.
#[derive(Debug)]
pub struct GameState {
    pub owner: Identity,
    pub prize_pool: u64,
    pub hash_difficulty: u8,
    pub leaderboard_count: u8,
    pub leaderboard: Vec<PlayerScore>,
}

impl View for GameState {
    type V = GameView;

    open spec fn view(&self) -> GameView {
        GameView {
            owner: self.owner,
            prize_pool: self.prize_pool as nat,
            hash_difficulty: self.hash_difficulty,
            leaderboard_count: self.leaderboard_count as nat,
            leaderboard: self.leaderboard@,
        }
    }
}

impl GameState {
    /// The record's invariant, read through its mathematical view.
    pub open spec fn wf(self) -> bool {
        self@.wf()
    }

    /// Record a hash attempt by `player`. A failed attempt pays the fixed
    /// fee from the player's balance into the pool slot and grows the pool
    /// accumulator by the same amount, atomically; a successful attempt
    /// touches nothing. The two balances together never change (the debit
    /// and the credit cancel), and the event reports the attempt exactly
    /// as it was made.
    pub fn submit_hash_attempt(
        &mut self,
        player: Identity,
        hash: [u8; 32],
        successful: bool,
        player_balance: &mut u64,
        pool_balance: &mut u64,
    ) -> (r: Result<HashAttemptEvent, TriviaGameError>)
        requires
            old(self).wf(),
            !successful && *old(player_balance) >= CONTRIBUTION_FEE ==> old(self).prize_pool
                + CONTRIBUTION_FEE <= u64::MAX,
            !successful && *old(player_balance) >= CONTRIBUTION_FEE ==> *old(pool_balance)
                + CONTRIBUTION_FEE <= u64::MAX,
        ensures
            final(self).wf(),
            final(self)@ == submit_hash_next(old(self)@, *old(player_balance), successful),
            r is Err <==> !successful && *old(player_balance) < CONTRIBUTION_FEE,
            r == Err::<HashAttemptEvent, TriviaGameError>(TriviaGameError::InsufficientFunds)
                <==> !successful && *old(player_balance) < CONTRIBUTION_FEE,
            r is Err ==> *final(self) == *old(self)
                && *final(player_balance) == *old(player_balance)
                && *final(pool_balance) == *old(pool_balance),
            r is Ok ==> r == Ok::<HashAttemptEvent, TriviaGameError>(
                (HashAttemptEvent { player, hash, successful }),
            ),
            !successful && *old(player_balance) >= CONTRIBUTION_FEE
                ==> *final(player_balance) == *old(player_balance) - CONTRIBUTION_FEE
                && *final(pool_balance) == *old(pool_balance) + CONTRIBUTION_FEE
                && final(self).prize_pool == old(self).prize_pool + CONTRIBUTION_FEE,
            successful ==> *final(self) == *old(self)
                && *final(player_balance) == *old(player_balance)
                && *final(pool_balance) == *old(pool_balance),
            *old(player_balance) + *old(pool_balance)
                == *final(player_balance) + *final(pool_balance),
    {
        if !successful {
            if *player_balance < CONTRIBUTION_FEE {
                return Err(TriviaGameError::InsufficientFunds);
            }
            *player_balance = *player_balance - CONTRIBUTION_FEE;
            *pool_balance = *pool_balance + CONTRIBUTION_FEE;
            self.prize_pool = self.prize_pool + CONTRIBUTION_FEE;
            proof {
                assert(final(self)@ =~= submit_hash_next(
                    old(self)@,
                    *old(player_balance),
                    successful,
                ));
            }
            return Ok(HashAttemptEvent { player, hash, successful });
        }
        proof {
            assert(final(self)@ =~= submit_hash_next(old(self)@, *old(player_balance), successful));
        }
        Ok(HashAttemptEvent { player, hash, successful })
    }

    /// Pay the whole pool to the caller. Goes through exactly when the
    /// board is non-empty, the caller is its top entry, and the pool has
    /// reached `MIN_PRIZE_CLAIM`; then the accumulator resets to zero and
    /// the amount moves from the pool slot to the caller's balance. The
    /// board itself never changes, the two balances together never change,
    /// and every failure leaves everything exactly as it was.
    ///
    /// Where a claim can go through, the caller must bring the slot
    /// invariant the host co-maintains: the pool slot covers the
    /// accumulator, and the payout fits the winner's balance.
    pub fn claim_prize(
        &mut self,
        player: Identity,
        player_balance: &mut u64,
        pool_balance: &mut u64,
    ) -> (r: Result<PrizeClaimedEvent, TriviaGameError>)
        requires
            old(self).wf(),
            claim_allowed(old(self)@, player) ==> old(self).prize_pool <= *old(pool_balance),
            claim_allowed(old(self)@, player) ==> *old(player_balance) + old(self).prize_pool
                <= u64::MAX,
        ensures
            final(self).wf(),
            final(self)@ == claim_next(old(self)@, player),
            final(self).leaderboard@ == old(self).leaderboard@,
            old(self).leaderboard@.len() == 0 ==> r == Err::<PrizeClaimedEvent, TriviaGameError>(
                TriviaGameError::NoPlayers,
            ),
            old(self).leaderboard@.len() > 0 && old(self).leaderboard@[0].player != player ==> r
                == Err::<PrizeClaimedEvent, TriviaGameError>(TriviaGameError::NotTopPlayer),
            old(self).leaderboard@.len() > 0 && old(self).leaderboard@[0].player == player
                && old(self).prize_pool < MIN_PRIZE_CLAIM
                ==> r == Err::<PrizeClaimedEvent, TriviaGameError>(
                TriviaGameError::PrizePoolTooSmall,
            ),
            claim_allowed(old(self)@, player) ==> r == Ok::<PrizeClaimedEvent, TriviaGameError>(
                (PrizeClaimedEvent { winner: player, amount: old(self).prize_pool }),
            ) && final(self).prize_pool == 0
                && *final(player_balance) == *old(player_balance) + old(self).prize_pool
                && *final(pool_balance) == *old(pool_balance) - old(self).prize_pool,
            r is Err ==> *final(self) == *old(self)
                && *final(player_balance) == *old(player_balance)
                && *final(pool_balance) == *old(pool_balance),
            *old(player_balance) + *old(pool_balance)
                == *final(player_balance) + *final(pool_balance),
    {
        if self.leaderboard.len() == 0 {
            return Err(TriviaGameError::NoPlayers);
        }
        if !(self.leaderboard[0].player == player) {
            return Err(TriviaGameError::NotTopPlayer);
        }
        if self.prize_pool < MIN_PRIZE_CLAIM {
            return Err(TriviaGameError::PrizePoolTooSmall);
        }
        let amount = self.prize_pool;
        self.prize_pool = 0;
        *pool_balance = *pool_balance - amount;
        *player_balance = *player_balance + amount;
        proof {
            assert(final(self)@ =~= claim_next(old(self)@, player));
        }
        Ok(PrizeClaimedEvent { winner: player, amount })
    }

    /// Record a score submission by `player`, stamped with the host clock.
    ///
    /// An existing entry is replaced only by a strictly better score; a new
    /// player joins while the board has room, and once it is full only by
    /// strictly beating the worst entry, which is then evicted. Every change
    /// lands the new entry at its rank slot, so the board stays sorted, its
    /// players unique, and its cached count exact. A submission that does
    /// not strictly beat what it must beat leaves the board untouched.
    pub fn submit_score(
        &mut self,
        player: Identity,
        now: i64,
        score: u64,
        successful_hashes: u64,
    ) -> (ev: ScoreSubmittedEvent)
        requires
            old(self).wf(),
        ensures
            final(self).wf(),
            final(self)@ == submit_score_next(old(self)@, player, now, score, successful_hashes),
            ev == (ScoreSubmittedEvent { player, score, successful_hashes }),
            final(self).prize_pool == old(self).prize_pool,
            has_player(old(self).leaderboard@, player) && old(self).leaderboard@[player_index(
                old(self).leaderboard@,
                player,
            )].score >= score ==> final(self).leaderboard@ == old(self).leaderboard@,
            has_player(old(self).leaderboard@, player)
                ==> final(self).leaderboard@.len() == old(self).leaderboard@.len(),
            !has_player(old(self).leaderboard@, player) && old(self).leaderboard@.len()
                < MAX_LEADERBOARD_SIZE
                ==> final(self).leaderboard@.len() == old(self).leaderboard@.len() + 1,
            !has_player(old(self).leaderboard@, player) && old(self).leaderboard@.len()
                >= MAX_LEADERBOARD_SIZE
                ==> final(self).leaderboard@.len() == old(self).leaderboard@.len(),
    {
        let ghost lb = old(self).leaderboard@;
        let ghost next = submit_score_next(old(self)@, player, now, score, successful_hashes);
        let entry = PlayerScore { player, score, successful_hashes, timestamp: now };
        match find_player_index(&self.leaderboard, player) {
            Some(i) => {
                proof {
                    let j = player_index(lb, player);
                    assert(has_player(lb, player));
                    assert(0 <= j < lb.len() && lb[j].player == player);
                    assert(i as int == j);
                }
                if score > self.leaderboard[i].score {
                    let _evicted = self.leaderboard.remove(i);
                    proof {
                        lemma_remove_keeps(lb, i as int);
                    }
                    let pos = rank_index(&self.leaderboard, score);
                    self.leaderboard.insert(pos, entry);
                    proof {
                        lemma_insert_entry_sorted(lb.remove(i as int), entry);
                        lemma_insert_entry_unique(lb.remove(i as int), entry);
                        assert(self@ =~= next);
                    }
                } else {
                    proof {
                        assert(self@ =~= next);
                    }
                }
            },
            None => {
                if self.leaderboard.len() < MAX_LEADERBOARD_SIZE {
                    let pos = rank_index(&self.leaderboard, score);
                    self.leaderboard.insert(pos, entry);
                    self.leaderboard_count = self.leaderboard_count + 1;
                    proof {
                        lemma_insert_entry_sorted(lb, entry);
                        lemma_insert_entry_unique(lb, entry);
                        assert(self@ =~= next);
                    }
                } else {
                    let worst = self.leaderboard[self.leaderboard.len() - 1].score;
                    if score > worst {
                        let _evicted = self.leaderboard.pop();
                        proof {
                            assert(self.leaderboard@ =~= lb.drop_last());
                            lemma_drop_last_keeps(lb, player);
                        }
                        let pos = rank_index(&self.leaderboard, score);
                        self.leaderboard.insert(pos, entry);
                        proof {
                            lemma_insert_entry_sorted(lb.drop_last(), entry);
                            lemma_insert_entry_unique(lb.drop_last(), entry);
                            assert(self@ =~= next);
                        }
                    } else {
                        proof {
                            assert(self@ =~= next);
                        }
                    }
                }
            },
        }
        proof {
            lemma_submit_score_next_wf(old(self)@, player, now, score, successful_hashes);
        }
        ScoreSubmittedEvent { player, score, successful_hashes }
    }
}

/// `insert_position` points just past the leading run of entries scoring
/// at least `score`.
proof fn lemma_insert_position_props(s: Seq<PlayerScore>, score: u64)
    ensures
        0 <= insert_position(s, score) <= s.len(),
        forall|k: int| 0 <= k < insert_position(s, score) ==> (#[trigger] s[k].score) >= score,
        insert_position(s, score) < s.len() ==> s[insert_position(s, score)].score < score,
    decreases s.len(),
{
    if s.len() == 0 {
    } else if s[0].score >= score {
        lemma_insert_position_props(s.drop_first(), score);
        assert forall|k: int| 0 <= k < insert_position(s, score) implies (#[trigger] s[k].score)
            >= score by {
            if k > 0 {
                assert(s[k] == s.drop_first()[k - 1]);
            }
        }
    }
}

/// The index just past the leading run of entries scoring at least `score`
/// is exactly `insert_position`.
proof fn lemma_insert_position_is(s: Seq<PlayerScore>, score: u64, i: int)
    requires
        0 <= i <= s.len(),
        forall|k: int| 0 <= k < i ==> (#[trigger] s[k].score) >= score,
        i < s.len() ==> s[i].score < score,
    ensures
        insert_position(s, score) == i,
    decreases s.len(),
{
    if s.len() == 0 {
    } else if s[0].score >= score {
        assert(i >= 1);
        let t = s.drop_first();
        assert forall|k: int| 0 <= k < i - 1 implies (#[trigger] t[k].score) >= score by {
            assert(t[k] == s[k + 1]);
        }
        assert(i - 1 < t.len() ==> t[i - 1] == s[i]);
        lemma_insert_position_is(t, score, i - 1);
    } else {
        assert(i == 0);
    }
}

/// Placing an entry at its rank slot keeps the board sorted.
proof fn lemma_insert_entry_sorted(s: Seq<PlayerScore>, e: PlayerScore)
    requires
        sorted_descending(s),
    ensures
        sorted_descending(insert_entry(s, e)),
{
    lemma_insert_position_props(s, e.score);
    let p = insert_position(s, e.score);
    let t = s.insert(p, e);
    assert forall|i: int, j: int| 0 <= i < j < t.len() implies (#[trigger] t[i].score)
        >= (#[trigger] t[j].score) by {
        if i < p {
            assert(t[i] == s[i]);
        } else if i == p {
            assert(t[i] == e);
        } else {
            assert(t[i] == s[i - 1]);
        }
        if j < p {
            assert(t[j] == s[j]);
        } else if j == p {
            assert(t[j] == e);
        } else {
            assert(t[j] == s[j - 1]);
        }
    }
}

/// Placing an entry for a player absent from the board keeps players unique.
proof fn lemma_insert_entry_unique(s: Seq<PlayerScore>, e: PlayerScore)
    requires
        players_unique(s),
        !has_player(s, e.player),
    ensures
        players_unique(insert_entry(s, e)),
{
    lemma_insert_position_props(s, e.score);
    let p = insert_position(s, e.score);
    let t = s.insert(p, e);
    assert forall|i: int, j: int| 0 <= i < j < t.len() implies (#[trigger] t[i].player) != (
    #[trigger] t[j].player) by {
        if i < p {
            assert(t[i] == s[i]);
        } else if i == p {
            assert(t[i] == e);
        } else {
            assert(t[i] == s[i - 1]);
        }
        if j < p {
            assert(t[j] == s[j]);
        } else if j == p {
            assert(t[j] == e);
        } else {
            assert(t[j] == s[j - 1]);
        }
    }
}

/// Dropping one entry keeps the board sorted and its players unique, and
/// the dropped entry's player no longer appears.
proof fn lemma_remove_keeps(s: Seq<PlayerScore>, i: int)
    requires
        sorted_descending(s),
        players_unique(s),
        0 <= i < s.len(),
    ensures
        sorted_descending(s.remove(i)),
        players_unique(s.remove(i)),
        !has_player(s.remove(i), s[i].player),
{
    let t = s.remove(i);
    assert forall|k: int| 0 <= k < t.len() implies (#[trigger] t[k].player) != s[i].player by {
        if k < i {
            assert(t[k] == s[k]);
        } else {
            assert(t[k] == s[k + 1]);
        }
    }
    assert forall|a: int, b: int| 0 <= a < b < t.len() implies (#[trigger] t[a].score) >= (
    #[trigger] t[b].score) && (#[trigger] t[a].player) != (#[trigger] t[b].player) by {
        if a < i {
            assert(t[a] == s[a]);
        } else {
            assert(t[a] == s[a + 1]);
        }
        if b < i {
            assert(t[b] == s[b]);
        } else {
            assert(t[b] == s[b + 1]);
        }
    }
}

/// Dropping the last entry keeps the board sorted and its players unique,
/// and cannot make an absent player appear.
proof fn lemma_drop_last_keeps(s: Seq<PlayerScore>, p: Identity)
    requires
        sorted_descending(s),
        players_unique(s),
        s.len() > 0,
        !has_player(s, p),
    ensures
        sorted_descending(s.drop_last()),
        players_unique(s.drop_last()),
        !has_player(s.drop_last(), p),
{
    let t = s.drop_last();
    assert forall|k: int| 0 <= k < t.len() implies (#[trigger] t[k].player) != p by {
        assert(t[k] == s[k]);
    }
    assert forall|a: int, b: int| 0 <= a < b < t.len() implies (#[trigger] t[a].score) >= (
    #[trigger] t[b].score) && (#[trigger] t[a].player) != (#[trigger] t[b].player) by {
        assert(t[a] == s[a]);
        assert(t[b] == s[b]);
    }
}

/// A score submission preserves the record's invariant.
pub proof fn lemma_submit_score_next_wf(
    v: GameView,
    player: Identity,
    now: i64,
    score: u64,
    successful_hashes: u64,
)
    requires
        v.wf(),
    ensures
        submit_score_next(v, player, now, score, successful_hashes).wf(),
{
    let e = PlayerScore { player, score, successful_hashes, timestamp: now };
    let lb = v.leaderboard;
    if has_player(lb, player) {
        let i = player_index(lb, player);
        assert(0 <= i < lb.len() && lb[i].player == player);
        if score > lb[i].score {
            lemma_remove_keeps(lb, i);
            lemma_insert_position_props(lb.remove(i), score);
            lemma_insert_entry_sorted(lb.remove(i), e);
            lemma_insert_entry_unique(lb.remove(i), e);
        }
    } else if lb.len() < MAX_LEADERBOARD_SIZE {
        lemma_insert_position_props(lb, score);
        lemma_insert_entry_sorted(lb, e);
        lemma_insert_entry_unique(lb, e);
    } else if score > lb.last().score {
        lemma_drop_last_keeps(lb, player);
        lemma_insert_position_props(lb.drop_last(), score);
        lemma_insert_entry_sorted(lb.drop_last(), e);
        lemma_insert_entry_unique(lb.drop_last(), e);
    }
}

/// Index of the entry that belongs to `p`, or `None` where no entry does.
fn find_player_index(v: &Vec<PlayerScore>, p: Identity) -> (r: Option<usize>)
    ensures
        match r {
            Some(i) => 0 <= i < v@.len() && v@[i as int].player == p,
            None => !has_player(v@, p),
        },
{
    let mut i: usize = 0;
    while i < v.len()
        invariant
            0 <= i <= v@.len(),
            forall|k: int| 0 <= k < i ==> (#[trigger] v@[k].player) != p,
        decreases v@.len() - i,
    {
        if v[i].player == p {
            return Some(i);
        }
        i = i + 1;
    }
    None
}

/// The slot a new entry with this score lands in: just past every entry
/// scoring at least as much.
fn rank_index(v: &Vec<PlayerScore>, score: u64) -> (i: usize)
    ensures
        i as int == insert_position(v@, score),
        0 <= i <= v@.len(),
{
    let mut i: usize = 0;
    while i < v.len()
        invariant
            0 <= i <= v@.len(),
            forall|k: int| 0 <= k < i ==> (#[trigger] v@[k].score) >= score,
        decreases v@.len() - i,
    {
        if v[i].score < score {
            proof {
                lemma_insert_position_is(v@, score, i as int);
            }
            return i;
        }
        i = i + 1;
    }
    proof {
        lemma_insert_position_is(v@, score, i as int);
    }
    i
}

/// Create the singleton record a deployment starts from: empty board,
/// empty pool, advisory difficulty 4, owned by the caller.
pub fn initialize(owner: Identity) -> (g: GameState)
    ensures
        g@ == initialize_view(owner),
        g.wf(),
{
    let g = GameState {
        owner,
        prize_pool: 0,
        hash_difficulty: 4,
        leaderboard_count: 0,
        leaderboard: Vec::new(),
    };
    proof {
        assert(g@ =~= initialize_view(owner));
    }
    g
}

} // verus!
