use study_trivia::codec::decode_game_state;
use study_trivia::codec::encode_game_state;
use study_trivia::identity::Identity;
use study_trivia::trivia::initialize;
use study_trivia::trivia::GameState;
use study_trivia::trivia::PlayerScore;
use study_trivia::trivia::TriviaGameError;
use study_trivia::trivia::CONTRIBUTION_FEE;
use study_trivia::trivia::MIN_PRIZE_CLAIM;

fn id(n: u64) -> Identity {
    Identity { w0: n, w1: 0, w2: 0, w3: 0 }
}

fn board_is_sound(g: &GameState) {
    assert_eq!(g.leaderboard_count as usize, g.leaderboard.len());
    assert!(g.leaderboard.len() <= 100);
    for w in g.leaderboard.windows(2) {
        assert!(w[0].score >= w[1].score);
    }
    for (i, a) in g.leaderboard.iter().enumerate() {
        for b in g.leaderboard.iter().skip(i + 1) {
            assert_ne!(a.player, b.player);
        }
    }
}

#[test]
fn initialize_starts_empty() {
    let owner = id(1);
    let g = initialize(owner);
    assert_eq!(g.owner, owner);
    assert_eq!(g.prize_pool, 0);
    assert_eq!(g.hash_difficulty, 4);
    assert_eq!(g.leaderboard_count, 0);
    assert!(g.leaderboard.is_empty());
}

#[test]
fn failed_attempt_contributes_the_fee() {
    let p = id(2);
    let mut g = initialize(id(1));
    let mut player_balance: u64 = 2_000_000;
    let mut pool_balance: u64 = 0;
    let ev = g
        .submit_hash_attempt(p, [7u8; 32], false, &mut player_balance, &mut pool_balance)
        .unwrap();
    assert_eq!(g.prize_pool, 1_000_000);
    assert_eq!(player_balance, 1_000_000);
    assert_eq!(pool_balance, 1_000_000);
    assert_eq!(ev.player, p);
    assert_eq!(ev.hash, [7u8; 32]);
    assert!(!ev.successful);
    // balance conservation across the transfer
    assert_eq!(player_balance + pool_balance, 2_000_000);
}

#[test]
fn successful_attempt_touches_nothing() {
    let p = id(2);
    let mut g = initialize(id(1));
    let mut player_balance: u64 = 500;
    let mut pool_balance: u64 = 9;
    let ev = g
        .submit_hash_attempt(p, [1u8; 32], true, &mut player_balance, &mut pool_balance)
        .unwrap();
    assert!(ev.successful);
    assert_eq!(g.prize_pool, 0);
    assert_eq!(player_balance, 500);
    assert_eq!(pool_balance, 9);
}

#[test]
fn poor_player_cannot_contribute() {
    let p = id(2);
    let mut g = initialize(id(1));
    let mut player_balance: u64 = CONTRIBUTION_FEE - 1;
    let mut pool_balance: u64 = 0;
    let r = g.submit_hash_attempt(p, [0u8; 32], false, &mut player_balance, &mut pool_balance);
    assert_eq!(r, Err(TriviaGameError::InsufficientFunds));
    assert_eq!(g.prize_pool, 0);
    assert_eq!(player_balance, CONTRIBUTION_FEE - 1);
    assert_eq!(pool_balance, 0);
}

#[test]
fn better_score_replaces_worse_score_stays() {
    let p = id(2);
    let mut g = initialize(id(1));
    g.submit_score(p, 10, 100, 1);
    board_is_sound(&g);
    assert_eq!(g.leaderboard.len(), 1);
    assert_eq!(g.leaderboard[0].score, 100);

    g.submit_score(p, 11, 150, 2);
    board_is_sound(&g);
    assert_eq!(g.leaderboard.len(), 1);
    assert_eq!(g.leaderboard[0].score, 150);
    assert_eq!(g.leaderboard[0].successful_hashes, 2);

    let before = g.leaderboard.clone();
    g.submit_score(p, 12, 120, 3);
    board_is_sound(&g);
    assert_eq!(g.leaderboard, before);

    // an exactly equal score does not displace the entry either
    g.submit_score(p, 13, 150, 9);
    assert_eq!(g.leaderboard, before);
}

#[test]
fn board_ranks_players_descending() {
    let mut g = initialize(id(1));
    g.submit_score(id(10), 1, 300, 1);
    g.submit_score(id(11), 2, 500, 1);
    g.submit_score(id(12), 3, 400, 1);
    g.submit_score(id(13), 4, 500, 1);
    board_is_sound(&g);
    let scores: Vec<u64> = g.leaderboard.iter().map(|e| e.score).collect();
    assert_eq!(scores, vec![500, 500, 400, 300]);
    // the earlier 500 keeps the higher slot
    assert_eq!(g.leaderboard[0].player, id(11));
    assert_eq!(g.leaderboard[1].player, id(13));
}

#[test]
fn full_board_evicts_only_on_strictly_better() {
    let mut g = initialize(id(1));
    for n in 0..100u64 {
        g.submit_score(id(100 + n), n as i64, 1000 - n, 1);
    }
    board_is_sound(&g);
    assert_eq!(g.leaderboard.len(), 100);
    let worst = g.leaderboard.last().unwrap().score;
    assert_eq!(worst, 901);

    // equal to the worst: no eviction
    let before = g.leaderboard.clone();
    g.submit_score(id(999), 200, worst, 1);
    assert_eq!(g.leaderboard, before);
    assert_eq!(g.leaderboard_count, 100);

    // strictly better: the worst leaves, the board stays full
    g.submit_score(id(999), 201, worst + 1, 1);
    board_is_sound(&g);
    assert_eq!(g.leaderboard.len(), 100);
    assert!(g.leaderboard.iter().any(|e| e.player == id(999)));
    assert!(!g.leaderboard.iter().any(|e| e.player == id(100 + 99)));
}

#[test]
fn claim_needs_players_rank_and_a_big_enough_pool() {
    let top = id(2);
    let second = id(3);
    let mut g = initialize(id(1));
    let mut player_balance: u64 = 0;
    let mut pool_balance: u64 = 0;

    let r = g.claim_prize(top, &mut player_balance, &mut pool_balance);
    assert_eq!(r, Err(TriviaGameError::NoPlayers));

    g.submit_score(top, 1, 500, 1);
    g.submit_score(second, 2, 400, 1);
    let r = g.claim_prize(second, &mut player_balance, &mut pool_balance);
    assert_eq!(r, Err(TriviaGameError::NotTopPlayer));

    let r = g.claim_prize(top, &mut player_balance, &mut pool_balance);
    assert_eq!(r, Err(TriviaGameError::PrizePoolTooSmall));
}

#[test]
fn pool_one_below_the_minimum_fails_at_it_succeeds() {
    let top = id(2);
    let mut g = GameState {
        owner: id(1),
        prize_pool: MIN_PRIZE_CLAIM - 1,
        hash_difficulty: 4,
        leaderboard_count: 1,
        leaderboard: vec![PlayerScore {
            player: top,
            score: 500,
            successful_hashes: 1,
            timestamp: 1,
        }],
    };
    let mut player_balance: u64 = 0;
    let mut pool_balance: u64 = MIN_PRIZE_CLAIM;

    let r = g.claim_prize(top, &mut player_balance, &mut pool_balance);
    assert_eq!(r, Err(TriviaGameError::PrizePoolTooSmall));
    assert_eq!(g.prize_pool, MIN_PRIZE_CLAIM - 1);
    assert_eq!(player_balance, 0);

    g.prize_pool = MIN_PRIZE_CLAIM;
    let r = g.claim_prize(top, &mut player_balance, &mut pool_balance);
    assert!(r.is_ok());
    assert_eq!(g.prize_pool, 0);
    assert_eq!(player_balance, MIN_PRIZE_CLAIM);
    assert_eq!(pool_balance, 0);
}

#[test]
fn contributions_accumulate_until_the_top_player_claims() {
    let p = id(2);
    let mut g = initialize(id(1));
    let mut player_balance: u64 = 20_000_000;
    let mut pool_balance: u64 = 0;

    for _ in 0..10 {
        g.submit_hash_attempt(p, [0u8; 32], false, &mut player_balance, &mut pool_balance)
            .unwrap();
    }
    assert_eq!(g.prize_pool, 10_000_000);
    assert_eq!(player_balance, 10_000_000);
    assert_eq!(pool_balance, 10_000_000);

    g.submit_score(p, 1, 500, 10);
    let before = g.leaderboard.clone();
    let ev = g
        .claim_prize(p, &mut player_balance, &mut pool_balance)
        .unwrap();
    assert_eq!(ev.winner, p);
    assert_eq!(ev.amount, 10_000_000);
    assert_eq!(g.prize_pool, 0);
    assert_eq!(player_balance, 20_000_000);
    assert_eq!(pool_balance, 0);
    // the board survives the claim untouched
    assert_eq!(g.leaderboard, before);

    // the pool is spent: a second claim cannot go through
    let r = g.claim_prize(p, &mut player_balance, &mut pool_balance);
    assert_eq!(r, Err(TriviaGameError::PrizePoolTooSmall));
}

#[test]
fn game_record_survives_the_record_slot() {
    let mut g = initialize(id(1));
    g.submit_score(id(2), 10, 300, 3);
    g.submit_score(id(3), 11, 500, 7);
    g.prize_pool = 2_000_000;

    let bytes = encode_game_state(&g);
    assert_eq!(bytes.len(), 46 + 2 * 56);
    let d = decode_game_state(&bytes).unwrap();
    assert_eq!(d.owner, g.owner);
    assert_eq!(d.prize_pool, g.prize_pool);
    assert_eq!(d.hash_difficulty, g.hash_difficulty);
    assert_eq!(d.leaderboard_count, g.leaderboard_count);
    assert_eq!(d.leaderboard, g.leaderboard);
}

#[test]
fn empty_game_record_round_trips() {
    let g = initialize(id(1));
    let bytes = encode_game_state(&g);
    assert_eq!(bytes.len(), 46);
    let d = decode_game_state(&bytes).unwrap();
    assert_eq!(d.owner, g.owner);
    assert!(d.leaderboard.is_empty());
}

#[test]
fn malformed_game_records_do_not_decode() {
    // shorter than the fixed header
    assert!(decode_game_state(&[0u8; 45]).is_none());
    // a length prefix the block does not cover
    let mut g = initialize(id(1));
    g.submit_score(id(2), 10, 300, 3);
    let mut bytes = encode_game_state(&g);
    bytes[42] = 2; // announce two entries, carry one
    assert!(decode_game_state(&bytes).is_none());
    // a trailing byte beyond the announced entries
    bytes[42] = 1;
    bytes.push(0);
    assert!(decode_game_state(&bytes).is_none());
}

#[test]
fn score_events_report_the_submission() {
    let p = id(2);
    let mut g = initialize(id(1));
    let ev = g.submit_score(p, 1, 123, 4);
    assert_eq!(ev.player, p);
    assert_eq!(ev.score, 123);
    assert_eq!(ev.successful_hashes, 4);
}
