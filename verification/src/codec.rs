use crate::identity::Identity;
use crate::session::StudySession;
use crate::trivia::GameState;
use crate::trivia::GameView;
use crate::trivia::PlayerScore;
use vstd::bytes::*;
use vstd::prelude::*;
use vstd::slice::slice_index_get;
use vstd::slice::slice_subrange;

verus! {

/// Length of the serialized session record: a 32-byte student identity,
/// the stake, the start time, the two 32-bit targets, and two flag bytes.
pub const SESSION_RECORD_LEN: usize = 58;

/// Length of one serialized leaderboard entry: a 32-byte player identity
/// and three 64-bit fields.
pub const PLAYER_SCORE_LEN: usize = 56;

/// Length of the trivia record's fixed header: a 32-byte owner identity,
/// the pool, the difficulty byte, the cached count byte, and the board's
/// 32-bit length prefix.
pub const GAME_HEADER_LEN: usize = 46;

/// The 32-byte form of an identity: its four words, little-endian, in order.
pub open spec fn spec_identity_bytes(id: Identity) -> Seq<u8> {
    spec_u64_to_le_bytes(id.w0) + spec_u64_to_le_bytes(id.w1) + spec_u64_to_le_bytes(id.w2)
        + spec_u64_to_le_bytes(id.w3)
}

/// The identity a 32-byte block holds.
pub open spec fn spec_identity_of(b: Seq<u8>) -> Identity {
    Identity {
        w0: spec_u64_from_le_bytes(b.subrange(0, 8)),
        w1: spec_u64_from_le_bytes(b.subrange(8, 16)),
        w2: spec_u64_from_le_bytes(b.subrange(16, 24)),
        w3: spec_u64_from_le_bytes(b.subrange(24, 32)),
    }
}

/// An identity's byte form is 32 bytes long and decodes back to itself.
pub proof fn lemma_identity_round_trip(id: Identity)
    ensures
        spec_identity_bytes(id).len() == 32,
        spec_identity_of(spec_identity_bytes(id)) == id,
{
    lemma_auto_spec_u64_to_from_le_bytes();
    let b = spec_identity_bytes(id);
    assert(b.subrange(0, 8) =~= spec_u64_to_le_bytes(id.w0));
    assert(b.subrange(8, 16) =~= spec_u64_to_le_bytes(id.w1));
    assert(b.subrange(16, 24) =~= spec_u64_to_le_bytes(id.w2));
    assert(b.subrange(24, 32) =~= spec_u64_to_le_bytes(id.w3));
}

/// Serialize an identity.
pub fn identity_to_bytes(id: &Identity) -> (r: Vec<u8>)
    ensures
        r@ == spec_identity_bytes(*id),
        r@.len() == 32,
{
    let mut out = u64_to_le_bytes(id.w0);
    let mut part = u64_to_le_bytes(id.w1);
    out.append(&mut part);
    let mut part = u64_to_le_bytes(id.w2);
    out.append(&mut part);
    let mut part = u64_to_le_bytes(id.w3);
    out.append(&mut part);
    proof {
        assert(out@ =~= spec_identity_bytes(*id));
    }
    out
}

/// Read an identity back from a 32-byte block.
pub fn identity_from_bytes(b: &[u8]) -> (r: Identity)
    requires
        b@.len() == 32,
    ensures
        r == spec_identity_of(b@),
        spec_identity_bytes(r) == b@,
{
    let w0 = u64_from_le_bytes(slice_subrange(b, 0, 8));
    let w1 = u64_from_le_bytes(slice_subrange(b, 8, 16));
    let w2 = u64_from_le_bytes(slice_subrange(b, 16, 24));
    let w3 = u64_from_le_bytes(slice_subrange(b, 24, 32));
    let r = Identity { w0, w1, w2, w3 };
    proof {
        lemma_auto_spec_u64_to_from_le_bytes();
        assert(spec_identity_bytes(r) =~= b@);
    }
    r
}

/// Exactly one byte for a flag: one for true, zero for false.
pub open spec fn spec_bool_byte(b: bool) -> u8 {
    if b {
        1
    } else {
        0
    }
}

/// The record layout of a session: little-endian fields in declaration
/// order, fixed width, 58 bytes in all.
pub open spec fn spec_session_bytes(s: StudySession) -> Seq<u8> {
    spec_identity_bytes(s.student) + spec_u64_to_le_bytes(s.stake_amount) + spec_u64_to_le_bytes(
        s.start_time as u64,
    ) + spec_u32_to_le_bytes(s.duration_minutes) + spec_u32_to_le_bytes(s.keystroke_goal)
        + seq![spec_bool_byte(s.completed)] + seq![spec_bool_byte(s.tokens_returned)]
}

/// The blocks that decode to a session record: exactly 58 bytes, and each
/// of the two flag bytes zero or one.
pub open spec fn spec_session_bytes_valid(b: Seq<u8>) -> bool {
    &&& b.len() == SESSION_RECORD_LEN
    &&& (b[56] == 0 || b[56] == 1)
    &&& (b[57] == 0 || b[57] == 1)
}

/// The session a well-formed 58-byte block holds; `None` for every other
/// block.
pub open spec fn spec_decode_session(b: Seq<u8>) -> Option<StudySession> {
    if spec_session_bytes_valid(b) {
        Some(
            StudySession {
                student: spec_identity_of(b.subrange(0, 32)),
                stake_amount: spec_u64_from_le_bytes(b.subrange(32, 40)),
                start_time: spec_u64_from_le_bytes(b.subrange(40, 48)) as i64,
                duration_minutes: spec_u32_from_le_bytes(b.subrange(48, 52)),
                keystroke_goal: spec_u32_from_le_bytes(b.subrange(52, 56)),
                completed: b[56] == 1,
                tokens_returned: b[57] == 1,
            },
        )
    } else {
        None
    }
}

/// A session's byte form is 58 bytes long.
pub proof fn lemma_session_bytes_len(s: StudySession)
    ensures
        spec_session_bytes(s).len() == SESSION_RECORD_LEN,
{
    lemma_identity_round_trip(s.student);
    lemma_auto_spec_u64_to_from_le_bytes();
    lemma_auto_spec_u32_to_from_le_bytes();
}

/// Decoding what was encoded gives back the record exactly: the layout
/// loses nothing.
pub proof fn lemma_session_round_trip(s: StudySession)
    ensures
        spec_decode_session(spec_session_bytes(s)) == Some(s),
{
    lemma_identity_round_trip(s.student);
    lemma_auto_spec_u64_to_from_le_bytes();
    lemma_auto_spec_u32_to_from_le_bytes();
    let b = spec_session_bytes(s);
    assert(b.subrange(0, 32) =~= spec_identity_bytes(s.student));
    assert(b.subrange(32, 40) =~= spec_u64_to_le_bytes(s.stake_amount));
    assert(b.subrange(40, 48) =~= spec_u64_to_le_bytes(s.start_time as u64));
    assert(b.subrange(48, 52) =~= spec_u32_to_le_bytes(s.duration_minutes));
    assert(b.subrange(52, 56) =~= spec_u32_to_le_bytes(s.keystroke_goal));
    let t = s.start_time;
    assert(t as u64 as i64 == t) by (bit_vector);
    assert(spec_bool_byte(s.completed) == 1 <==> s.completed);
    assert(spec_bool_byte(s.tokens_returned) == 1 <==> s.tokens_returned);
}

/// Serialize a session record.
pub fn encode_session(s: &StudySession) -> (r: Vec<u8>)
    ensures
        r@ == spec_session_bytes(*s),
        r@.len() == SESSION_RECORD_LEN,
{
    let mut out = identity_to_bytes(&s.student);
    let mut part = u64_to_le_bytes(s.stake_amount);
    out.append(&mut part);
    let mut part = u64_to_le_bytes(s.start_time as u64);
    out.append(&mut part);
    let mut part = u32_to_le_bytes(s.duration_minutes);
    out.append(&mut part);
    let mut part = u32_to_le_bytes(s.keystroke_goal);
    out.append(&mut part);
    out.push(if s.completed { 1 } else { 0 });
    out.push(if s.tokens_returned { 1 } else { 0 });
    proof {
        lemma_session_bytes_len(*s);
        assert(out@ =~= spec_session_bytes(*s));
    }
    out
}

/// Read a session record back from its byte form. Succeeds on exactly the
/// well-formed blocks, and only on the byte form of the record it returns.
pub fn decode_session(b: &[u8]) -> (r: Option<StudySession>)
    ensures
        r == spec_decode_session(b@),
        r matches Some(s) ==> spec_session_bytes(s) == b@,
{
    if b.len() != SESSION_RECORD_LEN {
        return None;
    }
    let completed_byte = *slice_index_get(b, 56);
    let returned_byte = *slice_index_get(b, 57);
    if completed_byte > 1 || returned_byte > 1 {
        return None;
    }
    let student = identity_from_bytes(slice_subrange(b, 0, 32));
    let stake_amount = u64_from_le_bytes(slice_subrange(b, 32, 40));
    let start_time = u64_from_le_bytes(slice_subrange(b, 40, 48)) as i64;
    let duration_minutes = u32_from_le_bytes(slice_subrange(b, 48, 52));
    let keystroke_goal = u32_from_le_bytes(slice_subrange(b, 52, 56));
    let s = StudySession {
        student,
        stake_amount,
        start_time,
        duration_minutes,
        keystroke_goal,
        completed: completed_byte == 1,
        tokens_returned: returned_byte == 1,
    };
    proof {
        lemma_auto_spec_u64_to_from_le_bytes();
        lemma_auto_spec_u32_to_from_le_bytes();
        let v = spec_u64_from_le_bytes(b@.subrange(40, 48));
        assert(v as i64 as u64 == v) by (bit_vector);
        assert(spec_session_bytes(s) =~= b@);
    }
    Some(s)
}

/// The 56-byte form of one leaderboard entry: player, score, successful
/// hashes and timestamp, little-endian, in order.
pub open spec fn spec_player_score_bytes(e: PlayerScore) -> Seq<u8> {
    spec_identity_bytes(e.player) + spec_u64_to_le_bytes(e.score) + spec_u64_to_le_bytes(
        e.successful_hashes,
    ) + spec_u64_to_le_bytes(e.timestamp as u64)
}

/// The entry a 56-byte block holds.
pub open spec fn spec_player_score_of(b: Seq<u8>) -> PlayerScore {
    PlayerScore {
        player: spec_identity_of(b.subrange(0, 32)),
        score: spec_u64_from_le_bytes(b.subrange(32, 40)),
        successful_hashes: spec_u64_from_le_bytes(b.subrange(40, 48)),
        timestamp: spec_u64_from_le_bytes(b.subrange(48, 56)) as i64,
    }
}

/// An entry's byte form is 56 bytes long and decodes back to itself.
pub proof fn lemma_player_score_round_trip(e: PlayerScore)
    ensures
        spec_player_score_bytes(e).len() == PLAYER_SCORE_LEN,
        spec_player_score_of(spec_player_score_bytes(e)) == e,
{
    lemma_identity_round_trip(e.player);
    lemma_auto_spec_u64_to_from_le_bytes();
    let b = spec_player_score_bytes(e);
    assert(b.subrange(0, 32) =~= spec_identity_bytes(e.player));
    assert(b.subrange(32, 40) =~= spec_u64_to_le_bytes(e.score));
    assert(b.subrange(40, 48) =~= spec_u64_to_le_bytes(e.successful_hashes));
    assert(b.subrange(48, 56) =~= spec_u64_to_le_bytes(e.timestamp as u64));
    let t = e.timestamp;
    assert(t as u64 as i64 == t) by (bit_vector);
}

/// The byte form of a board: its entries' 56-byte blocks, in order.
pub open spec fn spec_board_bytes(s: Seq<PlayerScore>) -> Seq<u8>
    decreases s.len(),
{
    if s.len() == 0 {
        Seq::empty()
    } else {
        spec_player_score_bytes(s[0]) + spec_board_bytes(s.drop_first())
    }
}

/// The board a run of whole 56-byte blocks holds.
pub open spec fn spec_decode_board(b: Seq<u8>) -> Seq<PlayerScore>
    decreases b.len(),
{
    if b.len() < PLAYER_SCORE_LEN {
        Seq::empty()
    } else {
        seq![spec_player_score_of(b.take(56))] + spec_decode_board(b.skip(56))
    }
}

/// A board's byte form is 56 bytes per entry.
pub proof fn lemma_board_bytes_len(s: Seq<PlayerScore>)
    ensures
        spec_board_bytes(s).len() == 56 * s.len(),
    decreases s.len(),
{
    if s.len() > 0 {
        lemma_player_score_round_trip(s[0]);
        lemma_board_bytes_len(s.drop_first());
    }
}

/// Appending one entry appends its block.
pub proof fn lemma_board_bytes_snoc(s: Seq<PlayerScore>, e: PlayerScore)
    ensures
        spec_board_bytes(s.push(e)) == spec_board_bytes(s) + spec_player_score_bytes(e),
    decreases s.len(),
{
    if s.len() == 0 {
        assert(s.push(e)[0] == e);
        assert(s.push(e).drop_first() =~= Seq::<PlayerScore>::empty());
        assert(spec_board_bytes(s.push(e).drop_first()) == Seq::<u8>::empty());
        assert(spec_board_bytes(s.push(e)) =~= spec_board_bytes(s) + spec_player_score_bytes(e));
    } else {
        let t = s.push(e);
        assert(t[0] == s[0]);
        assert(t.drop_first() =~= s.drop_first().push(e));
        assert(spec_board_bytes(t) == spec_player_score_bytes(s[0]) + spec_board_bytes(
            s.drop_first().push(e),
        ));
        lemma_board_bytes_snoc(s.drop_first(), e);
        assert(spec_player_score_bytes(s[0]) + (spec_board_bytes(s.drop_first())
            + spec_player_score_bytes(e)) =~= (spec_player_score_bytes(s[0]) + spec_board_bytes(
            s.drop_first(),
        )) + spec_player_score_bytes(e));
        assert(spec_board_bytes(t) =~= spec_board_bytes(s) + spec_player_score_bytes(e));
    }
}

/// Decoding a board's byte form gives back the board exactly.
pub proof fn lemma_board_round_trip(s: Seq<PlayerScore>)
    ensures
        spec_decode_board(spec_board_bytes(s)) == s,
    decreases s.len(),
{
    lemma_board_bytes_len(s);
    if s.len() > 0 {
        lemma_player_score_round_trip(s[0]);
        lemma_board_bytes_len(s.drop_first());
        let b = spec_board_bytes(s);
        assert(b.take(56) =~= spec_player_score_bytes(s[0]));
        assert(b.skip(56) =~= spec_board_bytes(s.drop_first()));
        lemma_board_round_trip(s.drop_first());
        assert(spec_decode_board(b) =~= s);
    }
}

/// The record layout of the trivia state: owner, pool, difficulty, the
/// cached count, a 32-bit length prefix, then the board's entries. The
/// host's slot discriminator, where it keeps one, stands outside this
/// layout.
pub open spec fn spec_game_bytes(v: GameView) -> Seq<u8> {
    spec_identity_bytes(v.owner) + spec_u64_to_le_bytes(v.prize_pool as u64) + seq![
        v.hash_difficulty,
    ] + seq![(v.leaderboard_count as u8)] + spec_u32_to_le_bytes(v.leaderboard.len() as u32)
        + spec_board_bytes(v.leaderboard)
}

/// The blocks that decode to a trivia record: a whole header, and exactly
/// the run of entry blocks its length prefix announces.
pub open spec fn spec_game_bytes_valid(b: Seq<u8>) -> bool {
    b.len() >= GAME_HEADER_LEN && b.len() - GAME_HEADER_LEN == 56 * spec_u32_from_le_bytes(
        b.subrange(42, 46),
    )
}

/// The record a well-formed block holds, as a view; `None` for every
/// other block.
pub open spec fn spec_decode_game(b: Seq<u8>) -> Option<GameView> {
    if spec_game_bytes_valid(b) {
        Some(
            GameView {
                owner: spec_identity_of(b.subrange(0, 32)),
                prize_pool: spec_u64_from_le_bytes(b.subrange(32, 40)) as nat,
                hash_difficulty: b[40],
                leaderboard_count: b[41] as nat,
                leaderboard: spec_decode_board(b.skip(46)),
            },
        )
    } else {
        None
    }
}

/// Decoding what was encoded gives back the record exactly, wherever the
/// fields fit their wire widths — which every `GameState` guarantees.
pub proof fn lemma_game_round_trip(v: GameView)
    requires
        v.prize_pool <= u64::MAX,
        v.leaderboard_count <= u8::MAX,
        v.leaderboard.len() <= u32::MAX,
    ensures
        spec_decode_game(spec_game_bytes(v)) == Some(v),
{
    lemma_identity_round_trip(v.owner);
    lemma_auto_spec_u64_to_from_le_bytes();
    lemma_auto_spec_u32_to_from_le_bytes();
    lemma_board_bytes_len(v.leaderboard);
    let b = spec_game_bytes(v);
    assert(b.subrange(0, 32) =~= spec_identity_bytes(v.owner));
    assert(b.subrange(32, 40) =~= spec_u64_to_le_bytes(v.prize_pool as u64));
    assert(b.subrange(42, 46) =~= spec_u32_to_le_bytes(v.leaderboard.len() as u32));
    assert(b.skip(46) =~= spec_board_bytes(v.leaderboard));
    lemma_board_round_trip(v.leaderboard);
    assert(spec_game_bytes_valid(b));
    let w = spec_decode_game(b)->Some_0;
    assert(w =~= v);
}

/// Serialize one leaderboard entry.
fn encode_player_score(e: &PlayerScore) -> (r: Vec<u8>)
    ensures
        r@ == spec_player_score_bytes(*e),
        r@.len() == PLAYER_SCORE_LEN,
{
    let mut out = identity_to_bytes(&e.player);
    let mut part = u64_to_le_bytes(e.score);
    out.append(&mut part);
    let mut part = u64_to_le_bytes(e.successful_hashes);
    out.append(&mut part);
    let mut part = u64_to_le_bytes(e.timestamp as u64);
    out.append(&mut part);
    proof {
        assert(out@ =~= spec_player_score_bytes(*e));
    }
    out
}

/// Read one leaderboard entry back from its 56-byte block.
fn decode_player_score(b: &[u8]) -> (e: PlayerScore)
    requires
        b@.len() == PLAYER_SCORE_LEN,
    ensures
        e == spec_player_score_of(b@),
        spec_player_score_bytes(e) == b@,
{
    let player = identity_from_bytes(slice_subrange(b, 0, 32));
    let score = u64_from_le_bytes(slice_subrange(b, 32, 40));
    let successful_hashes = u64_from_le_bytes(slice_subrange(b, 40, 48));
    let timestamp = u64_from_le_bytes(slice_subrange(b, 48, 56)) as i64;
    let e = PlayerScore { player, score, successful_hashes, timestamp };
    proof {
        lemma_auto_spec_u64_to_from_le_bytes();
        let v = spec_u64_from_le_bytes(b@.subrange(48, 56));
        assert(v as i64 as u64 == v) by (bit_vector);
        assert(spec_player_score_bytes(e) =~= b@);
    }
    e
}

/// Serialize the trivia record.
pub fn encode_game_state(g: &GameState) -> (r: Vec<u8>)
    requires
        g.leaderboard@.len() <= u32::MAX,
    ensures
        r@ == spec_game_bytes(g@),
{
    let mut out = identity_to_bytes(&g.owner);
    let mut part = u64_to_le_bytes(g.prize_pool);
    out.append(&mut part);
    out.push(g.hash_difficulty);
    out.push(g.leaderboard_count);
    let mut part = u32_to_le_bytes(g.leaderboard.len() as u32);
    out.append(&mut part);
    let ghost header = out@;
    let mut i: usize = 0;
    while i < g.leaderboard.len()
        invariant
            i <= g.leaderboard@.len(),
            out@ == header + spec_board_bytes(g.leaderboard@.take(i as int)),
            header == spec_identity_bytes(g.owner) + spec_u64_to_le_bytes(g.prize_pool) + seq![
                g.hash_difficulty,
            ] + seq![g.leaderboard_count] + spec_u32_to_le_bytes(g.leaderboard@.len() as u32),
        decreases g.leaderboard@.len() - i,
    {
        let mut part = encode_player_score(&g.leaderboard[i]);
        out.append(&mut part);
        proof {
            let lb = g.leaderboard@;
            assert(lb.take(i + 1) =~= lb.take(i as int).push(lb[i as int]));
            lemma_board_bytes_snoc(lb.take(i as int), lb[i as int]);
        }
        i = i + 1;
    }
    proof {
        assert(g.leaderboard@.take(g.leaderboard@.len() as int) =~= g.leaderboard@);
        assert(out@ =~= spec_game_bytes(g@));
    }
    out
}

/// Read the trivia record back from its byte form. Succeeds on exactly
/// the well-formed blocks, and only on the byte form of the record it
/// returns.
pub fn decode_game_state(b: &[u8]) -> (r: Option<GameState>)
    ensures
        match r {
            Some(g) => Some(g@) == spec_decode_game(b@) && spec_game_bytes(g@) == b@,
            None => spec_decode_game(b@) is None,
        },
{
    if b.len() < GAME_HEADER_LEN {
        return None;
    }
    let owner = identity_from_bytes(slice_subrange(b, 0, 32));
    let prize_pool = u64_from_le_bytes(slice_subrange(b, 32, 40));
    let hash_difficulty = *slice_index_get(b, 40);
    let leaderboard_count = *slice_index_get(b, 41);
    let prefix = u32_from_le_bytes(slice_subrange(b, 42, 46));
    if (b.len() - GAME_HEADER_LEN) as u64 != 56u64 * (prefix as u64) {
        return None;
    }
    let n = prefix as usize;
    let ghost payload = b@.skip(46);
    let mut leaderboard: Vec<PlayerScore> = Vec::new();
    let mut i: usize = 0;
    proof {
        assert(payload.skip(0) =~= payload);
        assert(leaderboard@ + spec_decode_board(payload) =~= spec_decode_board(payload));
        assert(spec_board_bytes(leaderboard@) =~= payload.take(0));
    }
    while i < n
        invariant
            i <= n,
            b@.len() == 46 + 56 * n,
            46 + 56 * (n as int) <= usize::MAX,
            payload == b@.skip(46),
            leaderboard@.len() == i,
            spec_decode_board(payload) == leaderboard@ + spec_decode_board(
                payload.skip(56 * i as int),
            ),
            spec_board_bytes(leaderboard@) == payload.take(56 * i as int),
        decreases n - i,
    {
        let e = decode_player_score(slice_subrange(b, 46 + 56 * i, 46 + 56 * i + 56));
        proof {
            let rest = payload.skip(56 * i as int);
            assert(rest.take(56) =~= b@.subrange(46 + 56 * i as int, 46 + 56 * i + 56));
            assert(rest.skip(56) =~= payload.skip(56 * (i + 1)));
            lemma_board_bytes_snoc(leaderboard@, e);
            assert(leaderboard@.push(e) + spec_decode_board(payload.skip(56 * (i + 1)))
                =~= leaderboard@ + spec_decode_board(rest));
            assert(payload.take(56 * (i + 1)) =~= payload.take(56 * i as int) + rest.take(56));
        }
        leaderboard.push(e);
        i = i + 1;
    }
    let g = GameState { owner, prize_pool, hash_difficulty, leaderboard_count, leaderboard };
    proof {
        lemma_auto_spec_u64_to_from_le_bytes();
        lemma_auto_spec_u32_to_from_le_bytes();
        assert(payload.skip(56 * n as int) =~= Seq::<u8>::empty());
        assert(payload.take(56 * n as int) =~= payload);
        assert(leaderboard@ + spec_decode_board(payload.skip(56 * n as int)) =~= leaderboard@);
        assert(spec_game_bytes_valid(b@));
        assert(g@ =~= spec_decode_game(b@)->Some_0);
        assert(spec_game_bytes(g@) =~= b@);
    }
    Some(g)
}

} // verus!
