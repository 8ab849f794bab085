use crate::codec::decode_session;
use crate::codec::encode_session;
use crate::codec::spec_decode_session;
use crate::codec::spec_session_bytes;
use crate::identity::Identity;
use crate::session::initialize_session;
use crate::session::SessionError;
use crate::session::StudySession;
use vstd::bytes::*;
use vstd::prelude::*;
use vstd::slice::slice_index_get;
use vstd::slice::slice_subrange;

verus! {

/// A study-staking instruction, as carried on the wire: a tag byte and a
/// little-endian payload.
#[derive(Clone, Copy, Debug, PartialEq, Eq, Structural)]
pub enum StudyStakingInstruction {
    /// Open a session: stake, duration and keystroke goal. Tag 0.
    InitializeSession { stake_amount: u64, duration_minutes: u32, keystroke_goal: u32 },
    /// Close a session successfully with the keystrokes made. Tag 1.
    CompleteSession { actual_keystrokes: u32 },
    /// Give a session up. Tag 2.
    FailSession,
}

/// The token movement a successful transition entitles the envelope to
/// co-execute: the engine declares amounts, the host moves them.
#[derive(Clone, Copy, Debug, PartialEq, Eq, Structural)]
pub enum SessionEffect {
    /// A fresh session locked this stake.
    Staked { amount: u64 },
    /// A completed session returns stake plus bonus.
    Payout { amount: u64 },
    /// A failed session forfeits its whole stake.
    Forfeit { amount: u64 },
}

/// The wire form of an instruction: its tag byte, then its fields,
/// little-endian, in order.
pub open spec fn spec_instruction_bytes(ins: StudyStakingInstruction) -> Seq<u8> {
    match ins {
        StudyStakingInstruction::InitializeSession {
            stake_amount,
            duration_minutes,
            keystroke_goal,
        } => seq![0u8] + spec_u64_to_le_bytes(stake_amount) + spec_u32_to_le_bytes(
            duration_minutes,
        ) + spec_u32_to_le_bytes(keystroke_goal),
        StudyStakingInstruction::CompleteSession { actual_keystrokes } => seq![1u8]
            + spec_u32_to_le_bytes(actual_keystrokes),
        StudyStakingInstruction::FailSession => seq![2u8],
    }
}

/// The blocks that decode to an instruction: a known tag and exactly the
/// payload its variant carries.
pub open spec fn spec_instruction_bytes_valid(b: Seq<u8>) -> bool {
    b.len() >= 1 && ((b[0] == 0 && b.len() == 17) || (b[0] == 1 && b.len() == 5) || (b[0] == 2
        && b.len() == 1))
}

/// The instruction a well-formed block holds; `InvalidPayload` for every
/// other block.
pub open spec fn spec_decode_instruction(b: Seq<u8>) -> Result<
    StudyStakingInstruction,
    SessionError,
> {
    if !spec_instruction_bytes_valid(b) {
        Err(SessionError::InvalidPayload)
    } else if b[0] == 0 {
        Ok(
            StudyStakingInstruction::InitializeSession {
                stake_amount: spec_u64_from_le_bytes(b.subrange(1, 9)),
                duration_minutes: spec_u32_from_le_bytes(b.subrange(9, 13)),
                keystroke_goal: spec_u32_from_le_bytes(b.subrange(13, 17)),
            },
        )
    } else if b[0] == 1 {
        Ok(
            StudyStakingInstruction::CompleteSession {
                actual_keystrokes: spec_u32_from_le_bytes(b.subrange(1, 5)),
            },
        )
    } else {
        Ok(StudyStakingInstruction::FailSession)
    }
}

/// Decoding what was encoded gives back the instruction exactly.
pub proof fn lemma_instruction_round_trip(ins: StudyStakingInstruction)
    ensures
        spec_decode_instruction(spec_instruction_bytes(ins)) == Ok::<
            StudyStakingInstruction,
            SessionError,
        >(ins),
{
    lemma_auto_spec_u64_to_from_le_bytes();
    lemma_auto_spec_u32_to_from_le_bytes();
    let b = spec_instruction_bytes(ins);
    match ins {
        StudyStakingInstruction::InitializeSession {
            stake_amount,
            duration_minutes,
            keystroke_goal,
        } => {
            assert(b.subrange(1, 9) =~= spec_u64_to_le_bytes(stake_amount));
            assert(b.subrange(9, 13) =~= spec_u32_to_le_bytes(duration_minutes));
            assert(b.subrange(13, 17) =~= spec_u32_to_le_bytes(keystroke_goal));
        },
        StudyStakingInstruction::CompleteSession { actual_keystrokes } => {
            assert(b.subrange(1, 5) =~= spec_u32_to_le_bytes(actual_keystrokes));
        },
        StudyStakingInstruction::FailSession => {},
    }
}

/// Serialize an instruction.
pub fn encode_instruction(ins: &StudyStakingInstruction) -> (r: Vec<u8>)
    ensures
        r@ == spec_instruction_bytes(*ins),
{
    match ins {
        StudyStakingInstruction::InitializeSession {
            stake_amount,
            duration_minutes,
            keystroke_goal,
        } => {
            let mut out: Vec<u8> = Vec::new();
            out.push(0u8);
            let mut part = u64_to_le_bytes(*stake_amount);
            out.append(&mut part);
            let mut part = u32_to_le_bytes(*duration_minutes);
            out.append(&mut part);
            let mut part = u32_to_le_bytes(*keystroke_goal);
            out.append(&mut part);
            proof {
                assert(out@ =~= spec_instruction_bytes(*ins));
            }
            out
        },
        StudyStakingInstruction::CompleteSession { actual_keystrokes } => {
            let mut out: Vec<u8> = Vec::new();
            out.push(1u8);
            let mut part = u32_to_le_bytes(*actual_keystrokes);
            out.append(&mut part);
            proof {
                assert(out@ =~= spec_instruction_bytes(*ins));
            }
            out
        },
        StudyStakingInstruction::FailSession => {
            let mut out: Vec<u8> = Vec::new();
            out.push(2u8);
            proof {
                assert(out@ =~= spec_instruction_bytes(*ins));
            }
            out
        },
    }
}

/// Read an instruction back from its wire form. Succeeds on exactly the
/// well-formed blocks, and only on the byte form of the instruction it
/// returns.
pub fn decode_instruction(b: &[u8]) -> (r: Result<StudyStakingInstruction, SessionError>)
    ensures
        r == spec_decode_instruction(b@),
        r matches Ok(ins) ==> spec_instruction_bytes(ins) == b@,
{
    if b.len() < 1 {
        return Err(SessionError::InvalidPayload);
    }
    let tag = *slice_index_get(b, 0);
    if tag == 0 && b.len() == 17 {
        let stake_amount = u64_from_le_bytes(slice_subrange(b, 1, 9));
        let duration_minutes = u32_from_le_bytes(slice_subrange(b, 9, 13));
        let keystroke_goal = u32_from_le_bytes(slice_subrange(b, 13, 17));
        let ins = StudyStakingInstruction::InitializeSession {
            stake_amount,
            duration_minutes,
            keystroke_goal,
        };
        proof {
            lemma_auto_spec_u64_to_from_le_bytes();
            lemma_auto_spec_u32_to_from_le_bytes();
            assert(spec_instruction_bytes(ins) =~= b@);
        }
        Ok(ins)
    } else if tag == 1 && b.len() == 5 {
        let actual_keystrokes = u32_from_le_bytes(slice_subrange(b, 1, 5));
        let ins = StudyStakingInstruction::CompleteSession { actual_keystrokes };
        proof {
            lemma_auto_spec_u32_to_from_le_bytes();
            assert(spec_instruction_bytes(ins) =~= b@);
        }
        Ok(ins)
    } else if tag == 2 && b.len() == 1 {
        let ins = StudyStakingInstruction::FailSession;
        proof {
            assert(spec_instruction_bytes(ins) =~= b@);
        }
        Ok(ins)
    } else {
        Err(SessionError::InvalidPayload)
    }
}

/// Decode, authenticate and apply one study-staking instruction against
/// the session record slot, and declare the token movement the envelope
/// must co-execute.
///
/// The record slot's own invariant is assumed: where it decodes at all,
/// it holds a well-formed session whose payout fits a 64-bit amount. An
/// instruction that does not decode reports `InvalidPayload`; a slot that
/// does not decode reports `InvalidRecord`. Every failure leaves the slot
/// byte-identical and moves nothing.
pub fn process_instruction(
    caller: Identity,
    signed: bool,
    now: i64,
    instruction_data: &[u8],
    record: &mut Vec<u8>,
) -> (r: Result<SessionEffect, SessionError>)
    requires
        spec_decode_session(old(record)@) matches Some(s) ==> s.wf() && s.payout_amount()
            <= u64::MAX,
    ensures
        r is Err ==> final(record)@ == old(record)@,
        spec_decode_instruction(instruction_data@) is Err ==> r == Err::<
            SessionEffect,
            SessionError,
        >(SessionError::InvalidPayload),
        spec_decode_instruction(instruction_data@) matches Ok(
            StudyStakingInstruction::InitializeSession {
                stake_amount,
                duration_minutes,
                keystroke_goal,
            },
        ) ==> (if signed {
            r == Ok::<SessionEffect, SessionError>(
                (SessionEffect::Staked { amount: stake_amount }),
            ) && final(record)@ == spec_session_bytes(
                (StudySession {
                    student: caller,
                    stake_amount,
                    start_time: now,
                    duration_minutes,
                    keystroke_goal,
                    completed: false,
                    tokens_returned: false,
                }),
            )
        } else {
            r == Err::<SessionEffect, SessionError>(SessionError::MissingSignature)
        }),
        spec_decode_instruction(instruction_data@) matches Ok(
            StudyStakingInstruction::CompleteSession { actual_keystrokes },
        ) ==> (match spec_decode_session(old(record)@) {
            Some(s) => (match s.complete_outcome(caller, now, actual_keystrokes) {
                Ok(amount) => r == Ok::<SessionEffect, SessionError>(
                    (SessionEffect::Payout { amount }),
                ) && final(record)@ == spec_session_bytes(
                    s.complete_next(caller, now, actual_keystrokes),
                ),
                Err(e) => r == Err::<SessionEffect, SessionError>(e),
            }),
            None => r == Err::<SessionEffect, SessionError>(SessionError::InvalidRecord),
        }),
        spec_decode_instruction(instruction_data@) == Ok::<StudyStakingInstruction, SessionError>(
            StudyStakingInstruction::FailSession,
        ) ==> (match spec_decode_session(old(record)@) {
            Some(s) => (match s.fail_outcome(caller) {
                Ok(amount) => r == Ok::<SessionEffect, SessionError>(
                    (SessionEffect::Forfeit { amount }),
                ) && final(record)@ == spec_session_bytes(s.fail_next(caller)),
                Err(e) => r == Err::<SessionEffect, SessionError>(e),
            }),
            None => r == Err::<SessionEffect, SessionError>(SessionError::InvalidRecord),
        }),
{
    let ins = match decode_instruction(instruction_data) {
        Ok(ins) => ins,
        Err(e) => {
            return Err(e);
        },
    };
    match ins {
        StudyStakingInstruction::InitializeSession {
            stake_amount,
            duration_minutes,
            keystroke_goal,
        } => {
            let session = match initialize_session(
                caller,
                signed,
                now,
                stake_amount,
                duration_minutes,
                keystroke_goal,
            ) {
                Ok(session) => session,
                Err(e) => {
                    return Err(e);
                },
            };
            *record = encode_session(&session);
            Ok(SessionEffect::Staked { amount: stake_amount })
        },
        StudyStakingInstruction::CompleteSession { actual_keystrokes } => {
            let mut session = match decode_session(record.as_slice()) {
                Some(session) => session,
                None => {
                    return Err(SessionError::InvalidRecord);
                },
            };
            match session.complete_session(caller, now, actual_keystrokes) {
                Ok(amount) => {
                    *record = encode_session(&session);
                    Ok(SessionEffect::Payout { amount })
                },
                Err(e) => Err(e),
            }
        },
        StudyStakingInstruction::FailSession => {
            let mut session = match decode_session(record.as_slice()) {
                Some(session) => session,
                None => {
                    return Err(SessionError::InvalidRecord);
                },
            };
            match session.fail_session(caller) {
                Ok(amount) => {
                    *record = encode_session(&session);
                    Ok(SessionEffect::Forfeit { amount })
                },
                Err(e) => Err(e),
            }
        },
    }
}

} // verus!
