use study_trivia::codec::decode_session;
use study_trivia::codec::encode_session;
use study_trivia::envelope::decode_instruction;
use study_trivia::envelope::encode_instruction;
use study_trivia::envelope::process_instruction;
use study_trivia::envelope::SessionEffect;
use study_trivia::envelope::StudyStakingInstruction;
use study_trivia::identity::Identity;
use study_trivia::session::initialize_session;
use study_trivia::session::SessionError;
use study_trivia::session::StudySession;

fn id(n: u64) -> Identity {
    Identity { w0: n, w1: 0, w2: 0, w3: 0 }
}

fn fresh_session(student: Identity) -> StudySession {
    initialize_session(student, true, 0, 1000, 30, 500).unwrap()
}

#[test]
fn test_session_serialization() {
    let session = StudySession {
        student: id(0),
        stake_amount: 1000,
        start_time: 0,
        duration_minutes: 30,
        keystroke_goal: 500,
        completed: false,
        tokens_returned: false,
    };

    let serialized = encode_session(&session);
    let deserialized = decode_session(&serialized).unwrap();

    assert_eq!(session.stake_amount, deserialized.stake_amount);
    assert_eq!(session.duration_minutes, deserialized.duration_minutes);
}

#[test]
fn study_success_pays_stake_plus_bonus() {
    let student = id(1);
    let mut s = fresh_session(student);
    assert!(!s.completed && !s.tokens_returned);
    let r = s.complete_session(student, 1800, 600);
    assert_eq!(r, Ok(1100));
    assert!(s.completed);
    assert!(s.tokens_returned);
}

#[test]
fn one_second_short_fails_and_changes_nothing() {
    let student = id(1);
    let mut s = fresh_session(student);
    let before = s;
    let r = s.complete_session(student, 1799, 600);
    assert_eq!(r, Err(SessionError::CriteriaNotMet));
    assert_eq!(s, before);
}

#[test]
fn exact_keystroke_goal_succeeds_one_less_fails() {
    let student = id(1);
    let mut s = fresh_session(student);
    let before = s;
    let r = s.complete_session(student, 1800, 499);
    assert_eq!(r, Err(SessionError::CriteriaNotMet));
    assert_eq!(s, before);
    let r = s.complete_session(student, 1800, 500);
    assert_eq!(r, Ok(1100));
}

#[test]
fn give_up_forfeits_whole_stake() {
    let student = id(1);
    let mut s = fresh_session(student);
    let r = s.fail_session(student);
    assert_eq!(r, Ok(1000));
    assert!(!s.completed);
    assert!(s.tokens_returned);
}

#[test]
fn terminal_session_rejects_every_transition() {
    let student = id(1);
    let mut s = fresh_session(student);
    s.complete_session(student, 1800, 600).unwrap();
    let done = s;
    assert_eq!(s.fail_session(student), Err(SessionError::AlreadyTerminal));
    assert_eq!(s, done);
    assert_eq!(
        s.complete_session(student, 3600, 600),
        Err(SessionError::AlreadyTerminal)
    );
    assert_eq!(s, done);

    let mut f = fresh_session(student);
    f.fail_session(student).unwrap();
    assert_eq!(
        f.complete_session(student, 1800, 600),
        Err(SessionError::AlreadyTerminal)
    );
    assert_eq!(f.fail_session(student), Err(SessionError::AlreadyTerminal));
}

#[test]
fn only_the_student_may_drive_the_session() {
    let student = id(1);
    let intruder = id(2);
    let mut s = fresh_session(student);
    let before = s;
    assert_eq!(
        s.complete_session(intruder, 1800, 600),
        Err(SessionError::Unauthorized)
    );
    assert_eq!(s.fail_session(intruder), Err(SessionError::Unauthorized));
    assert_eq!(s, before);
}

#[test]
fn unsigned_initialize_is_refused() {
    let r = initialize_session(id(1), false, 0, 1000, 30, 500);
    assert_eq!(r, Err(SessionError::MissingSignature));
}

#[test]
fn zero_stake_earns_zero_bonus() {
    let student = id(1);
    let mut s = initialize_session(student, true, 0, 0, 30, 500).unwrap();
    let r = s.complete_session(student, 1800, 600);
    assert_eq!(r, Ok(0));
}

#[test]
fn bonus_is_floor_division_by_ten() {
    let student = id(1);
    let mut s = initialize_session(student, true, 0, 19, 30, 500).unwrap();
    let r = s.complete_session(student, 1800, 600);
    assert_eq!(r, Ok(20));
}

#[test]
fn instructions_round_trip_through_the_wire() {
    let cases = vec![
        StudyStakingInstruction::InitializeSession {
            stake_amount: 1000,
            duration_minutes: 30,
            keystroke_goal: 500,
        },
        StudyStakingInstruction::CompleteSession {
            actual_keystrokes: 600,
        },
        StudyStakingInstruction::FailSession,
    ];
    for ins in cases {
        let bytes = encode_instruction(&ins);
        assert_eq!(decode_instruction(&bytes), Ok(ins));
    }
}

#[test]
fn malformed_instructions_are_invalid_payload() {
    assert_eq!(
        decode_instruction(&[]),
        Err(SessionError::InvalidPayload)
    );
    assert_eq!(
        decode_instruction(&[3u8]),
        Err(SessionError::InvalidPayload)
    );
    // tag 0 wants a 16-byte payload, tag 1 a 4-byte payload
    assert_eq!(
        decode_instruction(&[0u8, 1, 2, 3]),
        Err(SessionError::InvalidPayload)
    );
    assert_eq!(
        decode_instruction(&[1u8, 1, 2, 3, 4, 5]),
        Err(SessionError::InvalidPayload)
    );
}

#[test]
fn malformed_records_do_not_decode() {
    assert_eq!(decode_session(&[0u8; 57]), None);
    assert_eq!(decode_session(&[0u8; 59]), None);
    let mut bytes = [0u8; 58];
    bytes[56] = 2; // not a flag byte
    assert_eq!(decode_session(&bytes), None);
}

#[test]
fn session_record_survives_the_record_slot() {
    let student = id(3);
    let session = StudySession {
        student,
        stake_amount: 42,
        start_time: -5,
        duration_minutes: 1,
        keystroke_goal: 2,
        completed: true,
        tokens_returned: true,
    };
    let bytes = encode_session(&session);
    assert_eq!(bytes.len(), 58);
    assert_eq!(decode_session(&bytes), Some(session));
}

#[test]
fn dispatch_drives_a_whole_session() {
    let student = id(4);
    let mut record: Vec<u8> = Vec::new();

    let init = encode_instruction(&StudyStakingInstruction::InitializeSession {
        stake_amount: 1000,
        duration_minutes: 30,
        keystroke_goal: 500,
    });
    let r = process_instruction(student, true, 0, &init, &mut record);
    assert_eq!(r, Ok(SessionEffect::Staked { amount: 1000 }));
    assert_eq!(record.len(), 58);

    // too early: the record must stay byte-identical
    let complete = encode_instruction(&StudyStakingInstruction::CompleteSession {
        actual_keystrokes: 600,
    });
    let before = record.clone();
    let r = process_instruction(student, true, 1799, &complete, &mut record);
    assert_eq!(r, Err(SessionError::CriteriaNotMet));
    assert_eq!(record, before);

    let r = process_instruction(student, true, 1800, &complete, &mut record);
    assert_eq!(r, Ok(SessionEffect::Payout { amount: 1100 }));
    let s = decode_session(&record).unwrap();
    assert!(s.completed && s.tokens_returned);

    // terminal: nothing moves any more
    let fail = encode_instruction(&StudyStakingInstruction::FailSession);
    let before = record.clone();
    let r = process_instruction(student, true, 1801, &fail, &mut record);
    assert_eq!(r, Err(SessionError::AlreadyTerminal));
    assert_eq!(record, before);
}

#[test]
fn dispatch_refuses_garbage() {
    let student = id(4);
    let mut record: Vec<u8> = Vec::new();
    let r = process_instruction(student, true, 0, &[9u8, 9, 9], &mut record);
    assert_eq!(r, Err(SessionError::InvalidPayload));
    assert!(record.is_empty());

    // a Complete against an empty slot fails on the record, not the payload
    let complete = encode_instruction(&StudyStakingInstruction::CompleteSession {
        actual_keystrokes: 600,
    });
    let r = process_instruction(student, true, 1800, &complete, &mut record);
    assert_eq!(r, Err(SessionError::InvalidRecord));
}

#[test]
fn dispatch_requires_a_signature_to_initialize() {
    let student = id(4);
    let mut record: Vec<u8> = Vec::new();
    let init = encode_instruction(&StudyStakingInstruction::InitializeSession {
        stake_amount: 1000,
        duration_minutes: 30,
        keystroke_goal: 500,
    });
    let r = process_instruction(student, false, 0, &init, &mut record);
    assert_eq!(r, Err(SessionError::MissingSignature));
    assert!(record.is_empty());
}
