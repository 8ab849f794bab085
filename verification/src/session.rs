use crate::identity::Identity;
use vstd::prelude::*;

verus! {

/// Everything that can go wrong while driving a study session.
#[derive(Clone, Copy, Debug, PartialEq, Eq, Structural)]
pub enum SessionError {
    /// The instruction bytes did not decode.
    InvalidPayload,
    /// The record slot's bytes did not decode as a session.
    InvalidRecord,
    /// The caller did not sign the invocation.
    MissingSignature,
    /// The caller is not the student that owns the record.
    Unauthorized,
    /// The completion thresholds (time or keystrokes) were not met.
    CriteriaNotMet,
    /// The record is terminal: its payout or forfeit already happened.
    AlreadyTerminal,
}

/// One student's staked study commitment, created at stake time.
#[derive(Clone, Copy, Debug, PartialEq, Eq, Structural)]
pub struct StudySession {
    pub student: Identity,
    pub stake_amount: u64,
    pub start_time: i64,
    pub duration_minutes: u32,
    pub keystroke_goal: u32,
    pub completed: bool,
    pub tokens_returned: bool,
}

impl StudySession {
    /// A session is well formed when success implies that the terminal
    /// payout flag is set: `completed` never holds without `tokens_returned`.
    pub open spec fn wf(self) -> bool {
        self.completed ==> self.tokens_returned
    }

    /// The elapsed seconds since the session started reach the declared
    /// duration. Running for exactly `duration_minutes * 60` seconds counts.
    pub open spec fn time_goal_met(self, now: i64) -> bool {
        now - self.start_time >= self.duration_minutes as int * 60
    }

    /// The reported keystrokes reach the declared goal; exactly equal counts.
    pub open spec fn keystroke_goal_met(self, actual_keystrokes: u32) -> bool {
        actual_keystrokes >= self.keystroke_goal
    }

    /// Stake plus the floor-division bonus `stake / 10`. A zero stake earns
    /// a zero bonus, so a zero-stake session pays out exactly zero.
    pub open spec fn payout_amount(self) -> int {
        self.stake_amount + self.stake_amount as int / 10
    }

    /// Whether a Complete transition by `caller` goes through: the caller
    /// owns the record, the record is not yet terminal, and both thresholds
    /// hold.
    pub open spec fn complete_allowed(self, caller: Identity, now: i64, actual_keystrokes: u32) -> bool {
        &&& caller == self.student
        &&& !self.tokens_returned
        &&& self.time_goal_met(now)
        &&& self.keystroke_goal_met(actual_keystrokes)
    }

    /// What a Complete transition returns: the entitled payout on success,
    /// and otherwise the first failing check, in the order the engine makes
    /// them: ownership, then terminality, then the thresholds.
    pub open spec fn complete_outcome(self, caller: Identity, now: i64, actual_keystrokes: u32) -> Result<
        u64,
        SessionError,
    > {
        if caller != self.student {
            Err(SessionError::Unauthorized)
        } else if self.tokens_returned {
            Err(SessionError::AlreadyTerminal)
        } else if !(self.time_goal_met(now) && self.keystroke_goal_met(actual_keystrokes)) {
            Err(SessionError::CriteriaNotMet)
        } else {
            Ok((self.payout_amount()) as u64)
        }
    }

    /// The record after a Complete transition: both flags set on success,
    /// untouched otherwise.
    pub open spec fn complete_next(self, caller: Identity, now: i64, actual_keystrokes: u32) -> StudySession {
        if self.complete_allowed(caller, now, actual_keystrokes) {
            StudySession { completed: true, tokens_returned: true, ..self }
        } else {
            self
        }
    }

    /// Whether a Fail transition by `caller` goes through: the caller owns
    /// the record and the record is not yet terminal.
    pub open spec fn fail_allowed(self, caller: Identity) -> bool {
        caller == self.student && !self.tokens_returned
    }

    /// What a Fail transition returns: the forfeited stake on success,
    /// and otherwise the first failing check.
    pub open spec fn fail_outcome(self, caller: Identity) -> Result<u64, SessionError> {
        if caller != self.student {
            Err(SessionError::Unauthorized)
        } else if self.tokens_returned {
            Err(SessionError::AlreadyTerminal)
        } else {
            Ok(self.stake_amount)
        }
    }

    /// The record after a Fail transition: terminal without success, or
    /// untouched on failure.
    pub open spec fn fail_next(self, caller: Identity) -> StudySession {
        if self.fail_allowed(caller) {
            StudySession { completed: false, tokens_returned: true, ..self }
        } else {
            self
        }
    }

    /// Mark the session completed and pay out stake plus bonus.
    ///
    /// Succeeds exactly when the caller owns the record, the record is not
    /// yet terminal, and both completion thresholds hold; then both flags
    /// become true and the returned amount is `stake + stake / 10`. Every
    /// failure reports the first failing check and leaves the record
    /// exactly as it was; a terminal record never transitions again.
    pub fn complete_session(&mut self, caller: Identity, now: i64, actual_keystrokes: u32) -> (r: Result<
        u64,
        SessionError,
    >)
        requires
            old(self).wf(),
            old(self).payout_amount() <= u64::MAX,
        ensures
            final(self).wf(),
            r == old(self).complete_outcome(caller, now, actual_keystrokes),
            *final(self) == old(self).complete_next(caller, now, actual_keystrokes),
            r is Err ==> *final(self) == *old(self),
            old(self).tokens_returned ==> r is Err,
    {
        if !(caller == self.student) {
            return Err(SessionError::Unauthorized);
        }
        if self.tokens_returned {
            return Err(SessionError::AlreadyTerminal);
        }
        let time_met = (now as i128) - (self.start_time as i128) >= (self.duration_minutes
            as i128) * 60;
        let keystrokes_met = actual_keystrokes >= self.keystroke_goal;
        if !time_met || !keystrokes_met {
            return Err(SessionError::CriteriaNotMet);
        }
        self.completed = true;
        self.tokens_returned = true;
        let bonus = self.stake_amount / 10;
        Ok(self.stake_amount + bonus)
    }

    /// Give the session up: mark it terminal without success and declare the
    /// whole stake forfeit.
    ///
    /// Succeeds exactly when the caller owns the record and the record is not
    /// yet terminal; then `completed` is false, `tokens_returned` is true and
    /// the returned amount is the full stake. Every failure reports the first
    /// failing check and leaves the record exactly as it was; a terminal
    /// record never transitions again.
    pub fn fail_session(&mut self, caller: Identity) -> (r: Result<u64, SessionError>)
        requires
            old(self).wf(),
        ensures
            final(self).wf(),
            r == old(self).fail_outcome(caller),
            *final(self) == old(self).fail_next(caller),
            r is Err ==> *final(self) == *old(self),
            old(self).tokens_returned ==> r is Err,
    {
        if !(caller == self.student) {
            return Err(SessionError::Unauthorized);
        }
        if self.tokens_returned {
            return Err(SessionError::AlreadyTerminal);
        }
        self.completed = false;
        self.tokens_returned = true;
        Ok(self.stake_amount)
    }
}

/// Create a fresh active session for `caller`, stamped with the host clock.
///
/// Succeeds exactly when the invocation is signed; the new record carries the
/// declared stake, duration and keystroke goal, starts now, and is neither
/// completed nor terminal. The stake transfer itself is the envelope's duty,
/// co-executed with this transition.
pub fn initialize_session(
    caller: Identity,
    signed: bool,
    now: i64,
    stake_amount: u64,
    duration_minutes: u32,
    keystroke_goal: u32,
) -> (r: Result<StudySession, SessionError>)
    ensures
        !signed ==> r == Err::<StudySession, SessionError>(SessionError::MissingSignature),
        signed ==> r == Ok::<StudySession, SessionError>(
            (StudySession {
                student: caller,
                stake_amount,
                start_time: now,
                duration_minutes,
                keystroke_goal,
                completed: false,
                tokens_returned: false,
            }),
        ),
        r matches Ok(s) ==> s.wf() && !s.tokens_returned,
{
    if !signed {
        return Err(SessionError::MissingSignature);
    }
    Ok(
        StudySession {
            student: caller,
            stake_amount,
            start_time: now,
            duration_minutes,
            keystroke_goal,
            completed: false,
            tokens_returned: false,
        },
    )
}

} // verus!
