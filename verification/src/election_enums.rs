use vstd::prelude::*;

verus! {

/// The phases an election goes through, in this order.
#[derive(Clone, Copy, Debug, PartialEq, Eq, Structural)]
pub enum ElectionPhase {
    Registration,
    Voting,
    Closed,
}

/// The position of a phase in the order Registration, Voting, Closed.
pub open spec fn phase_rank(p: ElectionPhase) -> int {
    match p {
        ElectionPhase::Registration => 0,
        ElectionPhase::Voting => 1,
        ElectionPhase::Closed => 2,
    }
}

/// Why an instruction was refused.
#[derive(Clone, Copy, Debug, PartialEq, Eq, Structural)]
pub enum ElectionError {
    WinnerCountNotAllowed,
    RegistrationPhaseClosed,
    WrongPubKey,
    PrivilageNotAllowed,
    NotAtVotingPhase,
    ElectionIsOver,
}

impl ElectionError {
    /// The message a client is shown for this error.
    pub open spec fn spec_message(self) -> Seq<char> {
        match self {
            ElectionError::WinnerCountNotAllowed => "At least 1 winner required"@,
            ElectionError::RegistrationPhaseClosed => "Currently not accepting registrations"@,
            ElectionError::WrongPubKey => "Please ensure only valid candidate can register"@,
            ElectionError::PrivilageNotAllowed => "You don't have permission to perform this operation"@,
            ElectionError::NotAtVotingPhase => "It is not voting phase"@,
            ElectionError::ElectionIsOver => "Elections are closed"@,
        }
    }

    /// The message a client is shown for this error.
    pub fn message(&self) -> (m: &'static str)
        ensures
            m@ == self.spec_message(),
    {
        match self {
            ElectionError::WinnerCountNotAllowed => "At least 1 winner required",
            ElectionError::RegistrationPhaseClosed => "Currently not accepting registrations",
            ElectionError::WrongPubKey => "Please ensure only valid candidate can register",
            ElectionError::PrivilageNotAllowed => "You don't have permission to perform this operation",
            ElectionError::NotAtVotingPhase => "It is not voting phase",
            ElectionError::ElectionIsOver => "Elections are closed",
        }
    }
}

} // verus!
