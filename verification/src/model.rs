//! The election account as a mathematical value, and what each instruction
//! does to it.
use vstd::prelude::*;
use crate::election_enums::{ElectionError, ElectionPhase};
use crate::leaderboard::{board_after_vote, board_wf};

verus! {

/// The contents of an election account.
#[verifier::ext_equal]
pub struct ElectionModel {
    pub candidates_count: u64,
    pub phase: ElectionPhase,
    pub election_officer: Seq<u8>,
    pub winners_count: u8,
    pub winners_id: Seq<u64>,
    pub winners_votes_count: Seq<u64>,
}

impl ElectionModel {
    /// What every election account that the instructions produce satisfies:
    /// at least one seat, and a well-formed board of winners.
    pub open spec fn wf(self) -> bool {
        &&& self.winners_count > 0
        &&& board_wf(self.winners_id, self.winners_votes_count, self.winners_count as nat)
    }

    /// A new election run by `officer` for `winners_count` seats.
    pub open spec fn initiated(officer: Seq<u8>, winners_count: u8) -> ElectionModel {
        ElectionModel {
            candidates_count: 0,
            phase: ElectionPhase::Registration,
            election_officer: officer,
            winners_count,
            winners_id: Seq::empty(),
            winners_votes_count: Seq::empty(),
        }
    }

    /// The same account in phase `phase`.
    pub open spec fn with_phase(self, phase: ElectionPhase) -> ElectionModel {
        ElectionModel { phase, ..self }
    }

    /// The same account after candidate `id` is reported to hold `votes` votes.
    pub open spec fn after_record_vote(self, id: u64, votes: u64) -> ElectionModel {
        let board = board_after_vote(
            self.winners_id,
            self.winners_votes_count,
            self.winners_count as nat,
            id,
            votes,
        );
        ElectionModel { winners_id: board.0, winners_votes_count: board.1, ..self }
    }

    /// Starting an election for `winners_count` seats.
    pub open spec fn initiate_outcome(officer: Seq<u8>, winners_count: u8) -> Result<
        ElectionModel,
        ElectionError,
    > {
        if winners_count == 0 {
            Err(ElectionError::WinnerCountNotAllowed)
        } else {
            Ok(ElectionModel::initiated(officer, winners_count))
        }
    }

    /// A candidate applying: accepted only while registering, and it takes
    /// the next candidate number.
    pub open spec fn apply_outcome(self) -> Result<ElectionModel, ElectionError> {
        if self.phase != ElectionPhase::Registration {
            Err(ElectionError::RegistrationPhaseClosed)
        } else {
            Ok(ElectionModel { candidates_count: (self.candidates_count + 1) as u64, ..self })
        }
    }

    /// Ending registration: only from the registration phase.
    pub open spec fn close_registration_outcome(self) -> Result<ElectionModel, ElectionError> {
        if self.phase != ElectionPhase::Registration {
            Err(ElectionError::RegistrationPhaseClosed)
        } else {
            Ok(self.with_phase(ElectionPhase::Voting))
        }
    }

    /// Ending the vote: only from the voting phase.
    pub open spec fn close_voting_outcome(self) -> Result<ElectionModel, ElectionError> {
        if self.phase != ElectionPhase::Voting {
            Err(ElectionError::NotAtVotingPhase)
        } else {
            Ok(self.with_phase(ElectionPhase::Closed))
        }
    }

    /// `signer` asking to move the election to `new_phase`: only the officer
    /// may, never out of a closed election, and never back to registration.
    pub open spec fn change_phase_outcome(self, signer: Seq<u8>, new_phase: ElectionPhase) -> Result<
        ElectionModel,
        ElectionError,
    > {
        if signer != self.election_officer {
            Err(ElectionError::PrivilageNotAllowed)
        } else if self.phase == ElectionPhase::Closed {
            Err(ElectionError::ElectionIsOver)
        } else {
            match new_phase {
                ElectionPhase::Voting => self.close_registration_outcome(),
                ElectionPhase::Closed => self.close_voting_outcome(),
                ElectionPhase::Registration => Err(ElectionError::PrivilageNotAllowed),
            }
        }
    }

    /// A vote for candidate `candidate_id`, which held `candidate_votes`
    /// votes before it: accepted only while voting, and the board learns the
    /// candidate's new count.
    pub open spec fn vote_outcome(self, candidate_id: u64, candidate_votes: u64) -> Result<
        ElectionModel,
        ElectionError,
    > {
        if self.phase != ElectionPhase::Voting {
            Err(ElectionError::NotAtVotingPhase)
        } else {
            Ok(self.after_record_vote(candidate_id, (candidate_votes + 1) as u64))
        }
    }
}

} // verus!
