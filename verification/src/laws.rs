//! What holds of the election across its instructions.
use vstd::prelude::*;
use crate::election_enums::{phase_rank, ElectionError, ElectionPhase};
use crate::leaderboard::{
    board_reflects,
    lemma_board_after_vote_reflects,
    lemma_board_after_vote_wf,
    lemma_first_leads,
    tally_of,
};
use crate::model::ElectionModel;

verus! {

/// A started election is well formed: registering, with no candidates and an
/// empty board.
pub proof fn initiated_election_is_well_formed(officer: Seq<u8>, winners_count: u8)
    requires
        winners_count > 0,
    ensures
        ElectionModel::initiate_outcome(officer, winners_count) == Ok::<
            ElectionModel,
            ElectionError,
        >(ElectionModel::initiated(officer, winners_count)),
        ElectionModel::initiated(officer, winners_count).wf(),
{
}

/// Every accepted instruction leaves a well-formed election well formed.
pub proof fn instructions_keep_election_well_formed(
    m: ElectionModel,
    signer: Seq<u8>,
    new_phase: ElectionPhase,
    candidate_id: u64,
    candidate_votes: u64,
)
    requires
        m.wf(),
    ensures
        m.apply_outcome() matches Ok(m2) ==> m2.wf(),
        m.change_phase_outcome(signer, new_phase) matches Ok(m2) ==> m2.wf(),
        m.vote_outcome(candidate_id, candidate_votes) matches Ok(m2) ==> m2.wf(),
{
    lemma_board_after_vote_wf(
        m.winners_id,
        m.winners_votes_count,
        m.winners_count as nat,
        candidate_id,
        (candidate_votes + 1) as u64,
    );
}

/// The phase never goes back: applying and voting keep it, and a phase
/// change moves it exactly one step forward, to the phase asked for.
pub proof fn phase_only_moves_forward(
    m: ElectionModel,
    signer: Seq<u8>,
    new_phase: ElectionPhase,
    candidate_id: u64,
    candidate_votes: u64,
)
    ensures
        m.apply_outcome() matches Ok(m2) ==> m2.phase == m.phase,
        m.vote_outcome(candidate_id, candidate_votes) matches Ok(m2) ==> m2.phase == m.phase,
        m.change_phase_outcome(signer, new_phase) matches Ok(m2) ==> {
            &&& m2.phase == new_phase
            &&& phase_rank(m2.phase) == phase_rank(m.phase) + 1
        },
{
}

/// Only the officer can move an election on.
pub proof fn only_officer_changes_phase(
    m: ElectionModel,
    signer: Seq<u8>,
    new_phase: ElectionPhase,
)
    requires
        signer != m.election_officer,
    ensures
        m.change_phase_outcome(signer, new_phase) == Err::<ElectionModel, ElectionError>(
            ElectionError::PrivilageNotAllowed,
        ),
{
}

/// A closed election is final: it takes no application, no vote and no
/// phase change, so its board of winners no longer changes.
pub proof fn closed_election_is_final(
    m: ElectionModel,
    signer: Seq<u8>,
    new_phase: ElectionPhase,
    candidate_id: u64,
    candidate_votes: u64,
)
    requires
        m.phase == ElectionPhase::Closed,
    ensures
        m.apply_outcome() == Err::<ElectionModel, ElectionError>(
            ElectionError::RegistrationPhaseClosed,
        ),
        m.vote_outcome(candidate_id, candidate_votes) == Err::<ElectionModel, ElectionError>(
            ElectionError::NotAtVotingPhase,
        ),
        m.change_phase_outcome(signer, new_phase) is Err,
{
}

/// Applications are taken only while registering and votes only while
/// voting.
pub proof fn each_phase_takes_its_own_requests(
    m: ElectionModel,
    candidate_id: u64,
    candidate_votes: u64,
)
    ensures
        m.apply_outcome() is Ok <==> m.phase == ElectionPhase::Registration,
        m.vote_outcome(candidate_id, candidate_votes) is Ok <==> m.phase == ElectionPhase::Voting,
{
}

/// A vote for a candidate that held its tally's count keeps the board
/// showing the leading candidates of the tally with that vote added.
pub proof fn vote_keeps_board_leading(
    m: ElectionModel,
    tally: Map<u64, u64>,
    candidate_id: u64,
)
    requires
        m.wf(),
        m.phase == ElectionPhase::Voting,
        board_reflects(m.winners_id, m.winners_votes_count, m.winners_count as nat, tally),
        tally_of(tally, candidate_id) < u64::MAX,
    ensures
        m.vote_outcome(candidate_id, tally_of(tally, candidate_id)) matches Ok(m2) && board_reflects(
            m2.winners_id,
            m2.winners_votes_count,
            m2.winners_count as nat,
            tally.insert(candidate_id, (tally_of(tally, candidate_id) + 1) as u64),
        ),
{
    lemma_board_after_vote_reflects(
        m.winners_id,
        m.winners_votes_count,
        m.winners_count as nat,
        tally,
        candidate_id,
    );
}

/// On a board that shows the leading candidates, the first winner has the
/// most votes of any candidate; an empty board means no candidate has a vote.
pub proof fn first_winner_has_most_votes(m: ElectionModel, tally: Map<u64, u64>)
    requires
        m.wf(),
        board_reflects(m.winners_id, m.winners_votes_count, m.winners_count as nat, tally),
    ensures
        m.winners_id.len() > 0 ==> tally_of(tally, m.winners_id[0]) == m.winners_votes_count[0],
        m.winners_id.len() > 0 ==> forall|c: u64|
            #[trigger] tally_of(tally, c) <= m.winners_votes_count[0],
        m.winners_id.len() == 0 ==> forall|c: u64| #[trigger] tally_of(tally, c) == 0,
{
    lemma_first_leads(m.winners_id, m.winners_votes_count, m.winners_count as nat, tally);
}

/// A started election's empty board shows the leading candidates of an
/// empty tally.
pub proof fn empty_board_reflects_no_votes(officer: Seq<u8>, winners_count: u8)
    requires
        winners_count > 0,
    ensures
        board_reflects(
            ElectionModel::initiated(officer, winners_count).winners_id,
            ElectionModel::initiated(officer, winners_count).winners_votes_count,
            winners_count as nat,
            Map::empty(),
        ),
{
}


/// How many votes each candidate has after the ballots `ballots` (each a
/// candidate number) were cast, in order.
pub open spec fn ballots_tally(ballots: Seq<u64>) -> Map<u64, u64>
    decreases ballots.len(),
{
    if ballots.len() == 0 {
        Map::empty()
    } else {
        let before = ballots_tally(ballots.drop_last());
        before.insert(ballots.last(), (tally_of(before, ballots.last()) + 1) as u64)
    }
}

/// The election after the ballots `ballots` were cast in order, each vote
/// reporting the candidate's count after it.
pub open spec fn after_ballots(m: ElectionModel, ballots: Seq<u64>) -> ElectionModel
    decreases ballots.len(),
{
    if ballots.len() == 0 {
        m
    } else {
        let before = ballots_tally(ballots.drop_last());
        after_ballots(m, ballots.drop_last()).after_record_vote(
            ballots.last(),
            (tally_of(before, ballots.last()) + 1) as u64,
        )
    }
}

/// No candidate has more votes than ballots were cast.
pub proof fn ballots_tally_bounded(ballots: Seq<u64>, c: u64)
    ensures
        tally_of(ballots_tally(ballots), c) <= ballots.len(),
    decreases ballots.len(),
{
    if ballots.len() > 0 {
        ballots_tally_bounded(ballots.drop_last(), c);
        ballots_tally_bounded(ballots.drop_last(), ballots.last());
    }
}

/// Votes cast one after another in a voting election, from an empty board,
/// leave a well-formed board that shows the leading candidates: its first
/// winner has the most votes of any candidate, and it is empty only when
/// nobody was voted for. Each step is the outcome of a vote instruction for
/// that ballot's candidate.
pub proof fn ballots_elect_the_leaders(m: ElectionModel, ballots: Seq<u64>)
    requires
        m.wf(),
        m.phase == ElectionPhase::Voting,
        m.winners_id.len() == 0,
        ballots.len() < u64::MAX,
    ensures
        after_ballots(m, ballots).wf(),
        after_ballots(m, ballots).phase == ElectionPhase::Voting,
        after_ballots(m, ballots).winners_count == m.winners_count,
        board_reflects(
            after_ballots(m, ballots).winners_id,
            after_ballots(m, ballots).winners_votes_count,
            m.winners_count as nat,
            ballots_tally(ballots),
        ),
        ballots.len() > 0 ==> after_ballots(m, ballots.drop_last()).vote_outcome(
            ballots.last(),
            tally_of(ballots_tally(ballots.drop_last()), ballots.last()),
        ) == Ok::<ElectionModel, ElectionError>(after_ballots(m, ballots)),
        after_ballots(m, ballots).winners_id.len() > 0 ==> forall|c: u64|
            #[trigger] tally_of(ballots_tally(ballots), c)
                <= after_ballots(m, ballots).winners_votes_count[0],
        after_ballots(m, ballots).winners_id.len() > 0 ==> tally_of(
            ballots_tally(ballots),
            after_ballots(m, ballots).winners_id[0],
        ) == after_ballots(m, ballots).winners_votes_count[0],
        after_ballots(m, ballots).winners_id.len() == 0 ==> forall|c: u64|
            #[trigger] tally_of(ballots_tally(ballots), c) == 0,
    decreases ballots.len(),
{
    let after = after_ballots(m, ballots);
    if ballots.len() == 0 {
        assert forall|c: u64| #[trigger] tally_of(ballots_tally(ballots), c) == 0 by {}
    } else {
        let rest = ballots.drop_last();
        let id = ballots.last();
        let before = ballots_tally(rest);
        ballots_elect_the_leaders(m, rest);
        ballots_tally_bounded(rest, id);
        let prev = after_ballots(m, rest);
        lemma_board_after_vote_wf(
            prev.winners_id,
            prev.winners_votes_count,
            prev.winners_count as nat,
            id,
            (tally_of(before, id) + 1) as u64,
        );
        lemma_board_after_vote_reflects(
            prev.winners_id,
            prev.winners_votes_count,
            prev.winners_count as nat,
            before,
            id,
        );
    }
    lemma_first_leads(
        after.winners_id,
        after.winners_votes_count,
        after.winners_count as nat,
        ballots_tally(ballots),
    );
}


/// A new election starts registering, with no candidates, an empty board, the
/// signer as officer and the seats asked for; it is refused only for zero
/// seats, and its first application is accepted and numbered 1.
pub proof fn new_election_starts_registering(officer: Seq<u8>, winners_count: u8)
    ensures
        ElectionModel::initiate_outcome(officer, winners_count) is Ok <==> winners_count > 0,
        ElectionModel::initiate_outcome(officer, winners_count) matches Ok(m) ==> {
            &&& m.phase == ElectionPhase::Registration
            &&& m.candidates_count == 0
            &&& m.election_officer == officer
            &&& m.winners_count == winners_count
            &&& m.winners_id.len() == 0
            &&& m.winners_votes_count.len() == 0
            &&& m.apply_outcome() matches Ok(m2) && m2.candidates_count == 1
        },
{
}

/// Applying changes nothing but the candidate count, which grows by one.
pub proof fn applying_only_counts_the_candidate(m: ElectionModel)
    requires
        m.candidates_count < u64::MAX,
    ensures
        m.apply_outcome() is Ok <==> m.phase == ElectionPhase::Registration,
        m.apply_outcome() matches Ok(m2) ==> {
            &&& m2.candidates_count == m.candidates_count + 1
            &&& m2.phase == m.phase
            &&& m2.election_officer == m.election_officer
            &&& m2.winners_count == m.winners_count
            &&& m2.winners_id == m.winners_id
            &&& m2.winners_votes_count == m.winners_votes_count
        },
{
}

/// Opening the vote changes nothing but the phase: in particular the board
/// is left as it was, so an election enters the vote with the board it had
/// while registering.
pub proof fn opening_the_vote_only_changes_the_phase(m: ElectionModel, signer: Seq<u8>)
    ensures
        m.close_registration_outcome() is Ok <==> m.phase == ElectionPhase::Registration,
        m.close_registration_outcome() matches Ok(m2) ==> {
            &&& m2.phase == ElectionPhase::Voting
            &&& m2.candidates_count == m.candidates_count
            &&& m2.election_officer == m.election_officer
            &&& m2.winners_count == m.winners_count
            &&& m2.winners_id == m.winners_id
            &&& m2.winners_votes_count == m.winners_votes_count
        },
        m.change_phase_outcome(signer, ElectionPhase::Voting) matches Ok(m2) ==> {
            &&& m.phase == ElectionPhase::Registration
            &&& m2.phase == ElectionPhase::Voting
            &&& m2.candidates_count == m.candidates_count
            &&& m2.election_officer == m.election_officer
            &&& m2.winners_count == m.winners_count
            &&& m2.winners_id == m.winners_id
            &&& m2.winners_votes_count == m.winners_votes_count
        },
{
}

/// Closing the vote changes nothing but the phase: every winner on the board
/// stays, with its count, so the board shows the leaders of the tally after
/// closing exactly when it did before.
pub proof fn closing_the_vote_keeps_every_winner(
    m: ElectionModel,
    signer: Seq<u8>,
    tally: Map<u64, u64>,
)
    ensures
        m.close_voting_outcome() is Ok <==> m.phase == ElectionPhase::Voting,
        m.close_voting_outcome() matches Ok(m2) ==> {
            &&& m2.phase == ElectionPhase::Closed
            &&& m2.candidates_count == m.candidates_count
            &&& m2.election_officer == m.election_officer
            &&& m2.winners_count == m.winners_count
            &&& m2.winners_id == m.winners_id
            &&& m2.winners_votes_count == m.winners_votes_count
        },
        m.change_phase_outcome(signer, ElectionPhase::Closed) matches Ok(m2) ==> {
            &&& m.phase == ElectionPhase::Voting
            &&& m2.phase == ElectionPhase::Closed
            &&& m2.candidates_count == m.candidates_count
            &&& m2.election_officer == m.election_officer
            &&& m2.winners_count == m.winners_count
            &&& m2.winners_id == m.winners_id
            &&& m2.winners_votes_count == m.winners_votes_count
            &&& (board_reflects(m2.winners_id, m2.winners_votes_count, m2.winners_count as nat, tally)
                <==> board_reflects(m.winners_id, m.winners_votes_count, m.winners_count as nat, tally))
        },
{
}

/// A vote changes nothing but the board.
pub proof fn voting_only_changes_the_board(
    m: ElectionModel,
    candidate_id: u64,
    candidate_votes: u64,
)
    ensures
        m.vote_outcome(candidate_id, candidate_votes) matches Ok(m2) ==> {
            &&& m2.phase == m.phase
            &&& m2.candidates_count == m.candidates_count
            &&& m2.election_officer == m.election_officer
            &&& m2.winners_count == m.winners_count
        },
{
}

} // verus!
