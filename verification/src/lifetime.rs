//! What holds of an election over its whole life: from the instruction that
//! starts it, through any sequence of later instructions, each accepted or
//! refused.
use vstd::prelude::*;
use crate::election_enums::{phase_rank, ElectionPhase};
use crate::leaderboard::{
    board_reflects,
    lemma_board_after_vote_positive,
    lemma_board_after_vote_reflects,
    lemma_board_after_vote_wf,
    lemma_first_leads,
    tally_of,
};
use crate::model::ElectionModel;

verus! {

/// An instruction sent to a started election, with what it carries that
/// matters to the election account.
pub enum Instruction {
    /// A candidate applies.
    Apply,
    /// A candidate registers; this never touches the election account,
    /// whether it is accepted or refused.
    Register,
    /// `signer` asks to move the election to `new_phase`.
    ChangePhase { signer: Seq<u8>, new_phase: ElectionPhase },
    /// A vote for candidate `candidate_id`, which held `candidate_votes` votes.
    Vote { candidate_id: u64, candidate_votes: u64 },
}

/// The election account after instruction `i`: its outcome when accepted,
/// the account as it was when refused.
pub open spec fn after(m: ElectionModel, i: Instruction) -> ElectionModel {
    let outcome = match i {
        Instruction::Apply => m.apply_outcome(),
        Instruction::Register => Ok(m),
        Instruction::ChangePhase { signer, new_phase } => m.change_phase_outcome(signer, new_phase),
        Instruction::Vote { candidate_id, candidate_votes } => m.vote_outcome(
            candidate_id,
            candidate_votes,
        ),
    };
    match outcome {
        Ok(m2) => m2,
        Err(_) => m,
    }
}

/// The election account after the instructions `instrs`, in order.
pub open spec fn run(m: ElectionModel, instrs: Seq<Instruction>) -> ElectionModel
    decreases instrs.len(),
{
    if instrs.len() == 0 {
        m
    } else {
        after(run(m, instrs.drop_last()), instrs.last())
    }
}

/// The candidate numbers that the accepted applications among `instrs` gave
/// out, in the order of the instructions.
pub open spec fn numbers_given(m: ElectionModel, instrs: Seq<Instruction>) -> Seq<u64>
    decreases instrs.len(),
{
    if instrs.len() == 0 {
        Seq::empty()
    } else {
        let before = numbers_given(m, instrs.drop_last());
        match (instrs.last(), run(m, instrs.drop_last()).apply_outcome()) {
            (Instruction::Apply, Ok(m2)) => before.push(m2.candidates_count),
            _ => before,
        }
    }
}

/// The numbers 1, 2, ..., n.
pub open spec fn first_numbers(n: nat) -> Seq<u64> {
    Seq::new(n, |i: int| (i + 1) as u64)
}

/// No instruction moves the phase back.
pub proof fn lemma_after_keeps_phase_order(m: ElectionModel, i: Instruction)
    ensures
        phase_rank(after(m, i).phase) >= phase_rank(m.phase),
{
}

/// After the instructions that follow the start of an election, the officer
/// and the number of seats are those it was started with, the account is
/// well formed, and the candidate count is the number of numbers given out,
/// which are 1, 2, ..., n in order.
pub proof fn lemma_run_from_start(officer: Seq<u8>, winners_count: u8, instrs: Seq<Instruction>)
    requires
        winners_count > 0,
        instrs.len() < u64::MAX,
    ensures
        run(ElectionModel::initiated(officer, winners_count), instrs).election_officer == officer,
        run(ElectionModel::initiated(officer, winners_count), instrs).winners_count == winners_count,
        run(ElectionModel::initiated(officer, winners_count), instrs).wf(),
        run(ElectionModel::initiated(officer, winners_count), instrs).candidates_count
            <= instrs.len(),
        numbers_given(ElectionModel::initiated(officer, winners_count), instrs) == first_numbers(
            run(ElectionModel::initiated(officer, winners_count), instrs).candidates_count as nat,
        ),
    decreases instrs.len(),
{
    let m0 = ElectionModel::initiated(officer, winners_count);
    if instrs.len() > 0 {
        let rest = instrs.drop_last();
        lemma_run_from_start(officer, winners_count, rest);
        let prev = run(m0, rest);
        let numbers = numbers_given(m0, rest);
        match instrs.last() {
            Instruction::Apply => {
                if let Ok(m2) = prev.apply_outcome() {
                    assert(numbers.push(m2.candidates_count) =~= first_numbers(
                        m2.candidates_count as nat,
                    ));
                }
            },
            Instruction::Vote { candidate_id, candidate_votes } => {
                lemma_board_after_vote_wf(
                    prev.winners_id,
                    prev.winners_votes_count,
                    prev.winners_count as nat,
                    candidate_id,
                    (candidate_votes + 1) as u64,
                );
            },
            _ => {},
        }
    } else {
        assert(numbers_given(m0, instrs) =~= first_numbers(0));
    }
}

/// Between two points of a run, the phase never goes back.
pub proof fn lemma_run_keeps_phase_order(
    m: ElectionModel,
    instrs: Seq<Instruction>,
    i: int,
    j: int,
)
    requires
        0 <= i <= j <= instrs.len(),
    ensures
        phase_rank(run(m, instrs.take(i)).phase) <= phase_rank(run(m, instrs.take(j)).phase),
    decreases j - i,
{
    if i < j {
        lemma_run_keeps_phase_order(m, instrs, i, j - 1);
        assert(instrs.take(j).drop_last() =~= instrs.take(j - 1));
        lemma_after_keeps_phase_order(run(m, instrs.take(j - 1)), instrs[j - 1]);
    }
}

/// An election started by `officer` for `winners_count` seats, followed by
/// any sequence of instructions, accepted or refused: at every point the
/// officer and the number of seats are unchanged, the account is well formed,
/// so the board never holds more entries than seats and the account fits the
/// space made for it, and the phase never goes back, so a closed election
/// stays closed and no election returns to registration once it has left it.
pub proof fn election_lifetime(officer: Seq<u8>, winners_count: u8, instrs: Seq<Instruction>)
    requires
        winners_count > 0,
        instrs.len() < u64::MAX,
    ensures
        forall|i: int|
            0 <= i <= instrs.len() ==> {
                let m = #[trigger] run(
                    ElectionModel::initiated(officer, winners_count),
                    instrs.take(i),
                );
                &&& m.election_officer == officer
                &&& m.winners_count == winners_count
                &&& m.wf()
                &&& m.winners_id.len() <= winners_count
                &&& m.winners_votes_count.len() <= winners_count
            },
        forall|i: int, j: int|
            0 <= i <= j <= instrs.len() ==> phase_rank(
                #[trigger] run(ElectionModel::initiated(officer, winners_count), instrs.take(i)).phase,
            ) <= phase_rank(
                #[trigger] run(ElectionModel::initiated(officer, winners_count), instrs.take(j)).phase,
            ),
        forall|i: int, j: int|
            0 <= i <= j <= instrs.len() && #[trigger] run(
                ElectionModel::initiated(officer, winners_count),
                instrs.take(i),
            ).phase == ElectionPhase::Closed ==> #[trigger] run(
                ElectionModel::initiated(officer, winners_count),
                instrs.take(j),
            ).phase == ElectionPhase::Closed,
        forall|i: int, j: int|
            0 <= i <= j <= instrs.len() && #[trigger] run(
                ElectionModel::initiated(officer, winners_count),
                instrs.take(i),
            ).phase != ElectionPhase::Registration ==> #[trigger] run(
                ElectionModel::initiated(officer, winners_count),
                instrs.take(j),
            ).phase != ElectionPhase::Registration,
{
    let m0 = ElectionModel::initiated(officer, winners_count);
    assert forall|i: int| 0 <= i <= instrs.len() implies {
        let m = #[trigger] run(m0, instrs.take(i));
        &&& m.election_officer == officer
        &&& m.winners_count == winners_count
        &&& m.wf()
        &&& m.winners_id.len() <= winners_count
        &&& m.winners_votes_count.len() <= winners_count
    } by {
        lemma_run_from_start(officer, winners_count, instrs.take(i));
    }
    assert forall|i: int, j: int| 0 <= i <= j <= instrs.len() implies phase_rank(
        #[trigger] run(m0, instrs.take(i)).phase,
    ) <= phase_rank(#[trigger] run(m0, instrs.take(j)).phase) by {
        lemma_run_keeps_phase_order(m0, instrs, i, j);
    }
}

/// An election started by `officer` for `winners_count` seats, followed by
/// any sequence of instructions: the candidate count is the number of
/// accepted applications, and the numbers they were given are 1, 2, ..., n in
/// the order they were accepted, so no two candidates share a number, none is
/// skipped and none exceeds the count.
pub proof fn candidates_numbered_in_order(
    officer: Seq<u8>,
    winners_count: u8,
    instrs: Seq<Instruction>,
)
    requires
        winners_count > 0,
        instrs.len() < u64::MAX,
    ensures
        numbers_given(ElectionModel::initiated(officer, winners_count), instrs).len()
            == run(ElectionModel::initiated(officer, winners_count), instrs).candidates_count,
        forall|k: int|
            0 <= k < numbers_given(ElectionModel::initiated(officer, winners_count), instrs).len()
                ==> #[trigger] numbers_given(
                ElectionModel::initiated(officer, winners_count),
                instrs,
            )[k] == k + 1,
{
    lemma_run_from_start(officer, winners_count, instrs);
}


/// How many accepted votes each candidate received among `instrs`.
pub open spec fn votes_tally(m: ElectionModel, instrs: Seq<Instruction>) -> Map<u64, u64>
    decreases instrs.len(),
{
    if instrs.len() == 0 {
        Map::empty()
    } else {
        let before = votes_tally(m, instrs.drop_last());
        match instrs.last() {
            Instruction::Vote { candidate_id, candidate_votes } => {
                if run(m, instrs.drop_last()).phase == ElectionPhase::Voting {
                    before.insert(candidate_id, (tally_of(before, candidate_id) + 1) as u64)
                } else {
                    before
                }
            },
            _ => before,
        }
    }
}

/// Every accepted vote among `instrs` carries the count its candidate had
/// received so far, as the candidate's own account holds it.
pub open spec fn votes_carry_counts(m: ElectionModel, instrs: Seq<Instruction>) -> bool
    decreases instrs.len(),
{
    if instrs.len() == 0 {
        true
    } else {
        &&& votes_carry_counts(m, instrs.drop_last())
        &&& match instrs.last() {
            Instruction::Vote { candidate_id, candidate_votes } => run(
                m,
                instrs.drop_last(),
            ).phase == ElectionPhase::Voting ==> candidate_votes == tally_of(
                votes_tally(m, instrs.drop_last()),
                candidate_id,
            ),
            _ => true,
        }
    }
}

/// No candidate has more accepted votes than there were instructions.
pub proof fn lemma_votes_tally_bounded(m: ElectionModel, instrs: Seq<Instruction>, c: u64)
    ensures
        tally_of(votes_tally(m, instrs), c) <= instrs.len(),
    decreases instrs.len(),
{
    if instrs.len() > 0 {
        lemma_votes_tally_bounded(m, instrs.drop_last(), c);
        if let Instruction::Vote { candidate_id, candidate_votes } = instrs.last() {
            lemma_votes_tally_bounded(m, instrs.drop_last(), candidate_id);
        }
    }
}

/// An election started by `officer` for `winners_count` seats, followed by
/// any sequence of instructions in which each accepted vote carries its
/// candidate's count so far: the board holds exactly the leaders of the
/// accepted votes. Each entry carries the number of accepted votes for its
/// candidate, every count on it is positive, a candidate left off has no
/// more votes than the last entry, the first winner has the most votes of
/// any candidate, and while no vote has been accepted the board is empty.
/// So only votes put candidates on the board; applying, registering and
/// phase changes never do, and closing the vote keeps every winner.
pub proof fn board_holds_leaders_of_accepted_votes(
    officer: Seq<u8>,
    winners_count: u8,
    instrs: Seq<Instruction>,
)
    requires
        winners_count > 0,
        instrs.len() < u64::MAX,
        votes_carry_counts(ElectionModel::initiated(officer, winners_count), instrs),
    ensures
        board_reflects(
            run(ElectionModel::initiated(officer, winners_count), instrs).winners_id,
            run(ElectionModel::initiated(officer, winners_count), instrs).winners_votes_count,
            winners_count as nat,
            votes_tally(ElectionModel::initiated(officer, winners_count), instrs),
        ),
        forall|i: int|
            0 <= i < run(
                ElectionModel::initiated(officer, winners_count),
                instrs,
            ).winners_votes_count.len() ==> #[trigger] run(
                ElectionModel::initiated(officer, winners_count),
                instrs,
            ).winners_votes_count[i] > 0,
        votes_tally(ElectionModel::initiated(officer, winners_count), instrs) == Map::<
            u64,
            u64,
        >::empty() ==> run(ElectionModel::initiated(officer, winners_count), instrs).winners_id.len()
            == 0,
        run(ElectionModel::initiated(officer, winners_count), instrs).winners_id.len() > 0
            ==> forall|c: u64|
            #[trigger] tally_of(votes_tally(ElectionModel::initiated(officer, winners_count), instrs), c)
                <= run(ElectionModel::initiated(officer, winners_count), instrs).winners_votes_count[0],
    decreases instrs.len(),
{
    let m0 = ElectionModel::initiated(officer, winners_count);
    let m = run(m0, instrs);
    let t = votes_tally(m0, instrs);
    lemma_run_from_start(officer, winners_count, instrs);
    if instrs.len() > 0 {
        let rest = instrs.drop_last();
        board_holds_leaders_of_accepted_votes(officer, winners_count, rest);
        lemma_run_from_start(officer, winners_count, rest);
        let prev = run(m0, rest);
        let before = votes_tally(m0, rest);
        if let Instruction::Vote { candidate_id, candidate_votes } = instrs.last() {
            if prev.phase == ElectionPhase::Voting {
                lemma_votes_tally_bounded(m0, rest, candidate_id);
                lemma_board_after_vote_reflects(
                    prev.winners_id,
                    prev.winners_votes_count,
                    prev.winners_count as nat,
                    before,
                    candidate_id,
                );
                lemma_board_after_vote_positive(
                    prev.winners_id,
                    prev.winners_votes_count,
                    prev.winners_count as nat,
                    candidate_id,
                    (candidate_votes + 1) as u64,
                );
            }
        }
    } else {
        assert forall|c: u64| !m.winners_id.contains(c) && tally_of(t, c) > 0 implies {
            &&& m.winners_id.len() == winners_count as nat
            &&& m.winners_id.len() > 0
            &&& #[trigger] tally_of(t, c) <= m.winners_votes_count.last()
        } by {}
    }
    if t == Map::<u64, u64>::empty() && m.winners_id.len() > 0 {
        assert(m.winners_votes_count[0] == tally_of(t, m.winners_id[0]));
    }
    lemma_first_leads(m.winners_id, m.winners_votes_count, winners_count as nat, t);
}

} // verus!
