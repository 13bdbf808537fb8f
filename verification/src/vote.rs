use vstd::prelude::*;
use crate::election_enums::{ElectionError, ElectionPhase};
use crate::initiate_election::ElectionAccount;
use crate::pubkey::PubKey;
use crate::register::CandidateElectionData;

verus! {

/// The record of whom a voter voted for.
#[derive(Clone, Copy, Debug)]
pub struct VotedTo {
    pub id: u64,
}

/// The accounts of the instruction by which the signer votes.
pub struct Vote {
    pub voted_to: VotedTo,
    pub candidate_election_data: CandidateElectionData,
    pub signer: PubKey,
    pub election_account: ElectionAccount,
}

/// The signer votes for a candidate while the election is voting: the
/// candidate gains a vote, the voter's record names it, and the board of
/// winners learns the candidate's new count.
pub fn vote(ctx: &mut Vote) -> (r: Result<(), ElectionError>)
    requires
        old(ctx).election_account@.wf(),
        old(ctx).election_account.phase == ElectionPhase::Voting
            ==> old(ctx).candidate_election_data.votes < u64::MAX,
    ensures
        match old(ctx).election_account@.vote_outcome(
            old(ctx).candidate_election_data.id,
            old(ctx).candidate_election_data.votes,
        ) {
            Ok(m) => {
                &&& r is Ok
                &&& final(ctx).election_account@ == m
                &&& final(ctx).candidate_election_data.votes == old(
                    ctx,
                ).candidate_election_data.votes + 1
                &&& final(ctx).candidate_election_data.id == old(ctx).candidate_election_data.id
                &&& final(ctx).candidate_election_data.pubkey == old(
                    ctx,
                ).candidate_election_data.pubkey
                &&& final(ctx).voted_to.id == old(ctx).candidate_election_data.id
                &&& final(ctx).signer == old(ctx).signer
            },
            Err(e) => {
                &&& r == Err::<(), ElectionError>(e)
                &&& *final(ctx) == *old(ctx)
            },
        },
{
    if ctx.election_account.phase != ElectionPhase::Voting {
        return Err(ElectionError::NotAtVotingPhase);
    }
    let candidate = &mut ctx.candidate_election_data;
    candidate.votes = candidate.votes + 1;
    ctx.voted_to.id = candidate.id;
    ctx.election_account.record_vote(candidate.id, candidate.votes);
    Ok(())
}

} // verus!
