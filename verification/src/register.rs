use vstd::prelude::*;
use crate::apply::CandidateID;
use crate::election_enums::ElectionError;
use crate::initiate_election::ElectionAccount;
use crate::pubkey::PubKey;

verus! {

/// A registered candidate's standing in an election.
#[derive(Clone, Copy, Debug)]
pub struct CandidateElectionData {
    pub votes: u64,
    pub id: u64,
    pub pubkey: PubKey,
}

/// The accounts of the instruction by which a candidate registers.
pub struct Register {
    pub candidate_election_data: CandidateElectionData,
    pub election_account: ElectionAccount,
    pub candidate_id: CandidateID,
    pub signer: PubKey,
}

/// The candidate that applied from the signer's address registers: its
/// standing starts with no votes under its candidate number.
pub fn register(ctx: &mut Register) -> (r: Result<(), ElectionError>)
    ensures
        old(ctx).signer@ != old(ctx).candidate_id.pubkey@ ==> {
            &&& r == Err::<(), ElectionError>(ElectionError::WrongPubKey)
            &&& *final(ctx) == *old(ctx)
        },
        old(ctx).signer@ == old(ctx).candidate_id.pubkey@ ==> {
            &&& r is Ok
            &&& final(ctx).candidate_election_data == CandidateElectionData {
                votes: 0,
                id: old(ctx).candidate_id.id,
                pubkey: old(ctx).signer,
            }
            &&& final(ctx).election_account == old(ctx).election_account
            &&& final(ctx).candidate_id == old(ctx).candidate_id
            &&& final(ctx).signer == old(ctx).signer
        },
{
    if ctx.signer != ctx.candidate_id.pubkey {
        return Err(ElectionError::WrongPubKey);
    }
    let candidate = &mut ctx.candidate_election_data;
    candidate.votes = 0;
    candidate.pubkey = ctx.signer;
    candidate.id = ctx.candidate_id.id;
    Ok(())
}

} // verus!
