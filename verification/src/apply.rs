use vstd::prelude::*;
use crate::election_enums::{ElectionError, ElectionPhase};
use crate::initiate_election::ElectionAccount;
use crate::pubkey::PubKey;

verus! {

/// A candidate's number in an election and the address it applied from.
#[derive(Clone, Copy, Debug)]
pub struct CandidateID {
    pub id: u64,
    pub pubkey: PubKey,
}

/// The accounts of the instruction by which a candidate applies.
pub struct Apply {
    pub candidate_id: CandidateID,
    pub election_account: ElectionAccount,
    pub signer: PubKey,
}

/// The signer applies as a candidate while the election is registering: it
/// gets the next candidate number.
pub fn apply(ctx: &mut Apply) -> (r: Result<(), ElectionError>)
    requires
        old(ctx).election_account.phase == ElectionPhase::Registration
            ==> old(ctx).election_account.candidates_count < u64::MAX,
    ensures
        match old(ctx).election_account@.apply_outcome() {
            Ok(m) => {
                &&& r is Ok
                &&& final(ctx).election_account@ == m
                &&& final(ctx).candidate_id.id == m.candidates_count
                &&& final(ctx).candidate_id.pubkey == old(ctx).signer
                &&& final(ctx).signer == old(ctx).signer
            },
            Err(e) => {
                &&& r == Err::<(), ElectionError>(e)
                &&& *final(ctx) == *old(ctx)
            },
        },
{
    if ctx.election_account.phase != ElectionPhase::Registration {
        return Err(ElectionError::RegistrationPhaseClosed);
    }
    ctx.election_account.candidates_count = ctx.election_account.candidates_count + 1;
    ctx.candidate_id.id = ctx.election_account.candidates_count;
    ctx.candidate_id.pubkey = ctx.signer;
    Ok(())
}

} // verus!
