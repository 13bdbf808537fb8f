use vstd::prelude::*;
use crate::election_enums::{ElectionError, ElectionPhase};
use crate::initiate_election::ElectionAccount;
use crate::pubkey::PubKey;

verus! {

/// The accounts of the instruction by which the officer moves the election on.
pub struct ChangePhase {
    pub election_account: ElectionAccount,
    pub signer: PubKey,
}

/// The officer ends registration (`Voting`) or ends the vote (`Closed`).
pub fn change_phase(ctx: &mut ChangePhase, new_phase: ElectionPhase) -> (r: Result<
    (),
    ElectionError,
>)
    ensures
        match old(ctx).election_account@.change_phase_outcome(old(ctx).signer@, new_phase) {
            Ok(m) => {
                &&& r is Ok
                &&& final(ctx).election_account@ == m
                &&& final(ctx).signer == old(ctx).signer
            },
            Err(e) => {
                &&& r == Err::<(), ElectionError>(e)
                &&& *final(ctx) == *old(ctx)
            },
        },
{
    if ctx.signer != ctx.election_account.election_officer {
        return Err(ElectionError::PrivilageNotAllowed);
    }
    let election_account = &mut ctx.election_account;
    if election_account.phase == ElectionPhase::Closed {
        return Err(ElectionError::ElectionIsOver);
    }
    match new_phase {
        ElectionPhase::Voting => election_account.close_registration(),
        ElectionPhase::Closed => election_account.close_voting(),
        ElectionPhase::Registration => Err(ElectionError::PrivilageNotAllowed),
    }
}

} // verus!
