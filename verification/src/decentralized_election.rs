//! The program's instructions, as a client calls them.
use vstd::prelude::*;
use crate::apply::Apply;
use crate::change_phase::ChangePhase;
use crate::election_enums::{ElectionError, ElectionPhase};
use crate::initiate_election::InitiateElection;
use crate::model::ElectionModel;
use crate::register::{CandidateElectionData, Register};
use crate::vote::Vote;

verus! {

/// Starts an election for `winners_count` seats, run by the signer.
pub fn initiate_election(ctx: &mut InitiateElection, winners_count: u8) -> (r: Result<
    (),
    ElectionError,
>)
    ensures
        match ElectionModel::initiate_outcome(old(ctx).signer@, winners_count) {
            Ok(m) => {
                &&& r is Ok
                &&& final(ctx).election_account@ == m
                &&& final(ctx).signer == old(ctx).signer
            },
            Err(e) => {
                &&& r == Err::<(), ElectionError>(e)
                &&& *final(ctx) == *old(ctx)
            },
        },
{
    crate::initiate_election::initiate_election(ctx, winners_count)
}

/// The signer applies as a candidate.
pub fn apply(ctx: &mut Apply) -> (r: Result<(), ElectionError>)
    requires
        old(ctx).election_account.phase == ElectionPhase::Registration
            ==> old(ctx).election_account.candidates_count < u64::MAX,
    ensures
        match old(ctx).election_account@.apply_outcome() {
            Ok(m) => {
                &&& r is Ok
                &&& final(ctx).election_account@ == m
                &&& final(ctx).candidate_id.id == m.candidates_count
                &&& final(ctx).candidate_id.pubkey == old(ctx).signer
                &&& final(ctx).signer == old(ctx).signer
            },
            Err(e) => {
                &&& r == Err::<(), ElectionError>(e)
                &&& *final(ctx) == *old(ctx)
            },
        },
{
    crate::apply::apply(ctx)
}

/// The candidate that applied from the signer's address registers.
pub fn register(ctx: &mut Register) -> (r: Result<(), ElectionError>)
    ensures
        old(ctx).signer@ != old(ctx).candidate_id.pubkey@ ==> {
            &&& r == Err::<(), ElectionError>(ElectionError::WrongPubKey)
            &&& *final(ctx) == *old(ctx)
        },
        old(ctx).signer@ == old(ctx).candidate_id.pubkey@ ==> {
            &&& r is Ok
            &&& final(ctx).candidate_election_data == CandidateElectionData {
                votes: 0,
                id: old(ctx).candidate_id.id,
                pubkey: old(ctx).signer,
            }
            &&& final(ctx).election_account == old(ctx).election_account
            &&& final(ctx).candidate_id == old(ctx).candidate_id
            &&& final(ctx).signer == old(ctx).signer
        },
{
    crate::register::register(ctx)
}

/// The officer moves the election to `new_phase`.
pub fn change_phase(ctx: &mut ChangePhase, new_phase: ElectionPhase) -> (r: Result<
    (),
    ElectionError,
>)
    ensures
        match old(ctx).election_account@.change_phase_outcome(old(ctx).signer@, new_phase) {
            Ok(m) => {
                &&& r is Ok
                &&& final(ctx).election_account@ == m
                &&& final(ctx).signer == old(ctx).signer
            },
            Err(e) => {
                &&& r == Err::<(), ElectionError>(e)
                &&& *final(ctx) == *old(ctx)
            },
        },
{
    crate::change_phase::change_phase(ctx, new_phase)
}

/// The signer votes for a candidate.
pub fn vote(ctx: &mut Vote) -> (r: Result<(), ElectionError>)
    requires
        old(ctx).election_account@.wf(),
        old(ctx).election_account.phase == ElectionPhase::Voting
            ==> old(ctx).candidate_election_data.votes < u64::MAX,
    ensures
        match old(ctx).election_account@.vote_outcome(
            old(ctx).candidate_election_data.id,
            old(ctx).candidate_election_data.votes,
        ) {
            Ok(m) => {
                &&& r is Ok
                &&& final(ctx).election_account@ == m
                &&& final(ctx).candidate_election_data.votes == old(
                    ctx,
                ).candidate_election_data.votes + 1
                &&& final(ctx).candidate_election_data.id == old(ctx).candidate_election_data.id
                &&& final(ctx).candidate_election_data.pubkey == old(
                    ctx,
                ).candidate_election_data.pubkey
                &&& final(ctx).voted_to.id == old(ctx).candidate_election_data.id
                &&& final(ctx).signer == old(ctx).signer
            },
            Err(e) => {
                &&& r == Err::<(), ElectionError>(e)
                &&& *final(ctx) == *old(ctx)
            },
        },
{
    crate::vote::vote(ctx)
}

} // verus!
