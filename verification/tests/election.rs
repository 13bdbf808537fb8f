use decentralized_election::apply::{apply, Apply, CandidateID};
use decentralized_election::change_phase::{change_phase, ChangePhase};
use decentralized_election::decentralized_election as program;
use decentralized_election::election_enums::{ElectionError, ElectionPhase};
use decentralized_election::initiate_election::{initiate_election, ElectionAccount, InitiateElection};
use decentralized_election::pubkey::PubKey;
use decentralized_election::register::{register, CandidateElectionData, Register};
use decentralized_election::vote::{vote, Vote, VotedTo};

fn key(b: u8) -> PubKey {
    PubKey::new([b; 32])
}

fn zeroed_account() -> ElectionAccount {
    ElectionAccount {
        candidates_count: 0,
        phase: ElectionPhase::Registration,
        election_officer: key(0),
        winners_count: 0,
        winners_id: Vec::new(),
        winners_votes_count: Vec::new(),
    }
}

fn started(officer: PubKey, seats: u8) -> ElectionAccount {
    let mut ctx = InitiateElection { election_account: zeroed_account(), signer: officer };
    assert_eq!(initiate_election(&mut ctx, seats), Ok(()));
    ctx.election_account
}

fn in_voting(seats: u8) -> ElectionAccount {
    let mut acct = started(key(9), seats);
    acct.phase = ElectionPhase::Voting;
    acct
}

fn fresh_candidate_id() -> CandidateID {
    CandidateID { id: 0, pubkey: key(0) }
}

fn cast(acct: ElectionAccount, candidate: CandidateElectionData, voter: PubKey) -> (Result<(), ElectionError>, Vote) {
    let mut ctx = Vote {
        voted_to: VotedTo { id: 0 },
        candidate_election_data: candidate,
        signer: voter,
        election_account: acct,
    };
    let r = vote(&mut ctx);
    (r, ctx)
}

fn candidate(id: u64, votes: u64) -> CandidateElectionData {
    CandidateElectionData { votes, id, pubkey: key(id as u8) }
}

#[test]
fn full_election_declares_the_winner() {
    let officer = key(7);
    let alice = key(1);
    let bob = key(2);

    let acct = started(officer, 1);
    assert_eq!(acct.candidates_count, 0);
    assert_eq!(acct.winners_count, 1);
    assert_eq!(acct.phase, ElectionPhase::Registration);
    assert_eq!(acct.election_officer, officer);

    let mut a = Apply { candidate_id: fresh_candidate_id(), election_account: acct, signer: alice };
    assert_eq!(program::apply(&mut a), Ok(()));
    assert_eq!(a.election_account.candidates_count, 1);
    assert_eq!(a.candidate_id.id, 1);
    assert_eq!(a.candidate_id.pubkey, alice);
    let alice_id = a.candidate_id;

    let mut r = Register {
        candidate_election_data: candidate(0, 5),
        election_account: a.election_account,
        candidate_id: alice_id,
        signer: alice,
    };
    assert_eq!(program::register(&mut r), Ok(()));
    assert_eq!(r.candidate_election_data.id, alice_id.id);
    assert_eq!(r.candidate_election_data.pubkey, alice_id.pubkey);
    assert_eq!(r.candidate_election_data.votes, 0);
    let alice_data = r.candidate_election_data;

    let mut b = Apply { candidate_id: fresh_candidate_id(), election_account: r.election_account, signer: bob };
    assert_eq!(program::apply(&mut b), Ok(()));
    assert_eq!(b.election_account.candidates_count, 2);
    assert_eq!(b.candidate_id.id, 2);
    assert_eq!(b.candidate_id.pubkey, bob);

    let mut c = ChangePhase { election_account: b.election_account, signer: officer };
    assert_eq!(program::change_phase(&mut c, ElectionPhase::Voting), Ok(()));
    assert_eq!(c.election_account.phase, ElectionPhase::Voting);

    let mut v = Vote {
        voted_to: VotedTo { id: 0 },
        candidate_election_data: alice_data,
        signer: alice,
        election_account: c.election_account,
    };
    assert_eq!(program::vote(&mut v), Ok(()));
    assert_eq!(v.voted_to.id, 1);
    assert_eq!(v.candidate_election_data.votes, 1);

    let mut v2 = Vote {
        voted_to: VotedTo { id: 0 },
        candidate_election_data: v.candidate_election_data,
        signer: bob,
        election_account: v.election_account,
    };
    assert_eq!(program::vote(&mut v2), Ok(()));
    assert_eq!(v2.voted_to.id, 1);
    assert_eq!(v2.candidate_election_data.votes, 2);

    let mut close = ChangePhase { election_account: v2.election_account, signer: officer };
    assert_eq!(program::change_phase(&mut close, ElectionPhase::Closed), Ok(()));
    assert_eq!(close.election_account.phase, ElectionPhase::Closed);
    assert_eq!(close.election_account.winners_id, vec![1]);
    assert_eq!(close.election_account.winners_votes_count, vec![2]);
}

#[test]
fn zero_winners_is_refused() {
    let mut ctx = InitiateElection { election_account: zeroed_account(), signer: key(3) };
    assert_eq!(program::initiate_election(&mut ctx, 0), Err(ElectionError::WinnerCountNotAllowed));
    assert_eq!(ctx.election_account.winners_count, 0);
    assert_eq!(ctx.election_account.election_officer, key(0));
}

#[test]
fn initiate_clears_the_account() {
    let mut acct = zeroed_account();
    acct.candidates_count = 4;
    acct.phase = ElectionPhase::Closed;
    acct.winners_id = vec![3];
    acct.winners_votes_count = vec![8];
    let mut ctx = InitiateElection { election_account: acct, signer: key(3) };
    assert_eq!(initiate_election(&mut ctx, 3), Ok(()));
    assert_eq!(ctx.election_account.candidates_count, 0);
    assert_eq!(ctx.election_account.phase, ElectionPhase::Registration);
    assert_eq!(ctx.election_account.election_officer, key(3));
    assert_eq!(ctx.election_account.winners_count, 3);
    assert!(ctx.election_account.winners_id.is_empty());
    assert!(ctx.election_account.winners_votes_count.is_empty());
}

#[test]
fn apply_outside_registration_is_refused() {
    for phase in [ElectionPhase::Voting, ElectionPhase::Closed] {
        let mut acct = started(key(9), 2);
        acct.phase = phase;
        let mut a = Apply { candidate_id: fresh_candidate_id(), election_account: acct, signer: key(1) };
        assert_eq!(program::apply(&mut a), Err(ElectionError::RegistrationPhaseClosed));
        assert_eq!(a.election_account.candidates_count, 0);
        assert_eq!(a.candidate_id.id, 0);
        assert_eq!(a.candidate_id.pubkey, key(0));
    }
}

#[test]
fn register_with_wrong_key_is_refused() {
    let mut r = Register {
        candidate_election_data: candidate(0, 5),
        election_account: started(key(9), 1),
        candidate_id: CandidateID { id: 4, pubkey: key(1) },
        signer: key(2),
    };
    assert_eq!(register(&mut r), Err(ElectionError::WrongPubKey));
    assert_eq!(r.candidate_election_data.votes, 5);
    assert_eq!(r.candidate_election_data.id, 0);
}

#[test]
fn register_ignores_the_phase() {
    let mut acct = started(key(9), 1);
    acct.phase = ElectionPhase::Closed;
    let mut r = Register {
        candidate_election_data: candidate(0, 5),
        election_account: acct,
        candidate_id: CandidateID { id: 4, pubkey: key(1) },
        signer: key(1),
    };
    assert_eq!(register(&mut r), Ok(()));
    assert_eq!(r.candidate_election_data.id, 4);
    assert_eq!(r.candidate_election_data.votes, 0);
}

#[test]
fn change_phase_by_stranger_is_refused() {
    let mut c = ChangePhase { election_account: started(key(9), 1), signer: key(8) };
    assert_eq!(change_phase(&mut c, ElectionPhase::Voting), Err(ElectionError::PrivilageNotAllowed));
    assert_eq!(c.election_account.phase, ElectionPhase::Registration);
}

#[test]
fn change_phase_of_closed_election_is_refused() {
    let mut acct = started(key(9), 1);
    acct.phase = ElectionPhase::Closed;
    for target in [ElectionPhase::Registration, ElectionPhase::Voting, ElectionPhase::Closed] {
        let mut c = ChangePhase { election_account: acct.clone(), signer: key(9) };
        assert_eq!(change_phase(&mut c, target), Err(ElectionError::ElectionIsOver));
        assert_eq!(c.election_account.phase, ElectionPhase::Closed);
    }
}

#[test]
fn change_phase_back_to_registration_is_refused() {
    let mut c = ChangePhase { election_account: started(key(9), 1), signer: key(9) };
    assert_eq!(change_phase(&mut c, ElectionPhase::Registration), Err(ElectionError::PrivilageNotAllowed));
    assert_eq!(c.election_account.phase, ElectionPhase::Registration);
}

#[test]
fn closing_without_voting_is_refused() {
    let mut c = ChangePhase { election_account: started(key(9), 1), signer: key(9) };
    assert_eq!(change_phase(&mut c, ElectionPhase::Closed), Err(ElectionError::NotAtVotingPhase));
    assert_eq!(c.election_account.phase, ElectionPhase::Registration);
}

#[test]
fn opening_the_vote_twice_is_refused() {
    let mut c = ChangePhase { election_account: in_voting(1), signer: key(9) };
    assert_eq!(change_phase(&mut c, ElectionPhase::Voting), Err(ElectionError::RegistrationPhaseClosed));
    assert_eq!(c.election_account.phase, ElectionPhase::Voting);
}

#[test]
fn close_registration_and_voting_directly() {
    let mut acct = started(key(9), 1);
    assert_eq!(acct.close_voting(), Err(ElectionError::NotAtVotingPhase));
    assert_eq!(acct.close_registration(), Ok(()));
    assert_eq!(acct.phase, ElectionPhase::Voting);
    assert_eq!(acct.close_registration(), Err(ElectionError::RegistrationPhaseClosed));
    assert_eq!(acct.close_voting(), Ok(()));
    assert_eq!(acct.phase, ElectionPhase::Closed);
}

#[test]
fn vote_outside_voting_is_refused() {
    for phase in [ElectionPhase::Registration, ElectionPhase::Closed] {
        let mut acct = started(key(9), 1);
        acct.phase = phase;
        let (r, ctx) = cast(acct, candidate(1, 3), key(5));
        assert_eq!(r, Err(ElectionError::NotAtVotingPhase));
        assert_eq!(ctx.candidate_election_data.votes, 3);
        assert_eq!(ctx.voted_to.id, 0);
        assert!(ctx.election_account.winners_id.is_empty());
    }
}

#[test]
fn board_keeps_leaders_in_order() {
    // three seats, four candidates
    let ballots: [u64; 9] = [1, 2, 3, 3, 4, 4, 4, 2, 2];
    let mut tally = [0u64; 5];
    let mut acct = in_voting(3);
    for id in ballots {
        let (r, ctx) = cast(acct, candidate(id, tally[id as usize]), key(id as u8));
        assert_eq!(r, Ok(()));
        tally[id as usize] += 1;
        assert_eq!(ctx.candidate_election_data.votes, tally[id as usize]);
        acct = ctx.election_account;
    }
    assert_eq!(acct.winners_id, vec![4, 2, 3]);
    assert_eq!(acct.winners_votes_count, vec![3, 3, 2]);
}

#[test]
fn new_leader_replaces_last_seat() {
    let mut acct = in_voting(1);
    for (id, before) in [(5u64, 0u64), (6, 0), (6, 1)] {
        let (r, ctx) = cast(acct, candidate(id, before), key(1));
        assert_eq!(r, Ok(()));
        acct = ctx.election_account;
    }
    assert_eq!(acct.winners_id, vec![6]);
    assert_eq!(acct.winners_votes_count, vec![2]);
}

#[test]
fn tie_does_not_take_a_seat() {
    let mut acct = in_voting(1);
    for (id, before) in [(5u64, 0u64), (6, 0)] {
        let (r, ctx) = cast(acct, candidate(id, before), key(1));
        assert_eq!(r, Ok(()));
        acct = ctx.election_account;
    }
    assert_eq!(acct.winners_id, vec![5]);
    assert_eq!(acct.winners_votes_count, vec![1]);
}

#[test]
fn record_vote_ignores_a_stale_count() {
    let mut acct = in_voting(2);
    acct.record_vote(3, 4);
    acct.record_vote(7, 2);
    acct.record_vote(3, 1);
    assert_eq!(acct.winners_id, vec![3, 7]);
    assert_eq!(acct.winners_votes_count, vec![4, 2]);
    acct.record_vote(7, 5);
    assert_eq!(acct.winners_id, vec![7, 3]);
    assert_eq!(acct.winners_votes_count, vec![5, 4]);
}

#[test]
fn pubkey_equality_is_bytewise() {
    let mut a = [1u8; 32];
    let b = a;
    assert!(PubKey::new(a).same_as(&PubKey::new(b)));
    a[31] = 2;
    assert!(!PubKey::new(a).same_as(&PubKey::new(b)));
    assert!(PubKey::new(a) != PubKey::new(b));
    assert_eq!(PubKey::new(a).to_bytes(), a);
}

#[test]
fn error_messages() {
    assert_eq!(ElectionError::WinnerCountNotAllowed.message(), "At least 1 winner required");
    assert_eq!(ElectionError::RegistrationPhaseClosed.message(), "Currently not accepting registrations");
    assert_eq!(ElectionError::WrongPubKey.message(), "Please ensure only valid candidate can register");
    assert_eq!(ElectionError::PrivilageNotAllowed.message(), "You don't have permission to perform this operation");
    assert_eq!(ElectionError::NotAtVotingPhase.message(), "It is not voting phase");
    assert_eq!(ElectionError::ElectionIsOver.message(), "Elections are closed");
}

#[test]
fn candidates_are_numbered_in_order() {
    let mut acct = started(key(9), 2);
    for (n, who) in [(1u64, 1u8), (2, 2), (3, 3)] {
        let mut a = Apply { candidate_id: fresh_candidate_id(), election_account: acct, signer: key(who) };
        assert_eq!(apply(&mut a), Ok(()));
        assert_eq!(a.candidate_id.id, n);
        assert_eq!(a.candidate_id.pubkey, key(who));
        assert_eq!(a.election_account.candidates_count, n);
        acct = a.election_account;
    }
}

#[test]
fn phases_only_move_forward() {
    let officer = key(9);
    let mut c = ChangePhase { election_account: started(officer, 1), signer: officer };
    assert_eq!(change_phase(&mut c, ElectionPhase::Voting), Ok(()));
    assert_eq!(c.election_account.phase, ElectionPhase::Voting);
    assert_eq!(change_phase(&mut c, ElectionPhase::Registration), Err(ElectionError::PrivilageNotAllowed));
    assert_eq!(c.election_account.phase, ElectionPhase::Voting);
    assert_eq!(change_phase(&mut c, ElectionPhase::Closed), Ok(()));
    assert_eq!(c.election_account.phase, ElectionPhase::Closed);
    assert_eq!(change_phase(&mut c, ElectionPhase::Voting), Err(ElectionError::ElectionIsOver));
    assert_eq!(c.election_account.phase, ElectionPhase::Closed);
}

#[test]
fn well_formed_accounts() {
    assert!(!zeroed_account().is_well_formed());
    let mut acct = in_voting(2);
    assert!(acct.is_well_formed());
    acct.winners_id = vec![1, 2];
    acct.winners_votes_count = vec![1, 3];
    assert!(!acct.is_well_formed());
    acct.winners_votes_count = vec![3, 3];
    assert!(acct.is_well_formed());
    acct.winners_id = vec![2, 2];
    assert!(!acct.is_well_formed());
    acct.winners_id = vec![1, 2, 3];
    acct.winners_votes_count = vec![3, 2, 1];
    assert!(!acct.is_well_formed());
}

#[test]
fn numbering_and_officer_survive_a_whole_election() {
    let officer = key(9);
    let mut acct = started(officer, 2);
    let mut given = Vec::new();
    // two applications, a refused phase change, a third application
    for who in [1u8, 2] {
        let mut a = Apply { candidate_id: fresh_candidate_id(), election_account: acct, signer: key(who) };
        assert_eq!(apply(&mut a), Ok(()));
        given.push(a.candidate_id.id);
        acct = a.election_account;
    }
    let mut c = ChangePhase { election_account: acct, signer: key(3) };
    assert_eq!(change_phase(&mut c, ElectionPhase::Voting), Err(ElectionError::PrivilageNotAllowed));
    let mut a = Apply { candidate_id: fresh_candidate_id(), election_account: c.election_account, signer: key(3) };
    assert_eq!(apply(&mut a), Ok(()));
    given.push(a.candidate_id.id);
    // voting starts; later applications are refused and give out no number
    let mut c = ChangePhase { election_account: a.election_account, signer: officer };
    assert_eq!(change_phase(&mut c, ElectionPhase::Voting), Ok(()));
    let mut late = Apply { candidate_id: fresh_candidate_id(), election_account: c.election_account, signer: key(4) };
    assert_eq!(apply(&mut late), Err(ElectionError::RegistrationPhaseClosed));
    assert_eq!(late.candidate_id.id, 0);
    let (r, v) = cast(late.election_account, candidate(2, 0), key(5));
    assert_eq!(r, Ok(()));
    let acct = v.election_account;
    assert_eq!(given, vec![1, 2, 3]);
    assert_eq!(acct.candidates_count, 3);
    assert_eq!(acct.election_officer, officer);
    assert_eq!(acct.winners_count, 2);
    assert!(acct.winners_id.len() <= 2);
    assert_eq!(acct.phase, ElectionPhase::Voting);
}
