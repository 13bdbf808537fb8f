pub mod pubkey;
pub mod election_enums;
pub mod leaderboard;
pub mod model;
pub mod initiate_election;
pub mod apply;
pub mod register;
pub mod change_phase;
pub mod vote;
pub mod decentralized_election;
pub mod laws;
pub mod lifetime;
