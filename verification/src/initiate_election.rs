use vstd::prelude::*;
use crate::election_enums::{ElectionError, ElectionPhase};
use crate::leaderboard::{rest_position, lemma_rest_position, sorted_desc};
use crate::model::ElectionModel;
use crate::pubkey::PubKey;

verus! {

/// The account that holds an election.
#[derive(Clone, Debug)]
pub struct ElectionAccount {
    pub candidates_count: u64,
    pub phase: ElectionPhase,
    pub election_officer: PubKey,
    pub winners_count: u8,
    pub winners_id: Vec<u64>,
    pub winners_votes_count: Vec<u64>,
}

impl View for ElectionAccount {
    type V = ElectionModel;

    open spec fn view(&self) -> ElectionModel {
        ElectionModel {
            candidates_count: self.candidates_count,
            phase: self.phase,
            election_officer: self.election_officer@,
            winners_count: self.winners_count,
            winners_id: self.winners_id@,
            winners_votes_count: self.winners_votes_count@,
        }
    }
}

/// The accounts of the instruction that starts an election.
pub struct InitiateElection {
    pub election_account: ElectionAccount,
    pub signer: PubKey,
}

/// Starts an election for `winners_count` seats, run by the signer.
pub fn initiate_election(ctx: &mut InitiateElection, winners_count: u8) -> (r: Result<
    (),
    ElectionError,
>)
    ensures
        match ElectionModel::initiate_outcome(old(ctx).signer@, winners_count) {
            Ok(m) => {
                &&& r is Ok
                &&& final(ctx).election_account@ == m
                &&& final(ctx).signer == old(ctx).signer
            },
            Err(e) => {
                &&& r == Err::<(), ElectionError>(e)
                &&& *final(ctx) == *old(ctx)
            },
        },
{
    if winners_count == 0 {
        return Err(ElectionError::WinnerCountNotAllowed);
    }
    let account = &mut ctx.election_account;
    account.candidates_count = 0;
    account.phase = ElectionPhase::Registration;
    account.election_officer = ctx.signer;
    account.winners_count = winners_count;
    account.winners_id = Vec::new();
    account.winners_votes_count = Vec::new();
    Ok(())
}

impl ElectionAccount {
    /// Whether the account is one the instructions can produce: at least one
    /// seat, and a well-formed board of winners.
    pub fn is_well_formed(&self) -> (r: bool)
        ensures
            r == self@.wf(),
    {
        let n = self.winners_id.len();
        if self.winners_count == 0 || n != self.winners_votes_count.len()
            || n > self.winners_count as usize {
            return false;
        }
        let ghost ids = self.winners_id@;
        let ghost counts = self.winners_votes_count@;
        let mut i: usize = 0;
        while i < n
            invariant
                i <= n,
                n == ids.len(),
                n == counts.len(),
                ids == self.winners_id@,
                counts == self.winners_votes_count@,
                forall|a: int, b: int| 0 <= a < i && a < b < n ==> #[trigger] ids[a] != #[trigger] ids[b],
                forall|a: int, b: int| 0 <= a < i && a < b < n ==> #[trigger] counts[a] >= #[trigger] counts[b],
            decreases n - i,
        {
            let mut j: usize = i + 1;
            while j < n
                invariant
                    i < j <= n,
                    n == ids.len(),
                    n == counts.len(),
                    ids == self.winners_id@,
                    counts == self.winners_votes_count@,
                    forall|b: int| i < b < j ==> ids[i as int] != #[trigger] ids[b],
                    forall|b: int| i < b < j ==> counts[i as int] >= #[trigger] counts[b],
                decreases n - j,
            {
                let id_i = self.winners_id[i];
                let id_j = self.winners_id[j];
                if id_i == id_j {
                    return false;
                }
                if self.winners_votes_count[i] < self.winners_votes_count[j] {
                    return false;
                }
                assert(ids[i as int] != ids[j as int]);
                assert(counts[i as int] >= counts[j as int]);
                j = j + 1;
            }
            assert forall|a: int, b: int| 0 <= a < i + 1 && a < b < n implies #[trigger] ids[a]
                != #[trigger] ids[b] by {
                if a == i {
                    assert(i < b < n);
                }
            }
            assert forall|a: int, b: int| 0 <= a < i + 1 && a < b < n implies #[trigger] counts[a]
                >= #[trigger] counts[b] by {
                if a == i {
                    assert(i < b < n);
                }
            }
            i = i + 1;
        }
        assert(sorted_desc(counts)) by {
            assert forall|a: int, b: int| 0 <= a <= b < n implies counts[a] >= counts[b] by {
                if a < b {
                    assert(counts[a] >= counts[b]);
                }
            }
        }
        assert(ids.no_duplicates()) by {
            assert forall|a: int, b: int| 0 <= a < n && 0 <= b < n && a != b implies ids[a] != ids[b] by {
                if a > b {
                    assert(ids[b] != ids[a]);
                }
            }
        }
        true
    }

    /// Ends registration and opens the vote.
    pub fn close_registration(&mut self) -> (r: Result<(), ElectionError>)
        ensures
            match old(self)@.close_registration_outcome() {
                Ok(m) => r is Ok && final(self)@ == m,
                Err(e) => r == Err::<(), ElectionError>(e) && *final(self) == *old(self),
            },
    {
        if self.phase != ElectionPhase::Registration {
            return Err(ElectionError::RegistrationPhaseClosed);
        }
        self.phase = ElectionPhase::Voting;
        Ok(())
    }

    /// Ends the vote; the board then holds the winners.
    pub fn close_voting(&mut self) -> (r: Result<(), ElectionError>)
        ensures
            match old(self)@.close_voting_outcome() {
                Ok(m) => r is Ok && final(self)@ == m,
                Err(e) => r == Err::<(), ElectionError>(e) && *final(self) == *old(self),
            },
    {
        if self.phase != ElectionPhase::Voting {
            return Err(ElectionError::NotAtVotingPhase);
        }
        self.phase = ElectionPhase::Closed;
        Ok(())
    }

    /// Tells the board that candidate `id` now holds `votes` votes.
    pub fn record_vote(&mut self, id: u64, votes: u64)
        requires
            old(self)@.wf(),
        ensures
            final(self)@ == old(self)@.after_record_vote(id, votes),
    {
        let ghost ids0 = self.winners_id@;
        let ghost counts0 = self.winners_votes_count@;
        let n = self.winners_id.len();
        let mut k: usize = 0;
        while k < n && self.winners_id[k] != id
            invariant
                k <= n,
                n == self.winners_id@.len(),
                self.winners_id@ == ids0,
                forall|j: int| 0 <= j < k ==> ids0[j] != id,
            decreases n - k,
        {
            k = k + 1;
        }
        // The entry for `id` now stands at index `j` of a board that is
        // `base_ids`/`base_counts` with it inserted there.
        let ghost base_ids: Seq<u64>;
        let ghost base_counts: Seq<u64>;
        let mut j: usize = 0;
        if k < n {
            assert(ids0.contains(id));
            assert(ids0.index_of(id) == k) by {
                let i = ids0.index_of(id);
                assert(0 <= i < n && ids0[i] == id);
            }
            if votes <= self.winners_votes_count[k] {
                return;
            }
            self.winners_votes_count[k] = votes;
            proof {
                base_ids = ids0.remove(k as int);
                base_counts = counts0.remove(k as int);
                assert(self.winners_id@ =~= base_ids.insert(k as int, id));
                assert(self.winners_votes_count@ =~= base_counts.insert(k as int, votes));
            }
            j = k;
        } else if n < self.winners_count as usize {
            assert(!ids0.contains(id));
            self.winners_id.push(id);
            self.winners_votes_count.push(votes);
            proof {
                base_ids = ids0;
                base_counts = counts0;
                assert(self.winners_id@ =~= base_ids.insert(n as int, id));
                assert(self.winners_votes_count@ =~= base_counts.insert(n as int, votes));
            }
            j = n;
        } else if n > 0 && votes > self.winners_votes_count[n - 1] {
            assert(!ids0.contains(id));
            self.winners_id[n - 1] = id;
            self.winners_votes_count[n - 1] = votes;
            proof {
                base_ids = ids0.drop_last();
                base_counts = counts0.drop_last();
                assert(self.winners_id@ =~= base_ids.insert(n - 1, id));
                assert(self.winners_votes_count@ =~= base_counts.insert(n - 1, votes));
            }
            j = n - 1;
        } else {
            assert(!ids0.contains(id));
            return;
        }
        let ghost j0 = j as int;
        proof {
            lemma_rest_position(base_counts, j0, votes);
        }
        // Move the entry ahead of every entry with fewer votes.
        while j > 0 && self.winners_votes_count[j - 1] < votes
            invariant
                j <= j0 <= base_counts.len(),
                base_ids.len() == base_counts.len(),
                self.winners_id@ == base_ids.insert(j as int, id),
                self.winners_votes_count@ == base_counts.insert(j as int, votes),
                rest_position(base_counts, j as int, votes) == rest_position(base_counts, j0, votes),
                self.candidates_count == old(self).candidates_count,
                self.phase == old(self).phase,
                self.election_officer == old(self).election_officer,
                self.winners_count == old(self).winners_count,
            decreases j,
        {
            let ahead_votes = self.winners_votes_count[j - 1];
            let ahead_id = self.winners_id[j - 1];
            self.winners_id[j - 1] = id;
            self.winners_votes_count[j - 1] = votes;
            self.winners_id[j] = ahead_id;
            self.winners_votes_count[j] = ahead_votes;
            proof {
                assert(self.winners_id@ =~= base_ids.insert(j - 1, id));
                assert(self.winners_votes_count@ =~= base_counts.insert(j - 1, votes));
            }
            j = j - 1;
        }
        assert(rest_position(base_counts, j as int, votes) == j);
    }
}

} // verus!
