//! The winners' board of an election: candidate ids beside their vote
//! counts, most votes first, holding at most as many entries as the election
//! has seats.
use vstd::prelude::*;

verus! {

/// Each count is at least the one after it.
pub open spec fn sorted_desc(counts: Seq<u64>) -> bool {
    forall|i: int, j: int| 0 <= i <= j < counts.len() ==> counts[i] >= counts[j]
}

/// A board of `seats` seats is well formed: ids and counts pair up, no
/// candidate stands twice, at most `seats` stand, most votes first.
pub open spec fn board_wf(ids: Seq<u64>, counts: Seq<u64>, seats: nat) -> bool {
    &&& ids.len() == counts.len()
    &&& ids.len() <= seats
    &&& ids.no_duplicates()
    &&& sorted_desc(counts)
}

/// Where an entry with `v` votes that stands at index `k` comes to rest when
/// it moves ahead of every entry before it that has fewer votes than `v`.
pub open spec fn rest_position(counts: Seq<u64>, k: int, v: u64) -> int
    decreases k,
{
    if k <= 0 {
        0
    } else if counts[k - 1] < v {
        rest_position(counts, k - 1, v)
    } else {
        k
    }
}

/// The board after candidate `id` is reported to hold `v` votes.
///
/// A candidate already on the board takes its new count, if it grew, and moves
/// ahead of those it now outvotes. A new candidate takes a free seat; if no
/// seat is free it replaces the last entry when it has strictly more votes
/// than that entry. Otherwise the board is unchanged.
pub open spec fn board_after_vote(
    ids: Seq<u64>,
    counts: Seq<u64>,
    seats: nat,
    id: u64,
    v: u64,
) -> (Seq<u64>, Seq<u64>) {
    if ids.contains(id) {
        let k = ids.index_of(id);
        if v <= counts[k] {
            (ids, counts)
        } else {
            let bi = ids.remove(k);
            let bc = counts.remove(k);
            let p = rest_position(bc, k, v);
            (bi.insert(p, id), bc.insert(p, v))
        }
    } else if ids.len() < seats {
        let p = rest_position(counts, ids.len() as int, v);
        (ids.insert(p, id), counts.insert(p, v))
    } else if ids.len() > 0 && v > counts.last() {
        let bi = ids.drop_last();
        let bc = counts.drop_last();
        let p = rest_position(bc, bc.len() as int, v);
        (bi.insert(p, id), bc.insert(p, v))
    } else {
        (ids, counts)
    }
}

/// Votes a tally gives a candidate: none where it has no entry.
pub open spec fn tally_of(tally: Map<u64, u64>, c: u64) -> u64 {
    if tally.dom().contains(c) {
        tally[c]
    } else {
        0
    }
}

/// The board shows the leading candidates of `tally`: each entry carries its
/// candidate's tally, and a candidate with votes that is not on the board has
/// no more votes than the last entry, which only happens when no seat is free.
pub open spec fn board_reflects(
    ids: Seq<u64>,
    counts: Seq<u64>,
    seats: nat,
    tally: Map<u64, u64>,
) -> bool {
    &&& forall|i: int| 0 <= i < ids.len() ==> #[trigger] counts[i] == tally_of(tally, ids[i])
    &&& forall|c: u64|
        !ids.contains(c) && tally_of(tally, c) > 0 ==> {
            &&& ids.len() == seats
            &&& ids.len() > 0
            &&& #[trigger] tally_of(tally, c) <= counts.last()
        }
}

/// What `rest_position` gives: a place no later than `k` behind every entry
/// with at least `v` votes and ahead of the entries it passed.
pub proof fn lemma_rest_position(counts: Seq<u64>, k: int, v: u64)
    requires
        0 <= k <= counts.len(),
    ensures
        0 <= rest_position(counts, k, v) <= k,
        forall|i: int| rest_position(counts, k, v) <= i < k ==> #[trigger] counts[i] < v,
        rest_position(counts, k, v) == 0 || counts[rest_position(counts, k, v) - 1] >= v,
    decreases k,
{
    if k > 0 && counts[k - 1] < v {
        lemma_rest_position(counts, k - 1, v);
    }
}

/// Inserting `v` at its rest position keeps a sorted board sorted, provided
/// no entry from `k` on has more than `v` votes.
pub proof fn lemma_insert_sorted(counts: Seq<u64>, k: int, v: u64)
    requires
        0 <= k <= counts.len(),
        sorted_desc(counts),
        forall|i: int| k <= i < counts.len() ==> #[trigger] counts[i] <= v,
    ensures
        sorted_desc(counts.insert(rest_position(counts, k, v), v)),
{
    lemma_rest_position(counts, k, v);
    let p = rest_position(counts, k, v);
    let s = counts.insert(p, v);
    assert forall|i: int, j: int| 0 <= i <= j < s.len() implies s[i] >= s[j] by {
        if i < p {
            assert(s[i] == counts[i]);
            assert(counts[i] >= counts[p - 1]);
            if j < p {
                assert(s[j] == counts[j]);
            } else if j > p {
                assert(s[j] == counts[j - 1]);
            }
        } else if i == p {
            if j > p {
                assert(s[j] == counts[j - 1]);
                if j - 1 < k {
                    assert(counts[j - 1] < v);
                }
            }
        } else {
            assert(s[i] == counts[i - 1]);
            assert(s[j] == counts[j - 1]);
        }
    }
}

/// Removing an entry keeps a board sorted and free of duplicates.
pub proof fn lemma_remove_keeps(ids: Seq<u64>, counts: Seq<u64>, k: int)
    requires
        0 <= k < ids.len(),
        ids.len() == counts.len(),
        ids.no_duplicates(),
        sorted_desc(counts),
    ensures
        ids.remove(k).no_duplicates(),
        sorted_desc(counts.remove(k)),
        forall|c: u64| #[trigger] ids.remove(k).contains(c) <==> (ids.contains(c) && c != ids[k]),
{
    let bi = ids.remove(k);
    let bc = counts.remove(k);
    assert forall|i: int, j: int| 0 <= i < bi.len() && 0 <= j < bi.len() && i != j implies bi[i]
        != bi[j] by {
        let oi = if i < k { i } else { i + 1 };
        let oj = if j < k { j } else { j + 1 };
        assert(bi[i] == ids[oi]);
        assert(bi[j] == ids[oj]);
    }
    assert forall|i: int, j: int| 0 <= i <= j < bc.len() implies bc[i] >= bc[j] by {
        let oi = if i < k { i } else { i + 1 };
        let oj = if j < k { j } else { j + 1 };
        assert(bc[i] == counts[oi]);
        assert(bc[j] == counts[oj]);
    }
    assert forall|c: u64| #[trigger] bi.contains(c) <==> (ids.contains(c) && c != ids[k]) by {
        if bi.contains(c) {
            let i = choose|i: int| 0 <= i < bi.len() && bi[i] == c;
            let oi = if i < k { i } else { i + 1 };
            assert(ids[oi] == c);
        }
        if ids.contains(c) && c != ids[k] {
            let o = choose|o: int| 0 <= o < ids.len() && ids[o] == c;
            if o < k {
                assert(bi[o] == c);
            } else {
                assert(bi[o - 1] == c);
            }
        }
    }
}

/// Inserting a candidate not yet on the board keeps it free of duplicates.
pub proof fn lemma_insert_fresh(ids: Seq<u64>, p: int, id: u64)
    requires
        0 <= p <= ids.len(),
        ids.no_duplicates(),
        !ids.contains(id),
    ensures
        ids.insert(p, id).no_duplicates(),
        forall|c: u64| #[trigger] ids.insert(p, id).contains(c) <==> (ids.contains(c) || c == id),
{
    let s = ids.insert(p, id);
    assert forall|i: int, j: int| 0 <= i < s.len() && 0 <= j < s.len() && i != j implies s[i]
        != s[j] by {
        if i != p && j != p {
            let oi = if i < p { i } else { i - 1 };
            let oj = if j < p { j } else { j - 1 };
            assert(s[i] == ids[oi]);
            assert(s[j] == ids[oj]);
        } else if i == p {
            let oj = if j < p { j } else { j - 1 };
            assert(s[j] == ids[oj]);
        } else {
            let oi = if i < p { i } else { i - 1 };
            assert(s[i] == ids[oi]);
        }
    }
    assert forall|c: u64| #[trigger] s.contains(c) <==> (ids.contains(c) || c == id) by {
        if s.contains(c) {
            let i = choose|i: int| 0 <= i < s.len() && s[i] == c;
            if i < p {
                assert(ids[i] == c);
            } else if i > p {
                assert(ids[i - 1] == c);
            }
        }
        if ids.contains(c) {
            let o = choose|o: int| 0 <= o < ids.len() && ids[o] == c;
            if o < p {
                assert(s[o] == c);
            } else {
                assert(s[o + 1] == c);
            }
        }
        if c == id {
            assert(s[p] == id);
        }
    }
}


/// Recording a vote keeps a well-formed board well formed.
pub proof fn lemma_board_after_vote_wf(ids: Seq<u64>, counts: Seq<u64>, seats: nat, id: u64, v: u64)
    requires
        board_wf(ids, counts, seats),
    ensures
        board_wf(
            board_after_vote(ids, counts, seats, id, v).0,
            board_after_vote(ids, counts, seats, id, v).1,
            seats,
        ),
{
    let n = ids.len() as int;
    if ids.contains(id) {
        let k = ids.index_of(id);
        assert(0 <= k < n && ids[k] == id);
        if v > counts[k] {
            let bi = ids.remove(k);
            let bc = counts.remove(k);
            lemma_remove_keeps(ids, counts, k);
            assert forall|i: int| k <= i < bc.len() implies #[trigger] bc[i] <= v by {
                assert(bc[i] == counts[i + 1]);
            }
            lemma_insert_sorted(bc, k, v);
            lemma_rest_position(bc, k, v);
            assert(!bi.contains(id));
            lemma_insert_fresh(bi, rest_position(bc, k, v), id);
        }
    } else if n < seats {
        lemma_insert_sorted(counts, n, v);
        lemma_rest_position(counts, n, v);
        lemma_insert_fresh(ids, rest_position(counts, n, v), id);
    } else if n > 0 && v > counts.last() {
        let bi = ids.drop_last();
        let bc = counts.drop_last();
        assert(bi =~= ids.remove(n - 1));
        assert(bc =~= counts.remove(n - 1));
        lemma_remove_keeps(ids, counts, n - 1);
        lemma_insert_sorted(bc, bc.len() as int, v);
        lemma_rest_position(bc, bc.len() as int, v);
        assert(!bi.contains(id));
        lemma_insert_fresh(bi, rest_position(bc, bc.len() as int, v), id);
    }
}

/// Removing an entry keeps every remaining entry beside its own count.
pub proof fn lemma_remove_pairs(ids: Seq<u64>, counts: Seq<u64>, k: int, tally: Map<u64, u64>)
    requires
        0 <= k < ids.len(),
        ids.len() == counts.len(),
        forall|i: int| 0 <= i < ids.len() ==> #[trigger] counts[i] == tally_of(tally, ids[i]),
    ensures
        forall|i: int|
            0 <= i < ids.remove(k).len() ==> #[trigger] counts.remove(k)[i] == tally_of(
                tally,
                ids.remove(k)[i],
            ),
{
    assert forall|i: int| 0 <= i < ids.remove(k).len() implies #[trigger] counts.remove(k)[i]
        == tally_of(tally, ids.remove(k)[i]) by {
        let o = if i < k { i } else { i + 1 };
        assert(counts.remove(k)[i] == counts[o]);
        assert(ids.remove(k)[i] == ids[o]);
    }
}

/// Inserting a candidate beside its count, under a tally that agrees with the
/// old tally on every other candidate on the board, keeps every entry beside
/// its candidate's count.
pub proof fn lemma_insert_pairs(
    bi: Seq<u64>,
    bc: Seq<u64>,
    p: int,
    id: u64,
    v: u64,
    tally: Map<u64, u64>,
)
    requires
        0 <= p <= bi.len(),
        bi.len() == bc.len(),
        !bi.contains(id),
        forall|i: int| 0 <= i < bi.len() ==> #[trigger] bc[i] == tally_of(tally, bi[i]),
    ensures
        forall|i: int|
            0 <= i < bi.insert(p, id).len() ==> #[trigger] bc.insert(p, v)[i] == tally_of(
                tally.insert(id, v),
                bi.insert(p, id)[i],
            ),
{
    let t2 = tally.insert(id, v);
    assert forall|i: int| 0 <= i < bi.insert(p, id).len() implies #[trigger] bc.insert(p, v)[i]
        == tally_of(t2, bi.insert(p, id)[i]) by {
        if i == p {
            assert(bi.insert(p, id)[i] == id);
        } else {
            let o = if i < p { i } else { i - 1 };
            assert(bi.insert(p, id)[i] == bi[o]);
            assert(bc.insert(p, v)[i] == bc[o]);
            assert(bi[o] != id);
        }
    }
}

/// The board keeps showing the leading candidates when one of them gains a
/// vote and the board is told its new count.
pub proof fn lemma_board_after_vote_reflects(
    ids: Seq<u64>,
    counts: Seq<u64>,
    seats: nat,
    tally: Map<u64, u64>,
    id: u64,
)
    requires
        board_wf(ids, counts, seats),
        seats > 0,
        board_reflects(ids, counts, seats, tally),
        tally_of(tally, id) < u64::MAX,
    ensures
        board_reflects(
            board_after_vote(ids, counts, seats, id, (tally_of(tally, id) + 1) as u64).0,
            board_after_vote(ids, counts, seats, id, (tally_of(tally, id) + 1) as u64).1,
            seats,
            tally.insert(id, (tally_of(tally, id) + 1) as u64),
        ),
{
    let v = (tally_of(tally, id) + 1) as u64;
    let t2 = tally.insert(id, v);
    let n = ids.len() as int;
    let ni = board_after_vote(ids, counts, seats, id, v).0;
    let nc = board_after_vote(ids, counts, seats, id, v).1;
    assert forall|c: u64| c != id implies #[trigger] tally_of(t2, c) == tally_of(tally, c) by {}
    assert(tally_of(t2, id) == v);
    if ids.contains(id) {
        let k = ids.index_of(id);
        assert(0 <= k < n && ids[k] == id);
        assert(counts[k] == tally_of(tally, id));
        let bi = ids.remove(k);
        let bc = counts.remove(k);
        lemma_remove_keeps(ids, counts, k);
        lemma_remove_pairs(ids, counts, k, tally);
        let p = rest_position(bc, k, v);
        lemma_rest_position(bc, k, v);
        lemma_insert_fresh(bi, p, id);
        lemma_insert_pairs(bi, bc, p, id, v, tally);
        assert(ni == bi.insert(p, id));
        assert(nc == bc.insert(p, v));
        assert(nc.len() == n);
        assert(nc.last() >= counts.last()) by {
            if p == n - 1 {
                assert(nc[n - 1] == v);
            } else {
                assert(nc[n - 1] == bc[n - 2]);
                if n - 2 < k {
                    assert(bc[n - 2] == counts[n - 2]);
                } else {
                    assert(bc[n - 2] == counts[n - 1]);
                }
            }
        }
        assert forall|c: u64| !ni.contains(c) && tally_of(t2, c) > 0 implies {
            &&& ni.len() == seats
            &&& ni.len() > 0
            &&& #[trigger] tally_of(t2, c) <= nc.last()
        } by {
            assert(c != id);
            assert(!bi.contains(c));
            assert(!ids.contains(c));
        }
    } else if n < seats {
        assert(tally_of(tally, id) == 0);
        let p = rest_position(counts, n, v);
        lemma_rest_position(counts, n, v);
        lemma_insert_fresh(ids, p, id);
        lemma_insert_pairs(ids, counts, p, id, v, tally);
        assert forall|c: u64| !ni.contains(c) && tally_of(t2, c) > 0 implies {
            &&& ni.len() == seats
            &&& ni.len() > 0
            &&& #[trigger] tally_of(t2, c) <= nc.last()
        } by {
            assert(c != id);
            assert(!ids.contains(c));
        }
    } else if v > counts.last() {
        assert(n > 0);
        let bi = ids.drop_last();
        let bc = counts.drop_last();
        assert(bi =~= ids.remove(n - 1));
        assert(bc =~= counts.remove(n - 1));
        lemma_remove_keeps(ids, counts, n - 1);
        lemma_remove_pairs(ids, counts, n - 1, tally);
        let p = rest_position(bc, n - 1, v);
        lemma_rest_position(bc, n - 1, v);
        assert(!bi.contains(id));
        lemma_insert_fresh(bi, p, id);
        lemma_insert_pairs(bi, bc, p, id, v, tally);
        assert(nc.last() >= counts.last()) by {
            if p == n - 1 {
                assert(nc[n - 1] == v);
            } else {
                assert(nc[n - 1] == bc[n - 2]);
                assert(counts[n - 2] >= counts[n - 1]);
            }
        }
        assert forall|c: u64| !ni.contains(c) && tally_of(t2, c) > 0 implies {
            &&& ni.len() == seats
            &&& ni.len() > 0
            &&& #[trigger] tally_of(t2, c) <= nc.last()
        } by {
            assert(c != id);
            assert(!bi.contains(c));
            if ids.contains(c) {
                assert(c == ids[n - 1]);
                let j = n - 1;
                assert(counts[j] == tally_of(tally, ids[j]));
            }
        }
    } else {
        assert(n > 0);
        assert forall|i: int| 0 <= i < ni.len() implies #[trigger] nc[i] == tally_of(t2, ni[i]) by {
            assert(counts[i] == tally_of(tally, ids[i]));
            assert(ids[i] != id);
        }
        assert forall|c: u64| !ni.contains(c) && tally_of(t2, c) > 0 implies {
            &&& ni.len() == seats
            &&& ni.len() > 0
            &&& #[trigger] tally_of(t2, c) <= nc.last()
        } by {
            if c != id {
                assert(tally_of(t2, c) == tally_of(tally, c));
            }
        }
    }
}

/// On a board that shows the leading candidates, the first entry has the
/// most votes of all candidates, and an empty board means nobody has votes.
pub proof fn lemma_first_leads(ids: Seq<u64>, counts: Seq<u64>, seats: nat, tally: Map<u64, u64>)
    requires
        board_wf(ids, counts, seats),
        seats > 0,
        board_reflects(ids, counts, seats, tally),
    ensures
        ids.len() > 0 ==> tally_of(tally, ids[0]) == counts[0],
        ids.len() > 0 ==> forall|c: u64| #[trigger] tally_of(tally, c) <= counts[0],
        ids.len() == 0 ==> forall|c: u64| #[trigger] tally_of(tally, c) == 0,
{
    if ids.len() > 0 {
        assert(counts[0] == tally_of(tally, ids[0]));
        assert forall|c: u64| #[trigger] tally_of(tally, c) <= counts[0] by {
            if ids.contains(c) {
                let i = choose|i: int| 0 <= i < ids.len() && ids[i] == c;
                assert(counts[i] == tally_of(tally, ids[i]));
            } else if tally_of(tally, c) > 0 {
                assert(counts[0] >= counts[ids.len() - 1]);
            }
        }
    } else {
        assert forall|c: u64| #[trigger] tally_of(tally, c) == 0 by {
            assert(!ids.contains(c));
        }
    }
}


/// Recording a vote with a positive count keeps every count on the board
/// positive.
pub proof fn lemma_board_after_vote_positive(
    ids: Seq<u64>,
    counts: Seq<u64>,
    seats: nat,
    id: u64,
    v: u64,
)
    requires
        board_wf(ids, counts, seats),
        forall|i: int| 0 <= i < counts.len() ==> #[trigger] counts[i] > 0,
        v > 0,
    ensures
        forall|i: int|
            0 <= i < board_after_vote(ids, counts, seats, id, v).1.len()
                ==> #[trigger] board_after_vote(ids, counts, seats, id, v).1[i] > 0,
{
    let n = ids.len() as int;
    let nc = board_after_vote(ids, counts, seats, id, v).1;
    if ids.contains(id) {
        let k = ids.index_of(id);
        assert(0 <= k < n && ids[k] == id);
        if v > counts[k] {
            let bc = counts.remove(k);
            let p = rest_position(bc, k, v);
            lemma_rest_position(bc, k, v);
            assert forall|i: int| 0 <= i < nc.len() implies #[trigger] nc[i] > 0 by {
                if i != p {
                    let j = if i < p { i } else { i - 1 };
                    let o = if j < k { j } else { j + 1 };
                    assert(nc[i] == bc[j]);
                    assert(bc[j] == counts[o]);
                }
            }
        }
    } else if n < seats {
        let p = rest_position(counts, n, v);
        lemma_rest_position(counts, n, v);
        assert forall|i: int| 0 <= i < nc.len() implies #[trigger] nc[i] > 0 by {
            if i != p {
                let j = if i < p { i } else { i - 1 };
                assert(nc[i] == counts[j]);
            }
        }
    } else if n > 0 && v > counts.last() {
        let bc = counts.drop_last();
        let p = rest_position(bc, bc.len() as int, v);
        lemma_rest_position(bc, bc.len() as int, v);
        assert forall|i: int| 0 <= i < nc.len() implies #[trigger] nc[i] > 0 by {
            if i != p {
                let j = if i < p { i } else { i - 1 };
                assert(nc[i] == bc[j]);
                assert(bc[j] == counts[j]);
            }
        }
    }
}

} // verus!
