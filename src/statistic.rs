use vstd::prelude::*;

use crate::bet::{bets_for_candidate, bets_on, sum_amounts, MAX_BETS};
use crate::model::{Bet, Candidate, Id};
use crate::settlement::{bets_of_match, lemma_match_bets_len};
use crate::store::{candidates_of_match, Store};
use crate::order::{arranged_by, insert_stable, stable_desc};

verus! {

/// The stakes on one outcome, for display: the rate shown is the mean
/// stake, `amount / bets.len()`.
pub struct Statistic {
    pub candidate: Candidate,
    pub amount: i64,
    pub bets: Vec<Bet>,
}

impl View for Statistic {
    type V = (Candidate, int, Seq<Bet>);

    open spec fn view(&self) -> (Candidate, int, Seq<Bet>) {
        (self.candidate, self.amount as int, self.bets@)
    }
}

impl Statistic {
    /// The mean stake per bet on the outcome, rounded down; none without bets.
    pub fn mean_stake(&self) -> (r: Option<i64>)
        requires
            self.amount >= 0,
        ensures
            self.bets@.len() == 0 ==> r is None,
            self.bets@.len() > 0 ==> r == Some((self.amount as int / self.bets@.len() as int) as i64),
    {
        let n = self.bets.len();
        if n == 0 {
            None
        } else {
            if (n as u128) > (i64::MAX as u128) {
                proof {
                    let a = self.amount as int;
                    let d = self.bets@.len() as int;
                    assert(a / d == 0) by (nonlinear_arith)
                        requires
                            0 <= a < d,
                    ;
                }
                Some(0)
            } else {
                Some(self.amount / (n as i64))
            }
        }
    }
}

/// The statistic of each outcome, in the order of the outcomes.
pub open spec fn display_statistics_unsorted(bets: Seq<Bet>, candidates: Seq<Candidate>) -> Seq<
    (Candidate, int, Seq<Bet>),
> {
    candidates.map_values(
        |c: Candidate| (c, sum_amounts(bets_on(bets, c.id@)), bets_on(bets, c.id@)),
    )
}

pub open spec fn display_views(stats: Seq<Statistic>) -> Seq<(Candidate, int, Seq<Bet>)> {
    stats.map_values(|s: Statistic| s@)
}

pub open spec fn display_keys(stats: Seq<(Candidate, int, Seq<Bet>)>) -> Seq<int> {
    stats.map_values(|s: (Candidate, int, Seq<Bet>)| s.1)
}

/// `stats` holds one statistic per outcome, ordered by sum of stakes,
/// largest first, and by the order of the outcomes among equal sums.
pub open spec fn summarises(stats: Seq<Statistic>, bets: Seq<Bet>, candidates: Seq<Candidate>) -> bool {
    exists|perm: Seq<int>|
        #[trigger] arranged_by(
            display_views(stats),
            display_statistics_unsorted(bets, candidates),
            perm,
        ) && stable_desc(
            display_keys(display_statistics_unsorted(bets, candidates)),
            perm,
            candidates.len() as int,
        )
}

/// One statistic for each outcome, with the bets on it, ordered by sum of
/// stakes, largest first; outcomes with equal sums keep their given order.
/// Bets on no given outcome are left out.
pub fn new_statistics(bets: Vec<Bet>, candidates: Vec<Candidate>) -> (r: Vec<Statistic>)
    requires
        bets@.len() <= MAX_BETS,
    ensures
        summarises(r@, bets@, candidates@),
{
    let ghost base = display_statistics_unsorted(bets@, candidates@);
    let ghost keys = display_keys(base);
    let mut out: Vec<Statistic> = Vec::new();
    let mut out_keys: Vec<i64> = Vec::new();
    let ghost mut perm: Seq<int> = Seq::empty();
    let mut i: usize = 0;
    while i < candidates.len()
        invariant
            i <= candidates@.len() == base.len() == keys.len(),
            bets@.len() <= MAX_BETS,
            base == display_statistics_unsorted(bets@, candidates@),
            keys == display_keys(base),
            stable_desc(keys, perm, i as int),
            out@.len() == i,
            out_keys@.len() == i,
            forall|k: int| 0 <= k < i ==> #[trigger] out@[k]@ == base[perm[k]],
            forall|k: int| 0 <= k < i ==> #[trigger] out_keys@[k] == keys[perm[k]],
        decreases candidates@.len() - i,
    {
        let (sel, amount) = bets_for_candidate(&bets, &candidates[i].id);
        let stat = Statistic { candidate: candidates[i].clone(), amount, bets: sel };
        assert(stat@ == base[i as int]);
        assert(keys[i as int] == base[i as int].1);
        let Ghost(p) = insert_stable(&mut out, &mut out_keys, stat, amount, Ghost(base), Ghost(keys), Ghost(perm));
        proof {
            perm = p;
        }
        i += 1;
    }
    assert(arranged_by(display_views(out@), base, perm)) by {
        assert forall|k: int| 0 <= k < out@.len() implies #[trigger] display_views(out@)[k]
            == base[perm[k]] by {
            assert(out@[k]@ == base[perm[k]]);
        }
    }
    out
}

/// The display statistics of wager `match_id`: one per outcome, over the
/// wager's bets. None where the ledger holds more than `MAX_BETS` bets.
pub fn pool_summary(store: &Store, match_id: &Id) -> (r: Option<Vec<Statistic>>)
    ensures
        r is None <==> store.bets@.len() > MAX_BETS,
        r matches Some(v) ==> summarises(
            v@,
            bets_of_match(store.bets@, match_id@),
            candidates_of_match(store.candidates@, match_id@),
        ),
{
    if store.bets.len() > MAX_BETS {
        return None;
    }
    let bets = store.select_bets_by_match_id(match_id);
    proof {
        lemma_match_bets_len(store.bets@, match_id@);
    }
    let candidates = store.select_candidates_by_match_id(match_id);
    Some(new_statistics(bets, candidates))
}

} // verus!
