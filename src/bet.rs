use vstd::prelude::*;

use crate::model::{Bet, Id};
use crate::order::{arranged_by, insert_stable, stable_desc};

verus! {

/// The most bets that one computation over a ledger takes: with it every
/// sum of stakes fits in an `i64`.
pub const MAX_BETS: usize = 4294967295;

/// The sum of the stakes.
pub open spec fn sum_amounts(bets: Seq<Bet>) -> int
    decreases bets.len(),
{
    if bets.len() == 0 {
        0
    } else {
        sum_amounts(bets.drop_last()) + bets.last().amount
    }
}

/// The bets on the outcome with identity `c`, in ledger order.
pub open spec fn bets_on(bets: Seq<Bet>, c: Seq<char>) -> Seq<Bet>
    decreases bets.len(),
{
    if bets.len() == 0 {
        Seq::empty()
    } else if bets.last().candidate_id@ == c {
        bets_on(bets.drop_last(), c).push(bets.last())
    } else {
        bets_on(bets.drop_last(), c)
    }
}

/// The outcomes that the bets name, each once, in order of first appearance.
pub open spec fn candidate_order(bets: Seq<Bet>) -> Seq<Seq<char>>
    decreases bets.len(),
{
    if bets.len() == 0 {
        Seq::empty()
    } else {
        let prev = candidate_order(bets.drop_last());
        if prev.contains(bets.last().candidate_id@) {
            prev
        } else {
            prev.push(bets.last().candidate_id@)
        }
    }
}

pub proof fn lemma_bets_on_len(bets: Seq<Bet>, c: Seq<char>)
    ensures
        bets_on(bets, c).len() <= bets.len(),
    decreases bets.len(),
{
    if bets.len() > 0 {
        lemma_bets_on_len(bets.drop_last(), c);
    }
}

proof fn lemma_sum_bound(bets: Seq<Bet>)
    ensures
        -2147483648 * bets.len() <= sum_amounts(bets) <= 2147483647 * bets.len(),
    decreases bets.len(),
{
    if bets.len() > 0 {
        lemma_sum_bound(bets.drop_last());
    }
}

/// The bets on `cid` and the sum of their stakes.
pub fn bets_for_candidate(bets: &Vec<Bet>, cid: &Id) -> (r: (Vec<Bet>, i64))
    requires
        bets@.len() <= MAX_BETS,
    ensures
        r.0@ == bets_on(bets@, cid@),
        r.1 == sum_amounts(bets_on(bets@, cid@)),
{
    let mut sel: Vec<Bet> = Vec::new();
    let mut sum: i64 = 0;
    let mut i: usize = 0;
    while i < bets.len()
        invariant
            i <= bets@.len() <= MAX_BETS,
            sel@ == bets_on(bets@.subrange(0, i as int), cid@),
            sum == sum_amounts(sel@),
        decreases bets@.len() - i,
    {
        proof {
            lemma_bets_on_len(bets@.subrange(0, i as int), cid@);
            lemma_sum_bound(sel@);
        }
        let ghost prefix = bets@.subrange(0, i as int + 1);
        assert(prefix.drop_last() =~= bets@.subrange(0, i as int));
        if bets[i].candidate_id.value == cid.value {
            sum = sum + bets[i].amount as i64;
            sel.push(bets[i].clone());
            assert(sel@.drop_last() =~= bets_on(bets@.subrange(0, i as int), cid@));
        }
        i += 1;
    }
    assert(bets@.subrange(0, bets@.len() as int) =~= bets@);
    (sel, sum)
}

/// The sum of all stakes.
pub fn total_amount(bets: &Vec<Bet>) -> (r: i64)
    requires
        bets@.len() <= MAX_BETS,
    ensures
        r == sum_amounts(bets@),
{
    let mut sum: i64 = 0;
    let mut i: usize = 0;
    while i < bets.len()
        invariant
            i <= bets@.len() <= MAX_BETS,
            sum == sum_amounts(bets@.subrange(0, i as int)),
        decreases bets@.len() - i,
    {
        proof {
            lemma_sum_bound(bets@.subrange(0, i as int));
        }
        assert(bets@.subrange(0, i as int + 1).drop_last() =~= bets@.subrange(0, i as int));
        sum = sum + bets[i].amount as i64;
        i += 1;
    }
    assert(bets@.subrange(0, bets@.len() as int) =~= bets@);
    sum
}


/// The texts of the identities.
pub open spec fn id_texts(ids: Seq<Id>) -> Seq<Seq<char>> {
    ids.map_values(|x: Id| x@)
}

/// Whether an identity in `ids` has the text of `id`.
pub fn contains_id(ids: &Vec<Id>, id: &Id) -> (r: bool)
    ensures
        r == id_texts(ids@).contains(id@),
{
    let mut j: usize = 0;
    while j < ids.len()
        invariant
            j <= ids@.len(),
            forall|k: int| 0 <= k < j ==> ids@[k]@ != id@,
        decreases ids@.len() - j,
    {
        if ids[j].value == id.value {
            assert(id_texts(ids@)[j as int] == id@);
            return true;
        }
        j += 1;
    }
    assert(!id_texts(ids@).contains(id@)) by {
        if id_texts(ids@).contains(id@) {
            let k = choose|k: int| 0 <= k < ids@.len() && #[trigger] id_texts(ids@)[k] == id@;
            assert(ids@[k]@ == id@);
        }
    }
    false
}

/// The outcomes named by the bets, each once, in order of first appearance.
fn candidate_ids(bets: &Vec<Bet>) -> (r: Vec<Id>)
    ensures
        id_texts(r@) == candidate_order(bets@),
{
    let mut ids: Vec<Id> = Vec::new();
    let mut i: usize = 0;
    while i < bets.len()
        invariant
            i <= bets@.len(),
            id_texts(ids@) == candidate_order(bets@.subrange(0, i as int)),
        decreases bets@.len() - i,
    {
        assert(bets@.subrange(0, i as int + 1).drop_last() =~= bets@.subrange(0, i as int));
        if !contains_id(&ids, &bets[i].candidate_id) {
            ids.push(bets[i].candidate_id.clone());
            assert(id_texts(ids@) =~= candidate_order(
                bets@.subrange(0, i as int),
            ).push(bets@[i as int].candidate_id@));
        }
        i += 1;
    }
    assert(bets@.subrange(0, bets@.len() as int) =~= bets@);
    ids
}

/// The stakes on one outcome, with the pool they share in: a winning stake
/// is multiplied by `total_amount / amount` when the pool is split.
pub struct Statistic {
    pub candidate_id: Id,
    pub amount: i64,
    pub total_amount: i64,
    pub bets: Vec<Bet>,
}

impl View for Statistic {
    type V = (Seq<char>, int, int, Seq<Bet>);

    open spec fn view(&self) -> (Seq<char>, int, int, Seq<Bet>) {
        (self.candidate_id@, self.amount as int, self.total_amount as int, self.bets@)
    }
}

/// The statistic of each outcome that the bets name, in order of first
/// appearance.
pub open spec fn pool_statistics_unsorted(bets: Seq<Bet>) -> Seq<(Seq<char>, int, int, Seq<Bet>)> {
    candidate_order(bets).map_values(
        |c: Seq<char>| (c, sum_amounts(bets_on(bets, c)), sum_amounts(bets), bets_on(bets, c)),
    )
}

pub open spec fn stat_views(stats: Seq<Statistic>) -> Seq<(Seq<char>, int, int, Seq<Bet>)> {
    stats.map_values(|s: Statistic| s@)
}

pub open spec fn stat_keys(stats: Seq<(Seq<char>, int, int, Seq<Bet>)>) -> Seq<int> {
    stats.map_values(|s: (Seq<char>, int, int, Seq<Bet>)| s.1)
}

/// Groups the bets by outcome and orders the groups by their sum of stakes,
/// largest first; groups with equal sums keep the order in which their
/// outcome first appears among the bets.
pub fn calculate_statistics(bets: Vec<Bet>) -> (r: Vec<Statistic>)
    requires
        bets@.len() <= MAX_BETS,
    ensures
        exists|perm: Seq<int>|
            #[trigger] arranged_by(stat_views(r@), pool_statistics_unsorted(bets@), perm)
                && stable_desc(
                stat_keys(pool_statistics_unsorted(bets@)),
                perm,
                pool_statistics_unsorted(bets@).len() as int,
            ),
{
    let ids = candidate_ids(&bets);
    let total = total_amount(&bets);
    let ghost base = pool_statistics_unsorted(bets@);
    let ghost keys = stat_keys(base);
    let mut out: Vec<Statistic> = Vec::new();
    let mut out_keys: Vec<i64> = Vec::new();
    let ghost mut perm: Seq<int> = Seq::empty();
    let mut i: usize = 0;
    while i < ids.len()
        invariant
            i <= ids@.len() == base.len() == keys.len(),
            bets@.len() <= MAX_BETS,
            id_texts(ids@) == candidate_order(bets@),
            base == pool_statistics_unsorted(bets@),
            keys == stat_keys(base),
            total == sum_amounts(bets@),
            stable_desc(keys, perm, i as int),
            out@.len() == i,
            out_keys@.len() == i,
            forall|k: int| 0 <= k < i ==> #[trigger] out@[k]@ == base[perm[k]],
            forall|k: int| 0 <= k < i ==> #[trigger] out_keys@[k] == keys[perm[k]],
        decreases ids@.len() - i,
    {
        let (sel, amount) = bets_for_candidate(&bets, &ids[i]);
        assert(id_texts(ids@)[i as int] == ids@[i as int]@);
        let stat = Statistic { candidate_id: ids[i].clone(), amount, total_amount: total, bets: sel };
        assert(stat@ == base[i as int]);
        assert(keys[i as int] == base[i as int].1);
        let Ghost(p) = insert_stable(&mut out, &mut out_keys, stat, amount, Ghost(base), Ghost(keys), Ghost(perm));
        proof {
            perm = p;
        }
        i += 1;
    }
    assert(arranged_by(stat_views(out@), base, perm)) by {
        assert forall|k: int| 0 <= k < out@.len() implies #[trigger] stat_views(out@)[k]
            == base[perm[k]] by {
            assert(out@[k]@ == base[perm[k]]);
        }
    }
    out
}

} // verus!
