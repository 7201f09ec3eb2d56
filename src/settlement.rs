use vstd::prelude::*;

use crate::bet::{bets_on, sum_amounts, MAX_BETS};
use crate::model::{Bet, Id, User};

verus! {

/// The bets on wager `mid`, in ledger order.
pub open spec fn bets_of_match(bets: Seq<Bet>, mid: Seq<char>) -> Seq<Bet>
    decreases bets.len(),
{
    if bets.len() == 0 {
        Seq::empty()
    } else if bets.last().match_id@ == mid {
        bets_of_match(bets.drop_last(), mid).push(bets.last())
    } else {
        bets_of_match(bets.drop_last(), mid)
    }
}

pub open spec fn all_positive(bets: Seq<Bet>) -> bool {
    forall|k: int| 0 <= k < bets.len() ==> #[trigger] bets[k].amount > 0
}

/// What a winning stake of `amount` receives from a pool of `pool` of
/// which `win` was staked on the winning outcome, rounded down.
pub open spec fn payout_of(amount: int, pool: int, win: int) -> int {
    if win > 0 {
        amount * pool / win
    } else {
        0
    }
}

/// What participant `uid` receives for the bets on outcome `cid`.
pub open spec fn credit(bets: Seq<Bet>, uid: Seq<char>, cid: Seq<char>, pool: int, win: int) -> int
    decreases bets.len(),
{
    if bets.len() == 0 {
        0
    } else {
        let b = bets.last();
        credit(bets.drop_last(), uid, cid, pool, win) + if b.user_id@ == uid && b.candidate_id@ == cid {
            payout_of(b.amount as int, pool, win)
        } else {
            0
        }
    }
}

pub proof fn lemma_match_bets_positive(bets: Seq<Bet>, mid: Seq<char>)
    requires
        all_positive(bets),
    ensures
        all_positive(bets_of_match(bets, mid)),
    decreases bets.len(),
{
    if bets.len() > 0 {
        let init = bets.drop_last();
        assert forall|k: int| 0 <= k < init.len() implies #[trigger] init[k].amount > 0 by {
            assert(init[k] == bets[k]);
        }
        lemma_match_bets_positive(init, mid);
        assert(bets.last() == bets[bets.len() - 1]);
    }
}

pub proof fn lemma_match_bets_len(bets: Seq<Bet>, mid: Seq<char>)
    ensures
        bets_of_match(bets, mid).len() <= bets.len(),
    decreases bets.len(),
{
    if bets.len() > 0 {
        lemma_match_bets_len(bets.drop_last(), mid);
    }
}

pub proof fn lemma_on_bounds(bets: Seq<Bet>, cid: Seq<char>)
    requires
        all_positive(bets),
    ensures
        0 <= sum_amounts(bets_on(bets, cid)) <= sum_amounts(bets),
        0 <= sum_amounts(bets),
    decreases bets.len(),
{
    if bets.len() > 0 {
        let init = bets.drop_last();
        assert forall|k: int| 0 <= k < init.len() implies #[trigger] init[k].amount > 0 by {
            assert(init[k] == bets[k]);
        }
        assert(bets.last() == bets[bets.len() - 1]);
        lemma_on_bounds(init, cid);
        if bets.last().candidate_id@ == cid {
            assert(bets_on(bets, cid).drop_last() == bets_on(init, cid));
        }
    }
}

/// A winning stake is part of the winning pool.
proof fn lemma_amount_le_on(bets: Seq<Bet>, cid: Seq<char>, k: int)
    requires
        all_positive(bets),
        0 <= k < bets.len(),
        bets[k].candidate_id@ == cid,
    ensures
        bets[k].amount <= sum_amounts(bets_on(bets, cid)),
    decreases bets.len(),
{
    let init = bets.drop_last();
    assert forall|q: int| 0 <= q < init.len() implies #[trigger] init[q].amount > 0 by {
        assert(init[q] == bets[q]);
    }
    assert(bets.last() == bets[bets.len() - 1]);
    lemma_on_bounds(init, cid);
    if k == bets.len() - 1 {
        assert(bets_on(bets, cid).drop_last() == bets_on(init, cid));
    } else {
        assert(init[k] == bets[k]);
        lemma_amount_le_on(init, cid, k);
        if bets.last().candidate_id@ == cid {
            assert(bets_on(bets, cid).drop_last() == bets_on(init, cid));
        }
    }
}

/// Every bet on wager `mid` is a bet of the ledger on that wager.
pub proof fn lemma_match_bets_members(bets: Seq<Bet>, mid: Seq<char>)
    ensures
        forall|j: int|
            0 <= j < bets_of_match(bets, mid).len() ==> exists|x: int|
                0 <= x < bets.len() && bets[x] == #[trigger] bets_of_match(bets, mid)[j],
        forall|j: int|
            0 <= j < bets_of_match(bets, mid).len() ==> (#[trigger] bets_of_match(bets, mid)[j]).match_id@
                == mid,
    decreases bets.len(),
{
    if bets.len() > 0 {
        let init = bets.drop_last();
        lemma_match_bets_members(init, mid);
        let prev = bets_of_match(init, mid);
        let cur = bets_of_match(bets, mid);
        assert forall|j: int| 0 <= j < cur.len() implies exists|x: int|
            0 <= x < bets.len() && bets[x] == #[trigger] cur[j] by {
            if j < prev.len() {
                assert(cur[j] == prev[j]);
                let x = choose|x: int| 0 <= x < init.len() && init[x] == #[trigger] prev[j];
                assert(bets[x] == init[x]);
            } else {
                assert(cur[j] == bets[bets.len() - 1]);
            }
        }
        assert forall|j: int| 0 <= j < cur.len() implies (#[trigger] cur[j]).match_id@ == mid by {
            if j < prev.len() {
                assert(cur[j] == prev[j]);
            }
        }
    }
}

/// With one bet per participant and wager in the ledger, a participant has
/// one bet at most on wager `mid`.
pub proof fn lemma_match_bets_one_per_user(bets: Seq<Bet>, mid: Seq<char>)
    requires
        forall|k: int, l: int|
            0 <= k < bets.len() && 0 <= l < bets.len() && #[trigger] bets[k].user_id@
                == #[trigger] bets[l].user_id@ && bets[k].match_id@ == bets[l].match_id@ ==> k == l,
    ensures
        forall|j: int, k: int|
            0 <= j < k < bets_of_match(bets, mid).len() ==> #[trigger] bets_of_match(bets, mid)[j].user_id@
                != #[trigger] bets_of_match(bets, mid)[k].user_id@,
    decreases bets.len(),
{
    if bets.len() > 0 {
        let init = bets.drop_last();
        assert forall|k: int, l: int|
            0 <= k < init.len() && 0 <= l < init.len() && #[trigger] init[k].user_id@
                == #[trigger] init[l].user_id@ && init[k].match_id@ == init[l].match_id@ implies k == l by {
            assert(init[k] == bets[k] && init[l] == bets[l]);
        }
        lemma_match_bets_one_per_user(init, mid);
        lemma_match_bets_members(init, mid);
        let prev = bets_of_match(init, mid);
        let cur = bets_of_match(bets, mid);
        let n = bets.len() - 1;
        assert forall|j: int, k: int| 0 <= j < k < cur.len() implies #[trigger] cur[j].user_id@
            != #[trigger] cur[k].user_id@ by {
            if k < prev.len() {
                assert(cur[j] == prev[j] && cur[k] == prev[k]);
            } else {
                assert(cur[j] == prev[j]);
                assert(cur[k] == bets[n]);
                assert(prev[j].match_id@ == mid);
                let x = choose|x: int| 0 <= x < init.len() && init[x] == #[trigger] prev[j];
                assert(bets[x] == init[x]);
                if cur[j].user_id@ == cur[k].user_id@ {
                    assert(bets[x].user_id@ == bets[n].user_id@);
                }
            }
        }
    }
}

/// A participant none of whose bets is on the winning outcome receives
/// nothing at settlement: the stake was already paid at placement.
pub proof fn lemma_loser_receives_nothing(bets: Seq<Bet>, uid: Seq<char>, cid: Seq<char>, pool: int, win: int)
    requires
        forall|k: int| 0 <= k < bets.len() && #[trigger] bets[k].user_id@ == uid ==> bets[k].candidate_id@ != cid,
    ensures
        credit(bets, uid, cid, pool, win) == 0,
    decreases bets.len(),
{
    if bets.len() > 0 {
        let init = bets.drop_last();
        assert forall|k: int| 0 <= k < init.len() && #[trigger] init[k].user_id@ == uid implies init[k].candidate_id@
            != cid by {
            assert(init[k] == bets[k]);
        }
        assert(bets.last() == bets[bets.len() - 1]);
        lemma_loser_receives_nothing(init, uid, cid, pool, win);
    }
}

/// A participant whose only bet is a winning stake receives its payout:
/// `floor(stake * pool / win)`.
pub proof fn lemma_winner_receives_payout(
    bets: Seq<Bet>,
    uid: Seq<char>,
    cid: Seq<char>,
    pool: int,
    win: int,
    k: int,
)
    requires
        0 <= k < bets.len(),
        bets[k].user_id@ == uid,
        bets[k].candidate_id@ == cid,
        forall|j: int| 0 <= j < bets.len() && j != k ==> #[trigger] bets[j].user_id@ != uid,
    ensures
        credit(bets, uid, cid, pool, win) == payout_of(bets[k].amount as int, pool, win),
    decreases bets.len(),
{
    let init = bets.drop_last();
    assert(bets.last() == bets[bets.len() - 1]);
    if k == bets.len() - 1 {
        assert forall|q: int| 0 <= q < init.len() && #[trigger] init[q].user_id@ == uid implies init[q].candidate_id@
            != cid by {
            assert(init[q] == bets[q]);
        }
        lemma_loser_receives_nothing(init, uid, cid, pool, win);
    } else {
        assert forall|j: int| 0 <= j < init.len() && j != k implies #[trigger] init[j].user_id@ != uid by {
            assert(init[j] == bets[j]);
        }
        assert(init[k] == bets[k]);
        lemma_winner_receives_payout(init, uid, cid, pool, win, k);
    }
}

/// The sum of the payouts of the bets on the winning outcome `cid`.
pub open spec fn payouts_total(bets: Seq<Bet>, cid: Seq<char>, pool: int, win: int) -> int
    decreases bets.len(),
{
    if bets.len() == 0 {
        0
    } else {
        payouts_total(bets.drop_last(), cid, pool, win) + if bets.last().candidate_id@ == cid {
            payout_of(bets.last().amount as int, pool, win)
        } else {
            0
        }
    }
}

/// What the participants of channel `ch` receive together at settlement.
pub open spec fn channel_credit(
    users: Seq<User>,
    ch: Seq<char>,
    bets: Seq<Bet>,
    cid: Seq<char>,
    pool: int,
    win: int,
) -> int
    decreases users.len(),
{
    if users.len() == 0 {
        0
    } else {
        channel_credit(users.drop_last(), ch, bets, cid, pool, win) + if users.last().channel_id@ == ch {
            credit(bets, users.last().id@, cid, pool, win)
        } else {
            0
        }
    }
}

/// How many participants of channel `ch` have identity `uid`.
pub open spec fn holders(users: Seq<User>, ch: Seq<char>, uid: Seq<char>) -> int
    decreases users.len(),
{
    if users.len() == 0 {
        0
    } else {
        holders(users.drop_last(), ch, uid) + if users.last().channel_id@ == ch && users.last().id@ == uid {
            1int
        } else {
            0
        }
    }
}

proof fn lemma_holders_none(users: Seq<User>, ch: Seq<char>, uid: Seq<char>)
    requires
        forall|i: int| 0 <= i < users.len() ==> #[trigger] users[i].id@ != uid,
    ensures
        holders(users, ch, uid) == 0,
    decreases users.len(),
{
    if users.len() > 0 {
        let init = users.drop_last();
        assert forall|i: int| 0 <= i < init.len() implies #[trigger] init[i].id@ != uid by {
            assert(init[i] == users[i]);
        }
        assert(users.last() == users[users.len() - 1]);
        lemma_holders_none(init, ch, uid);
    }
}

/// With distinct identities, one participant at most holds an identity.
proof fn lemma_holders_at_most_one(users: Seq<User>, ch: Seq<char>, uid: Seq<char>)
    requires
        forall|i: int, j: int| 0 <= i < j < users.len() ==> #[trigger] users[i].id@ != #[trigger] users[j].id@,
    ensures
        0 <= holders(users, ch, uid) <= 1,
    decreases users.len(),
{
    if users.len() > 0 {
        let init = users.drop_last();
        let n = users.len() - 1;
        assert forall|i: int, j: int| 0 <= i < j < init.len() implies #[trigger] init[i].id@ != #[trigger] init[j].id@ by {
            assert(init[i] == users[i] && init[j] == users[j]);
        }
        lemma_holders_at_most_one(init, ch, uid);
        assert(users.last() == users[n]);
        if users[n].id@ == uid {
            assert forall|i: int| 0 <= i < init.len() implies #[trigger] init[i].id@ != uid by {
                assert(init[i] == users[i]);
            }
            lemma_holders_none(init, ch, uid);
        }
    }
}

/// Adding one bet adds its payout once for each participant of the channel
/// that holds the bettor's identity.
proof fn lemma_channel_credit_step(
    users: Seq<User>,
    ch: Seq<char>,
    bets: Seq<Bet>,
    cid: Seq<char>,
    pool: int,
    win: int,
)
    requires
        bets.len() > 0,
    ensures
        channel_credit(users, ch, bets, cid, pool, win) == channel_credit(users, ch, bets.drop_last(), cid, pool, win)
            + holders(users, ch, bets.last().user_id@) * (if bets.last().candidate_id@ == cid {
            payout_of(bets.last().amount as int, pool, win)
        } else {
            0
        }),
    decreases users.len(),
{
    let b = bets.last();
    let p = if b.candidate_id@ == cid {
        payout_of(b.amount as int, pool, win)
    } else {
        0
    };
    if users.len() > 0 {
        let init = users.drop_last();
        lemma_channel_credit_step(init, ch, bets, cid, pool, win);
        let h = holders(init, ch, b.user_id@);
        assert((h + 1) * p == h * p + p) by (nonlinear_arith);
    }
}

proof fn lemma_payout_nonneg(amount: int, pool: int, win: int)
    requires
        amount >= 0,
        pool >= 0,
    ensures
        payout_of(amount, pool, win) >= 0,
{
    if win > 0 {
        assert(amount * pool >= 0) by (nonlinear_arith)
            requires
                amount >= 0,
                pool >= 0,
        ;
        vstd::arithmetic::div_mod::lemma_div_pos_is_pos(amount * pool, win);
    }
}

/// Together, the participants of a channel with distinct identities receive
/// no more than the sum of the winning payouts.
proof fn lemma_channel_credit_le_payouts(
    users: Seq<User>,
    ch: Seq<char>,
    bets: Seq<Bet>,
    cid: Seq<char>,
    pool: int,
    win: int,
)
    requires
        forall|i: int, j: int| 0 <= i < j < users.len() ==> #[trigger] users[i].id@ != #[trigger] users[j].id@,
        all_positive(bets),
        pool >= 0,
    ensures
        channel_credit(users, ch, bets, cid, pool, win) <= payouts_total(bets, cid, pool, win),
    decreases bets.len(),
{
    if bets.len() == 0 {
        lemma_channel_credit_empty(users, ch, bets, cid, pool, win);
    } else {
        let init = bets.drop_last();
        assert forall|k: int| 0 <= k < init.len() implies #[trigger] init[k].amount > 0 by {
            assert(init[k] == bets[k]);
        }
        assert(bets.last() == bets[bets.len() - 1]);
        lemma_channel_credit_le_payouts(users, ch, init, cid, pool, win);
        lemma_channel_credit_step(users, ch, bets, cid, pool, win);
        lemma_holders_at_most_one(users, ch, bets.last().user_id@);
        lemma_payout_nonneg(bets.last().amount as int, pool, win);
        let h = holders(users, ch, bets.last().user_id@);
        let p = if bets.last().candidate_id@ == cid {
            payout_of(bets.last().amount as int, pool, win)
        } else {
            0
        };
        assert(h * p <= p) by (nonlinear_arith)
            requires
                0 <= h <= 1,
                p >= 0,
        ;
    }
}

proof fn lemma_channel_credit_empty(
    users: Seq<User>,
    ch: Seq<char>,
    bets: Seq<Bet>,
    cid: Seq<char>,
    pool: int,
    win: int,
)
    requires
        bets.len() == 0,
    ensures
        channel_credit(users, ch, bets, cid, pool, win) == 0,
    decreases users.len(),
{
    if users.len() > 0 {
        lemma_channel_credit_empty(users.drop_last(), ch, bets, cid, pool, win);
    }
}

/// Each payout is at most its share: the winning payouts times the winning
/// pool are at most the pool times the winning stakes.
proof fn lemma_payouts_scaled(bets: Seq<Bet>, cid: Seq<char>, pool: int, win: int)
    requires
        all_positive(bets),
        pool >= 0,
        win > 0,
    ensures
        payouts_total(bets, cid, pool, win) * win <= pool * sum_amounts(bets_on(bets, cid)),
    decreases bets.len(),
{
    if bets.len() > 0 {
        let init = bets.drop_last();
        assert forall|k: int| 0 <= k < init.len() implies #[trigger] init[k].amount > 0 by {
            assert(init[k] == bets[k]);
        }
        assert(bets.last() == bets[bets.len() - 1]);
        lemma_payouts_scaled(init, cid, pool, win);
        let t0 = payouts_total(init, cid, pool, win);
        let s0 = sum_amounts(bets_on(init, cid));
        if bets.last().candidate_id@ == cid {
            let a = bets.last().amount as int;
            let q = a * pool / win;
            vstd::arithmetic::div_mod::lemma_fundamental_div_mod(a * pool, win);
            vstd::arithmetic::div_mod::lemma_mod_pos_bound(a * pool, win);
            assert(q * win <= a * pool) by (nonlinear_arith)
                requires
                    a * pool == win * q + (a * pool) % win,
                    0 <= (a * pool) % win,
            ;
            assert(bets_on(bets, cid).drop_last() == bets_on(init, cid));
            assert((t0 + q) * win == t0 * win + q * win) by (nonlinear_arith);
            assert(pool * (s0 + a) == pool * s0 + pool * a) by (nonlinear_arith);
            assert(pool * a == a * pool) by (nonlinear_arith);
        }
    }
}

/// Settlement pays out no more than the pool: together the participants of
/// a channel, each with an identity of its own, receive at most the sum of
/// the stakes on the wager.
pub proof fn lemma_settlement_within_pool(users: Seq<User>, ch: Seq<char>, bets: Seq<Bet>, cid: Seq<char>)
    requires
        forall|i: int, j: int| 0 <= i < j < users.len() ==> #[trigger] users[i].id@ != #[trigger] users[j].id@,
        all_positive(bets),
    ensures
        channel_credit(
            users,
            ch,
            bets,
            cid,
            sum_amounts(bets),
            sum_amounts(bets_on(bets, cid)),
        ) <= sum_amounts(bets),
{
    let pool = sum_amounts(bets);
    let win = sum_amounts(bets_on(bets, cid));
    lemma_on_bounds(bets, cid);
    lemma_channel_credit_le_payouts(users, ch, bets, cid, pool, win);
    if win > 0 {
        lemma_payouts_scaled(bets, cid, pool, win);
        let t = payouts_total(bets, cid, pool, win);
        assert(t <= pool) by (nonlinear_arith)
            requires
                t * win <= pool * win,
                win > 0,
        ;
    } else {
        lemma_payouts_zero(bets, cid, pool, win);
    }
}

proof fn lemma_payouts_zero(bets: Seq<Bet>, cid: Seq<char>, pool: int, win: int)
    requires
        win <= 0,
    ensures
        payouts_total(bets, cid, pool, win) == 0,
    decreases bets.len(),
{
    if bets.len() > 0 {
        lemma_payouts_zero(bets.drop_last(), cid, pool, win);
    }
}

/// No participant loses points at settlement.
pub proof fn lemma_credit_nonneg(bets: Seq<Bet>, uid: Seq<char>, cid: Seq<char>, pool: int, win: int)
    requires
        all_positive(bets),
        pool >= 0,
    ensures
        credit(bets, uid, cid, pool, win) >= 0,
    decreases bets.len(),
{
    if bets.len() > 0 {
        let init = bets.drop_last();
        assert forall|k: int| 0 <= k < init.len() implies #[trigger] init[k].amount > 0 by {
            assert(init[k] == bets[k]);
        }
        assert(bets.last() == bets[bets.len() - 1]);
        lemma_credit_nonneg(init, uid, cid, pool, win);
        lemma_payout_nonneg(bets.last().amount as int, pool, win);
    }
}

/// The sum of the balances of the participants of channel `ch`.
pub open spec fn channel_balance(users: Seq<User>, ch: Seq<char>) -> int
    decreases users.len(),
{
    if users.len() == 0 {
        0
    } else {
        channel_balance(users.drop_last(), ch) + if users.last().channel_id@ == ch {
            users.last().balance as int
        } else {
            0
        }
    }
}

/// The balances after settlement add up to those before plus what the
/// channel's participants receive together.
pub proof fn lemma_settled_balance_sum(
    before: Seq<User>,
    after: Seq<User>,
    ch: Seq<char>,
    bets: Seq<Bet>,
    cid: Seq<char>,
    pool: int,
    win: int,
)
    requires
        after.len() == before.len(),
        forall|k: int|
            0 <= k < before.len() ==> i32::MIN <= #[trigger] settled_balance(before[k], ch, bets, cid, pool, win)
                <= i32::MAX,
        forall|k: int|
            0 <= k < before.len() ==> #[trigger] after[k] == (User {
                balance: settled_balance(before[k], ch, bets, cid, pool, win) as i32,
                ..before[k]
            }),
    ensures
        channel_balance(after, ch) == channel_balance(before, ch) + channel_credit(before, ch, bets, cid, pool, win),
    decreases before.len(),
{
    if before.len() > 0 {
        let n = before.len() - 1;
        let b0 = before.drop_last();
        let a0 = after.drop_last();
        assert forall|k: int| 0 <= k < b0.len() implies i32::MIN <= #[trigger] settled_balance(b0[k], ch, bets, cid, pool, win)
            <= i32::MAX by {
            assert(b0[k] == before[k]);
        }
        assert forall|k: int| 0 <= k < b0.len() implies #[trigger] a0[k] == (User {
            balance: settled_balance(b0[k], ch, bets, cid, pool, win) as i32,
            ..b0[k]
        }) by {
            assert(b0[k] == before[k] && a0[k] == after[k]);
        }
        lemma_settled_balance_sum(b0, a0, ch, bets, cid, pool, win);
        assert(before.last() == before[n] && after.last() == after[n]);
        assert(settled_balance(before[n], ch, bets, cid, pool, win) <= i32::MAX);
    }
}

/// The points that a winning stake of `amount` receives from a pool of
/// `total_pool`, of which `winning_pool` was staked on the winning outcome:
/// `amount * total_pool / winning_pool`, rounded down.
pub fn payout(amount: i32, total_pool: i64, winning_pool: i64) -> (r: i64)
    requires
        0 <= amount <= winning_pool <= total_pool,
        0 < winning_pool,
    ensures
        r == payout_of(amount as int, total_pool as int, winning_pool as int),
        0 <= r <= total_pool,
{
    let a = amount as i128;
    let t = total_pool as i128;
    let w = winning_pool as i128;
    proof {
        let ai = a as int;
        let ti = t as int;
        let wi = w as int;
        assert(0 <= ai * ti <= 2147483647 * 9223372036854775807) by (nonlinear_arith)
            requires
                0 <= ai <= 2147483647,
                0 <= ti <= 9223372036854775807,
        ;
        assert(ai * ti <= wi * ti) by (nonlinear_arith)
            requires
                0 <= ai <= wi,
                0 <= ti,
        ;
        vstd::arithmetic::div_mod::lemma_div_is_ordered(ai * ti, wi * ti, wi);
        vstd::arithmetic::div_mod::lemma_div_multiples_vanish(ti, wi);
        vstd::arithmetic::div_mod::lemma_div_pos_is_pos(ai * ti, wi);
    }
    let q = (a * t) / w;
    q as i64
}

/// The outcome of one bet at settlement: the stake paid at placement and
/// the points paid back now.
pub struct BalanceDiff {
    pub user_id: Id,
    pub amount: i32,
    pub payout: i64,
}

impl View for BalanceDiff {
    type V = (Seq<char>, int, int);

    open spec fn view(&self) -> (Seq<char>, int, int) {
        (self.user_id@, self.amount as int, self.payout as int)
    }
}

pub open spec fn diff_of(b: Bet, cid: Seq<char>, pool: int, win: int) -> (Seq<char>, int, int) {
    (
        b.user_id@,
        b.amount as int,
        if b.candidate_id@ == cid {
            payout_of(b.amount as int, pool, win)
        } else {
            0
        },
    )
}

pub open spec fn diff_views(diffs: Seq<BalanceDiff>) -> Seq<(Seq<char>, int, int)> {
    diffs.map_values(|d: BalanceDiff| d@)
}

/// The settlement of each bet of a wager, in ledger order: a bet on the
/// winning outcome `cid` gets its payout, any other gets nothing.
pub fn settlement_diffs(bets: &Vec<Bet>, cid: &Id, pool: i64, win: i64) -> (r: Vec<BalanceDiff>)
    requires
        all_positive(bets@),
        pool == sum_amounts(bets@),
        win == sum_amounts(bets_on(bets@, cid@)),
    ensures
        diff_views(r@) == bets@.map_values(|b: Bet| diff_of(b, cid@, pool as int, win as int)),
{
    proof {
        lemma_on_bounds(bets@, cid@);
    }
    let mut out: Vec<BalanceDiff> = Vec::new();
    let mut k: usize = 0;
    while k < bets.len()
        invariant
            k <= bets@.len(),
            all_positive(bets@),
            pool == sum_amounts(bets@),
            win == sum_amounts(bets_on(bets@, cid@)),
            0 <= win <= pool,
            out@.len() == k,
            forall|q: int| 0 <= q < k ==> #[trigger] out@[q]@ == diff_of(bets@[q], cid@, pool as int, win as int),
        decreases bets@.len() - k,
    {
        let b = &bets[k];
        let p: i64 = if b.candidate_id.value == cid.value {
            proof {
                lemma_amount_le_on(bets@, cid@, k as int);
            }
            payout(b.amount, pool, win)
        } else {
            0
        };
        out.push(BalanceDiff { user_id: b.user_id.clone(), amount: b.amount, payout: p });
        k += 1;
    }
    assert(diff_views(out@) =~= bets@.map_values(|b: Bet| diff_of(b, cid@, pool as int, win as int)));
    out
}

/// What participant `user_id` receives for the bets on `cid`.
fn credit_of(bets: &Vec<Bet>, user_id: &Id, cid: &Id, pool: i64, win: i64) -> (r: i128)
    requires
        bets@.len() <= MAX_BETS,
        all_positive(bets@),
        pool == sum_amounts(bets@),
        win == sum_amounts(bets_on(bets@, cid@)),
    ensures
        r == credit(bets@, user_id@, cid@, pool as int, win as int),
        0 <= r <= bets@.len() * 9223372036854775807,
{
    proof {
        lemma_on_bounds(bets@, cid@);
    }
    let mut acc: i128 = 0;
    let mut k: usize = 0;
    while k < bets.len()
        invariant
            k <= bets@.len() <= MAX_BETS,
            all_positive(bets@),
            pool == sum_amounts(bets@),
            win == sum_amounts(bets_on(bets@, cid@)),
            0 <= win <= pool,
            acc == credit(bets@.subrange(0, k as int), user_id@, cid@, pool as int, win as int),
            0 <= acc <= k * 9223372036854775807,
        decreases bets@.len() - k,
    {
        assert(bets@.subrange(0, k as int + 1).drop_last() =~= bets@.subrange(0, k as int));
        assert(bets@.subrange(0, k as int + 1).last() == bets@[k as int]);
        if bets[k].user_id.value == user_id.value && bets[k].candidate_id.value == cid.value {
            proof {
                lemma_amount_le_on(bets@, cid@, k as int);
            }
            let p = payout(bets[k].amount, pool, win);
            acc = acc + p as i128;
        }
        k += 1;
    }
    assert(bets@.subrange(0, bets@.len() as int) =~= bets@);
    acc
}

/// A participant's balance after settlement: a participant of channel `ch`
/// receives the payouts of its winning bets.
pub open spec fn settled_balance(
    u: User,
    ch: Seq<char>,
    bets: Seq<Bet>,
    cid: Seq<char>,
    pool: int,
    win: int,
) -> int {
    if u.channel_id@ == ch {
        u.balance + credit(bets, u.id@, cid, pool, win)
    } else {
        u.balance as int
    }
}

/// The balances after settlement, or none where one would not fit.
pub fn settle_users(
    users: &Vec<User>,
    ch: &Id,
    bets: &Vec<Bet>,
    cid: &Id,
    pool: i64,
    win: i64,
) -> (r: Option<Vec<User>>)
    requires
        bets@.len() <= MAX_BETS,
        all_positive(bets@),
        pool == sum_amounts(bets@),
        win == sum_amounts(bets_on(bets@, cid@)),
    ensures
        r is None <==> exists|k: int|
            0 <= k < users@.len() && #[trigger] settled_balance(
                users@[k],
                ch@,
                bets@,
                cid@,
                pool as int,
                win as int,
            ) > i32::MAX,
        r matches Some(v) ==> forall|k: int|
            0 <= k < users@.len() ==> #[trigger] v@[k].balance >= users@[k].balance,
        r matches Some(v) ==> v@.len() == users@.len() && forall|k: int|
            0 <= k < users@.len() ==> #[trigger] v@[k] == (User {
                balance: settled_balance(users@[k], ch@, bets@, cid@, pool as int, win as int) as i32,
                ..users@[k]
            }),
{
    let mut out: Vec<User> = Vec::new();
    let mut k: usize = 0;
    while k < users.len()
        invariant
            k <= users@.len(),
            bets@.len() <= MAX_BETS,
            all_positive(bets@),
            pool == sum_amounts(bets@),
            win == sum_amounts(bets_on(bets@, cid@)),
            out@.len() == k,
            forall|q: int| 0 <= q < k ==> #[trigger] out@[q].balance >= users@[q].balance,
            forall|q: int|
                0 <= q < k ==> #[trigger] settled_balance(users@[q], ch@, bets@, cid@, pool as int, win as int)
                    <= i32::MAX,
            forall|q: int|
                0 <= q < k ==> #[trigger] out@[q] == (User {
                    balance: settled_balance(users@[q], ch@, bets@, cid@, pool as int, win as int) as i32,
                    ..users@[q]
                }),
        decreases users@.len() - k,
    {
        let u = &users[k];
        let mut nu = u.clone();
        if u.channel_id == ch.value {
            let c = credit_of(bets, &u.id, cid, pool, win);
            if (u.balance as i128) + c > i32::MAX as i128 {
                assert(settled_balance(users@[k as int], ch@, bets@, cid@, pool as int, win as int) > i32::MAX);
                return None;
            }
            nu.balance = ((u.balance as i128) + c) as i32;
        }
        out.push(nu);
        k += 1;
    }
    Some(out)
}

} // verus!
