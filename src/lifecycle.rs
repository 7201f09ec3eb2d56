use vstd::prelude::*;

use crate::bet_usecase::{balance_after_stake, PARTICIPATION_PRIZE_POINT};
use crate::model::{Bet, Match, User};
use crate::bet::{bets_on, sum_amounts};
use crate::settlement::{
    all_positive, bets_of_match, channel_balance, lemma_credit_nonneg, lemma_loser_receives_nothing,
    lemma_on_bounds,
    lemma_match_bets_one_per_user, lemma_match_bets_positive, lemma_settled_balance_sum,
    lemma_settlement_within_pool, lemma_winner_receives_payout, payout_of, settled_balance,
};
use crate::store::{
    active, has_active, has_bet, has_open, in_channel, is_latest, latest, lemma_latest_unique, open,
    Store,
};

verus! {

/// Opening a wager in a channel leaves the channel with an unsettled wager
/// that takes stakes and is its most recent, so a second opening there is
/// refused as a conflict until that wager is settled or cancelled.
pub proof fn lemma_open_blocks_second_open(before: Store, after: Store, m: Match)
    requires
        after.wf(),
        after.matches@ == before.matches@.push(m),
        m.winner_candidate_id is None,
        m.closed_at is None,
    ensures
        has_active(after.matches@, m.channel_id@),
        has_open(after.matches@, m.channel_id@),
        is_latest(after.matches@, m.channel_id@, before.matches@.len() as int),
        open(after.matches@, m.channel_id@) == before.matches@.len(),
{
    let n = before.matches@.len() as int;
    assert(after.matches@[n] == m);
    assert(in_channel(after.matches@, m.channel_id@, n));
    after.lemma_open_unique(m.channel_id@, n);
}

/// A stake changes the participant's balance by the participation prize
/// minus the stake, a strict decrease where the stake is larger than the
/// prize; the ledger gains a bet of that amount; and a second stake of the
/// participant on the same wager finds that bet and is refused as a
/// conflict.
pub proof fn lemma_stake_effect(before: Store, after: Store, b: Bet, ui: int)
    requires
        0 <= ui < before.users@.len(),
        b.user_id == before.users@[ui].id,
        0 <= balance_after_stake(before.users@[ui].balance as int, b.amount as int) <= i32::MAX,
        after.bets@ == before.bets@.push(b),
        after.users@ == before.users@.update(
            ui,
            User {
                balance: balance_after_stake(before.users@[ui].balance as int, b.amount as int) as i32,
                ..before.users@[ui]
            },
        ),
    ensures
        after.users@[ui].balance == before.users@[ui].balance - (b.amount - PARTICIPATION_PRIZE_POINT),
        b.amount > PARTICIPATION_PRIZE_POINT ==> after.users@[ui].balance < before.users@[ui].balance,
        after.bets@.last() == b,
        has_bet(after.bets@, after.users@[ui].id@, b.match_id@),
{
    let k = before.bets@.len() as int;
    assert(after.bets@[k] == b);
}

/// Settling the channel's most recent wager leaves it the most recent, now
/// with a winner, so settling again is refused as a conflict and leaves
/// every balance as it was.
pub proof fn lemma_finish_twice_conflicts(before: Store, after: Store, ch: Seq<char>, m: Match)
    requires
        exists|j: int| #[trigger] in_channel(before.matches@, ch, j),
        m.channel_id == before.matches@[latest(before.matches@, ch)].channel_id,
        m.winner_candidate_id is Some,
        after.matches@ == before.matches@.update(latest(before.matches@, ch), m),
    ensures
        exists|j: int| #[trigger] in_channel(after.matches@, ch, j),
        latest(after.matches@, ch) == latest(before.matches@, ch),
        after.matches@[latest(after.matches@, ch)].winner_candidate_id is Some,
{
    let j = choose|j: int| #[trigger] in_channel(before.matches@, ch, j);
    lemma_some_latest(before.matches@, ch, j);
    let i = latest(before.matches@, ch);
    assert(in_channel(after.matches@, ch, i));
    assert forall|q: int| i < q < after.matches@.len() implies !#[trigger] in_channel(after.matches@, ch, q) by {
        assert(after.matches@[q] == before.matches@[q]);
        assert(!in_channel(before.matches@, ch, q));
    }
    lemma_latest_unique(after.matches@, ch, i);
}

/// A channel with a wager has a most recent one.
pub proof fn lemma_some_latest(ms: Seq<Match>, ch: Seq<char>, j: int)
    requires
        in_channel(ms, ch, j),
    ensures
        is_latest(ms, ch, latest(ms, ch)),
    decreases ms.len() - j,
{
    if exists|q: int| j < q < ms.len() && #[trigger] in_channel(ms, ch, q) {
        let q = choose|q: int| j < q < ms.len() && #[trigger] in_channel(ms, ch, q);
        lemma_some_latest(ms, ch, q);
    } else {
        lemma_latest_unique(ms, ch, j);
    }
}

/// Cancelling the channel's unsettled wager leaves the channel without one,
/// so a wager can open there again.
pub proof fn lemma_cancel_frees_channel(before: Store, after: Store, ch: Seq<char>)
    requires
        before.wf(),
        has_active(before.matches@, ch),
        after.matches@ == before.matches@.remove(active(before.matches@, ch)),
    ensures
        !has_active(after.matches@, ch),
{
    let i = active(before.matches@, ch);
    assert(in_channel(before.matches@, ch, i) && before.matches@[i].is_active());
    if has_active(after.matches@, ch) {
        let a = choose|a: int| #[trigger] in_channel(after.matches@, ch, a) && after.matches@[a].is_active();
        let oa = if a < i { a } else { a + 1 };
        assert(after.matches@[a] == before.matches@[oa]);
        before.lemma_active_unique(ch, oa);
        before.lemma_active_unique(ch, i);
    }
}

/// Closing the channel's most recent wager leaves no wager of the channel
/// taking stakes, so a stake placed after the close is refused as finding
/// no open wager.
pub proof fn lemma_close_stops_stakes(before: Store, after: Store, ch: Seq<char>, m: Match)
    requires
        before.wf(),
        exists|j: int| #[trigger] in_channel(before.matches@, ch, j),
        m.closed_at is Some,
        after.matches@ == before.matches@.update(latest(before.matches@, ch), m),
    ensures
        !has_open(after.matches@, ch),
{
    let j0 = choose|j: int| #[trigger] in_channel(before.matches@, ch, j);
    lemma_some_latest(before.matches@, ch, j0);
    let l = latest(before.matches@, ch);
    if has_open(after.matches@, ch) {
        let o = choose|o: int| #[trigger] in_channel(after.matches@, ch, o) && after.matches@[o].is_open();
        assert(o != l);
        assert(after.matches@[o] == before.matches@[o]);
        assert(in_channel(before.matches@, ch, o));
        before.lemma_active_is_latest(ch, o);
    }
}


/// Settling wager `mid` of channel `ch` on outcome `cid`: a participant of
/// the channel whose bet on the wager won gains `floor(stake * pool / win)`,
/// and one whose bet lost, or who placed none, keeps its balance.
pub proof fn lemma_settlement_balances(
    s: Store,
    mid: Seq<char>,
    cid: Seq<char>,
    ch: Seq<char>,
    u: User,
    pool: int,
    win: int,
)
    requires
        s.wf(),
        u.channel_id@ == ch,
    ensures
        (forall|k: int|
            0 <= k < bets_of_match(s.bets@, mid).len() && #[trigger] bets_of_match(s.bets@, mid)[k].user_id@
                == u.id@ ==> bets_of_match(s.bets@, mid)[k].candidate_id@ != cid) ==> settled_balance(
            u,
            ch,
            bets_of_match(s.bets@, mid),
            cid,
            pool,
            win,
        ) == u.balance,
        forall|k: int|
            0 <= k < bets_of_match(s.bets@, mid).len() && #[trigger] bets_of_match(s.bets@, mid)[k].user_id@
                == u.id@ && bets_of_match(s.bets@, mid)[k].candidate_id@ == cid ==> settled_balance(
                u,
                ch,
                bets_of_match(s.bets@, mid),
                cid,
                pool,
                win,
            ) == u.balance + payout_of(bets_of_match(s.bets@, mid)[k].amount as int, pool, win),
{
    let mb = bets_of_match(s.bets@, mid);
    lemma_match_bets_one_per_user(s.bets@, mid);
    if forall|k: int| 0 <= k < mb.len() && #[trigger] mb[k].user_id@ == u.id@ ==> mb[k].candidate_id@ != cid {
        lemma_loser_receives_nothing(mb, u.id@, cid, pool, win);
    }
    assert forall|k: int|
        0 <= k < mb.len() && #[trigger] mb[k].user_id@ == u.id@ && mb[k].candidate_id@ == cid implies settled_balance(
        u,
        ch,
        mb,
        cid,
        pool,
        win,
    ) == u.balance + payout_of(mb[k].amount as int, pool, win) by {
        assert forall|j: int| 0 <= j < mb.len() && j != k implies #[trigger] mb[j].user_id@ != u.id@ by {
            if j < k {
                assert(mb[j].user_id@ != mb[k].user_id@);
            } else {
                assert(mb[k].user_id@ != mb[j].user_id@);
            }
        }
        lemma_winner_receives_payout(mb, u.id@, cid, pool, win, k);
    }
}


/// Settling wager `mid` on outcome `cid` credits the channel's participants
/// together no more than the pool: the sum of their balances grows by at
/// most the sum of the stakes on the wager.
pub proof fn lemma_finish_within_pool(before: Store, after: Store, ch: Seq<char>, mid: Seq<char>, cid: Seq<char>)
    requires
        before.wf(),
        after.users@.len() == before.users@.len(),
        forall|k: int|
            0 <= k < before.users@.len() ==> #[trigger] settled_balance(
                before.users@[k],
                ch,
                bets_of_match(before.bets@, mid),
                cid,
                sum_amounts(bets_of_match(before.bets@, mid)),
                sum_amounts(bets_on(bets_of_match(before.bets@, mid), cid)),
            ) <= i32::MAX,
        forall|k: int|
            0 <= k < before.users@.len() ==> #[trigger] after.users@[k] == (User {
                balance: settled_balance(
                    before.users@[k],
                    ch,
                    bets_of_match(before.bets@, mid),
                    cid,
                    sum_amounts(bets_of_match(before.bets@, mid)),
                    sum_amounts(bets_on(bets_of_match(before.bets@, mid), cid)),
                ) as i32,
                ..before.users@[k]
            }),
    ensures
        channel_balance(after.users@, ch) <= channel_balance(before.users@, ch) + sum_amounts(
            bets_of_match(before.bets@, mid),
        ),
{
    let mb = bets_of_match(before.bets@, mid);
    let pool = sum_amounts(mb);
    let win = sum_amounts(bets_on(mb, cid));
    assert(all_positive(before.bets@));
    lemma_match_bets_positive(before.bets@, mid);
    lemma_settlement_within_pool(before.users@, ch, mb, cid);
    lemma_on_bounds(mb, cid);
    assert forall|k: int| 0 <= k < before.users@.len() implies i32::MIN <= #[trigger] settled_balance(
        before.users@[k],
        ch,
        mb,
        cid,
        pool,
        win,
    ) <= i32::MAX by {
        lemma_credit_nonneg(mb, before.users@[k].id@, cid, pool, win);
    }
    lemma_settled_balance_sum(before.users@, after.users@, ch, mb, cid, pool, win);
}

} // verus!
