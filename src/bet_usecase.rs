use vstd::prelude::*;

use crate::model::{Bet, Id, User};
use crate::request::CreateBet;
use crate::store::{
    bet_id_fresh, first_candidate, has_bet, has_candidate, has_open, has_user,
    lemma_first_candidate_unique, open, registered, user_of, Store,
};

verus! {

/// The points granted for each stake placed, whatever its outcome.
pub const PARTICIPATION_PRIZE_POINT: i32 = 1000;

/// Why a stake was refused.
#[derive(Debug)]
pub enum BetUseCaseError {
    /// The stake was not positive, or no outcome was named.
    AmountMustBePositive,
    /// The participant already has a bet on the wager.
    EnabledBetAlreadyExists,
    /// The wager has no outcome of the given name.
    CandidateNotFound,
    /// The participant is not registered in the channel.
    UserNotFound,
    /// The channel has no wager that takes stakes.
    EnabledMatchNotFound,
    /// The balance cannot cover the stake.
    InsufficientBalance,
    /// The store could not complete the operation.
    UnexpectedError(String),
}

/// The balance after a stake of `amount`: the stake is paid and the
/// participation prize received.
pub open spec fn balance_after_stake(balance: int, amount: int) -> int {
    balance + PARTICIPATION_PRIZE_POINT - amount
}

/// Places stakes.
pub struct BetUseCase {}

impl BetUseCase {
    pub fn new() -> (r: BetUseCase) {
        BetUseCase {}
    }

    /// Stakes `amount` points of the participant on the named outcome of the
    /// channel's open wager, recording the bet under identity `bet_id`, which
    /// must be unused. The bet is recorded and the balance debited in one
    /// step; on any failure the store is left as it was.
    pub fn create_bet(&self, store: &mut Store, source: CreateBet, bet_id: Id) -> (r: Result<Bet, BetUseCaseError>)
        requires
            old(store).wf(),
        ensures
            final(store).wf(),
            ({
                let ms = old(store).matches@;
                let ch = source.channel_id@;
                let valid = source.amount > 0 && source.candidate_name@.len() > 0;
                let oi = open(ms, ch);
                let name = source.candidate_name@;
                let found_c = has_candidate(old(store).candidates@, ms[oi].id@, name);
                let ci = first_candidate(old(store).candidates@, ms[oi].id@, name);
                let found_u = has_user(old(store).users@, source.traq_id@, ch);
                let ui = user_of(old(store).users@, source.traq_id@, ch);
                let u = old(store).users@[ui];
                let nb = balance_after_stake(u.balance as int, source.amount as int);
                let reached = valid && has_open(ms, ch) && found_c && found_u;
                match r {
                    Err(e) => {
                        &&& *final(store) == *old(store)
                        &&& !valid ==> e == BetUseCaseError::AmountMustBePositive
                        &&& valid && !has_open(ms, ch) ==> e == BetUseCaseError::EnabledMatchNotFound
                        &&& valid && has_open(ms, ch) && !found_c ==> e == BetUseCaseError::CandidateNotFound
                        &&& valid && has_open(ms, ch) && found_c && !found_u ==> e == BetUseCaseError::UserNotFound
                        &&& reached && nb < 0 ==> e == BetUseCaseError::InsufficientBalance
                        &&& reached && nb > i32::MAX ==> e is UnexpectedError
                        &&& reached && 0 <= nb <= i32::MAX && has_bet(old(store).bets@, u.id@, ms[oi].id@)
                            ==> e == BetUseCaseError::EnabledBetAlreadyExists
                        &&& reached && 0 <= nb <= i32::MAX && !has_bet(old(store).bets@, u.id@, ms[oi].id@)
                            ==> e is UnexpectedError && !bet_id_fresh(*old(store), bet_id@)
                    },
                    Ok(b) => {
                        &&& reached
                        &&& 0 <= nb <= i32::MAX
                        &&& !has_bet(old(store).bets@, u.id@, ms[oi].id@)
                        &&& bet_id_fresh(*old(store), bet_id@)
                        &&& b.id == bet_id
                        &&& b.user_id == u.id
                        &&& b.match_id == ms[oi].id
                        &&& b.candidate_id == old(store).candidates@[ci].id
                        &&& b.amount == source.amount
                        &&& final(store).bets@ == old(store).bets@.push(b)
                        &&& final(store).users@ == old(store).users@.update(
                            ui,
                            User { balance: nb as i32, ..u },
                        )
                        &&& final(store).matches == old(store).matches
                        &&& final(store).candidates == old(store).candidates
                    },
                }
            }),
    {
        if source.candidate_name.as_str().is_empty() || source.amount <= 0 {
            return Err(BetUseCaseError::AmountMustBePositive);
        }
        let channel_id = Id::new(source.channel_id.clone());
        assert(channel_id@ == source.channel_id@);
        let oi = match store.open_match_index(&channel_id) {
            None => {
                return Err(BetUseCaseError::EnabledMatchNotFound);
            },
            Some(oi) => oi,
        };
        proof {
            store.lemma_open_unique(channel_id@, oi as int);
        }
        let mid = store.matches[oi].id.clone();
        let ci = match store.candidate_index(&mid, &source.candidate_name) {
            None => {
                return Err(BetUseCaseError::CandidateNotFound);
            },
            Some(ci) => ci,
        };
        proof {
            lemma_first_candidate_unique(store.candidates@, mid@, source.candidate_name@, ci as int);
        }
        let ui = match store.user_index(&source.traq_id, &source.channel_id) {
            None => {
                return Err(BetUseCaseError::UserNotFound);
            },
            Some(ui) => ui,
        };
        proof {
            store.lemma_user_unique(source.traq_id@, source.channel_id@, ui as int);
        }
        let nb: i64 = store.users[ui].balance as i64 + PARTICIPATION_PRIZE_POINT as i64 - source.amount as i64;
        if nb < 0 {
            return Err(BetUseCaseError::InsufficientBalance);
        }
        if nb > i32::MAX as i64 {
            return Err(BetUseCaseError::UnexpectedError("the balance would overflow".to_string()));
        }
        let uid = store.users[ui].id.clone();
        if store.bet_exists(&uid, &mid) {
            return Err(BetUseCaseError::EnabledBetAlreadyExists);
        }
        if !store.bet_id_unused(&bet_id) {
            return Err(BetUseCaseError::UnexpectedError("the bet identity is already in use".to_string()));
        }
        let ghost old_store = *store;
        let b = Bet {
            id: bet_id,
            user_id: uid,
            match_id: mid,
            candidate_id: store.candidates[ci].id.clone(),
            amount: source.amount,
        };
        let ghost old_bets = store.bets@;
        let ghost old_users = store.users@;
        store.users[ui].balance = nb as i32;
        store.bets.push(b.clone());
        assert forall|k: int, l: int|
            0 <= k < store.bets@.len() && 0 <= l < store.bets@.len() && #[trigger] store.bets@[k].user_id@
                == #[trigger] store.bets@[l].user_id@ && store.bets@[k].match_id@
                == store.bets@[l].match_id@ implies k == l by {
            let n = old_bets.len() as int;
            if k == n && l < n {
                assert(old_bets[l] == store.bets@[l]);
            } else if l == n && k < n {
                assert(old_bets[k] == store.bets@[k]);
            } else if k < n && l < n {
                assert(old_bets[k] == store.bets@[k] && old_bets[l] == store.bets@[l]);
            }
        }
        assert forall|k: int| 0 <= k < store.bets@.len() implies #[trigger] store.bets@[k].amount > 0 by {
            if k < old_bets.len() {
                assert(old_bets[k] == store.bets@[k]);
            }
        }
        assert forall|k: int, l: int|
            0 <= k < store.users@.len() && 0 <= l < store.users@.len() && #[trigger] store.users@[k].traq_id@
                == #[trigger] store.users@[l].traq_id@ && store.users@[k].channel_id@
                == store.users@[l].channel_id@ implies k == l by {
            assert(old_users[k].traq_id@ == store.users@[k].traq_id@);
            assert(old_users[l].traq_id@ == store.users@[l].traq_id@);
        }
        assert forall|k: int, l: int| 0 <= k < l < store.bets@.len() implies #[trigger] store.bets@[k].id@
            != #[trigger] store.bets@[l].id@ by {
            assert(old_bets[k] == store.bets@[k]);
            if l < old_bets.len() {
                assert(old_bets[l] == store.bets@[l]);
            }
        }
        assert forall|k: int, l: int| 0 <= k < l < store.users@.len() implies #[trigger] store.users@[k].id@
            != #[trigger] store.users@[l].id@ by {
            assert(old_users[k].id@ == store.users@[k].id@);
            assert(old_users[l].id@ == store.users@[l].id@);
        }
        assert forall|k: int| 0 <= k < store.bets@.len() implies #[trigger] registered(store.users@, store.bets@[k].user_id@) by {
            if k < old_bets.len() {
                assert(old_bets[k] == store.bets@[k]);
                assert(registered(old_users, old_bets[k].user_id@));
                let w = choose|w: int| 0 <= w < old_users.len() && #[trigger] old_users[w].id@ == old_bets[k].user_id@;
                assert(store.users@[w].id@ == old_users[w].id@);
            } else {
                assert(store.users@[ui as int].id@ == store.bets@[k].user_id@);
            }
        }
        assert forall|k: int| 0 <= k < store.users@.len() implies #[trigger] store.users@[k].balance >= 0 by {
            if k != ui {
                assert(old_users[k] == store.users@[k]);
            }
        }
        Ok(b)
    }
}

} // verus!
