use vstd::prelude::*;

use crate::bet::{bets_for_candidate, bets_on, sum_amounts, total_amount, MAX_BETS};
use crate::model::{Candidate, Id, Match, User};
use crate::request::{CloseMatch, CreateMatch, FinishMatch};
use crate::settlement::{
    bets_of_match, diff_of, diff_views, lemma_match_bets_len, lemma_match_bets_positive, settle_users, settled_balance,
    settlement_diffs, BalanceDiff,
};
use crate::store::{
    active, candidate_id_fresh, candidates_of_match, first_candidate, has_active, has_candidate,
    in_channel, is_latest, latest, lemma_candidates_of_append, lemma_first_candidate_unique,
    lemma_latest_unique, match_id_fresh, registered, Store,
};

verus! {

/// Why a wager operation failed.
#[derive(Debug)]
pub enum MatchUseCaseError {
    /// The wager already has a winner.
    WinnerCandidateAlreadySet,
    /// Fewer than two outcomes were named.
    CandidateMustNotBeEmpty,
    /// An outcome was named twice.
    CandidateNameDuplicated,
    /// The channel already has an unsettled wager.
    EnabledMatchAlreadyExists,
    /// The channel has no wager that the operation applies to.
    EnabledMatchNotFound,
    /// The wager has no outcome of the given name.
    CandidateNotFound,
    /// The store could not complete the operation.
    UnexpectedError(String),
}

/// No two names are equal.
pub open spec fn distinct_names(names: Seq<String>) -> bool {
    forall|i: int, j: int| 0 <= i < j < names.len() ==> #[trigger] names[i]@ != #[trigger] names[j]@
}

/// Whether no two names are equal.
pub fn names_are_distinct(names: &Vec<String>) -> (r: bool)
    ensures
        r == distinct_names(names@),
{
    let mut i: usize = 0;
    while i < names.len()
        invariant
            i <= names@.len(),
            forall|a: int, b: int| 0 <= a < i && a < b < names@.len() ==> #[trigger] names@[a]@ != #[trigger] names@[b]@,
        decreases names@.len() - i,
    {
        let mut j: usize = i + 1;
        while j < names.len()
            invariant
                i < j <= names@.len(),
                forall|a: int, b: int| 0 <= a < i && a < b < names@.len() ==> #[trigger] names@[a]@ != #[trigger] names@[b]@,
                forall|b: int| i < b < j ==> names@[i as int]@ != #[trigger] names@[b]@,
            decreases names@.len() - j,
        {
            if names[i] == names[j] {
                return false;
            }
            j += 1;
        }
        i += 1;
    }
    true
}

/// The outcomes stored with a new wager: one per name, in order, with the
/// identities supplied.
pub open spec fn outcomes_of(news: Seq<Candidate>, names: Seq<String>, ids: Seq<Id>, mid: Seq<char>) -> bool {
    &&& news.len() == names.len()
    &&& forall|k: int|
        0 <= k < news.len() ==> (#[trigger] news[k]).name == names[k] && news[k].id == ids[k]
            && news[k].match_id@ == mid && news[k].is_winner is None
}

/// No two identities are equal.
pub open spec fn distinct_ids(ids: Seq<Id>) -> bool {
    forall|i: int, j: int| 0 <= i < j < ids.len() ==> #[trigger] ids[i]@ != #[trigger] ids[j]@
}

/// The identities can be given to a new wager and its `n` outcomes: one
/// per outcome, each distinct, none in use.
pub open spec fn ids_usable(s: Store, mid: Seq<char>, cids: Seq<Id>, n: int) -> bool {
    &&& cids.len() == n
    &&& match_id_fresh(s, mid)
    &&& distinct_ids(cids)
    &&& forall|k: int| 0 <= k < cids.len() ==> #[trigger] candidate_id_fresh(s, cids[k]@)
}

/// Whether the identities can be given to a new wager and its `n` outcomes.
fn ids_are_usable(s: &Store, mid: &Id, cids: &Vec<Id>, n: usize) -> (r: bool)
    ensures
        r == ids_usable(*s, mid@, cids@, n as int),
{
    if cids.len() != n || !s.match_id_unused(mid) {
        return false;
    }
    let mut i: usize = 0;
    while i < cids.len()
        invariant
            i <= cids@.len(),
            forall|a: int, b: int| 0 <= a < i && a < b < cids@.len() ==> #[trigger] cids@[a]@ != #[trigger] cids@[b]@,
            forall|k: int| 0 <= k < i ==> #[trigger] candidate_id_fresh(*s, cids@[k]@),
        decreases cids@.len() - i,
    {
        if !s.candidate_id_unused(&cids[i]) {
            assert(!candidate_id_fresh(*s, cids@[i as int]@));
            return false;
        }
        let mut j: usize = i + 1;
        while j < cids.len()
            invariant
                i < j <= cids@.len(),
                forall|a: int, b: int| 0 <= a < i && a < b < cids@.len() ==> #[trigger] cids@[a]@ != #[trigger] cids@[b]@,
                forall|b: int| i < b < j ==> cids@[i as int]@ != #[trigger] cids@[b]@,
            decreases cids@.len() - j,
        {
            if cids[i].value == cids[j].value {
                assert(cids@[i as int]@ == cids@[j as int]@);
                return false;
            }
            j += 1;
        }
        i += 1;
    }
    true
}

/// Runs the wager lifecycle: open, close, settle, cancel.
pub struct MatchUseCase {}

impl MatchUseCase {
    pub fn new() -> (r: MatchUseCase) {
        MatchUseCase {}
    }

    /// Opens a wager on the named outcomes in the channel, with its
    /// outcomes, in one step. The caller supplies the new records'
    /// identities, one for the wager and one per outcome name, and the time
    /// of creation; identities already in use are refused.
    pub fn create_match(
        &self,
        store: &mut Store,
        match_source: CreateMatch,
        candidates_source: Vec<String>,
        match_id: Id,
        candidate_ids: Vec<Id>,
        created_at: i64,
    ) -> (r: Result<Match, MatchUseCaseError>)
        requires
            old(store).wf(),
        ensures
            final(store).wf(),
            match r {
                Err(e) => {
                    &&& *final(store) == *old(store)
                    &&& candidates_source@.len() < 2 ==> e == MatchUseCaseError::CandidateMustNotBeEmpty
                    &&& candidates_source@.len() >= 2 && !distinct_names(candidates_source@)
                        ==> e == MatchUseCaseError::CandidateNameDuplicated
                    &&& candidates_source@.len() >= 2 && distinct_names(candidates_source@) && has_active(
                        old(store).matches@,
                        match_source.channel_id@,
                    ) ==> e == MatchUseCaseError::EnabledMatchAlreadyExists
                    &&& candidates_source@.len() >= 2 && distinct_names(candidates_source@) && !has_active(
                        old(store).matches@,
                        match_source.channel_id@,
                    ) ==> e is UnexpectedError && !ids_usable(
                        *old(store),
                        match_id@,
                        candidate_ids@,
                        candidates_source@.len() as int,
                    )
                },
                Ok(m) => {
                    &&& candidates_source@.len() >= 2
                    &&& distinct_names(candidates_source@)
                    &&& !has_active(old(store).matches@, match_source.channel_id@)
                    &&& ids_usable(*old(store), match_id@, candidate_ids@, candidates_source@.len() as int)
                    &&& final(store).matches@ == old(store).matches@.push(m)
                    &&& m.id == match_id
                    &&& m.title == match_source.title
                    &&& m.channel_id@ == match_source.channel_id@
                    &&& m.message_id is None
                    &&& m.created_at == created_at
                    &&& m.closed_at is None
                    &&& m.winner_candidate_id is None
                    &&& final(store).candidates@.subrange(0, old(store).candidates@.len() as int)
                        == old(store).candidates@
                    &&& candidates_of_match(final(store).candidates@, m.id@)
                        == final(store).candidates@.subrange(
                        old(store).candidates@.len() as int,
                        final(store).candidates@.len() as int,
                    )
                    &&& outcomes_of(
                        candidates_of_match(final(store).candidates@, m.id@),
                        candidates_source@,
                        candidate_ids@,
                        m.id@,
                    )
                    &&& final(store).bets == old(store).bets
                    &&& final(store).users == old(store).users
                },
            },
    {
        if candidates_source.len() < 2 {
            return Err(MatchUseCaseError::CandidateMustNotBeEmpty);
        }
        if !names_are_distinct(&candidates_source) {
            return Err(MatchUseCaseError::CandidateNameDuplicated);
        }
        let channel_id = Id::new(match_source.channel_id);
        if store.active_match_index(&channel_id).is_some() {
            return Err(MatchUseCaseError::EnabledMatchAlreadyExists);
        }
        if !ids_are_usable(store, &match_id, &candidate_ids, candidates_source.len()) {
            return Err(MatchUseCaseError::UnexpectedError("an identity is already in use".to_string()));
        }
        let m = Match {
            id: match_id,
            title: match_source.title,
            channel_id,
            message_id: None,
            created_at,
            closed_at: None,
            winner_candidate_id: None,
        };
        let ghost old_ms = store.matches@;
        let ghost old_store = *store;
        let ghost n = old_ms.len() as int;
        store.matches.push(m.clone());
        assert forall|a: int, b: int|
            0 <= a < b < store.matches@.len() && #[trigger] store.matches@[a].is_active()
                implies store.matches@[a].channel_id@ != #[trigger] store.matches@[b].channel_id@ by {
            if b == n {
                assert(old_ms[a] == store.matches@[a]);
                if store.matches@[a].channel_id@ == m.channel_id@ {
                    assert(in_channel(old_ms, m.channel_id@, a));
                }
            } else {
                assert(old_ms[a] == store.matches@[a] && old_ms[b] == store.matches@[b]);
            }
        }
        assert forall|a: int, b: int| 0 <= a < b < store.matches@.len() implies #[trigger] store.matches@[a].id@
            != #[trigger] store.matches@[b].id@ by {
            assert(old_ms[a] == store.matches@[a]);
            if b < n {
                assert(old_ms[b] == store.matches@[b]);
            }
        }
        let ghost old_cs = store.candidates@;
        let ghost ms_after = store.matches;
        let mut k: usize = 0;
        while k < candidates_source.len()
            invariant
                k <= candidates_source@.len() == candidate_ids@.len(),
                store.candidates@.len() == old_cs.len() + k,
                store.candidates@.subrange(0, old_cs.len() as int) == old_cs,
                forall|q: int|
                    0 <= q < k ==> #[trigger] store.candidates@[old_cs.len() + q] == (Candidate {
                        id: candidate_ids@[q],
                        name: candidates_source@[q],
                        match_id: m.id,
                        is_winner: None,
                    }),
                store.matches == ms_after,
                store.bets == old(store).bets,
                store.users == old(store).users,
            decreases candidates_source@.len() - k,
        {
            let c = Candidate {
                id: candidate_ids[k].clone(),
                name: candidates_source[k].clone(),
                match_id: m.id.clone(),
                is_winner: None,
            };
            store.candidates.push(c);
            assert(store.candidates@.subrange(0, old_cs.len() as int) =~= old_cs);
            k += 1;
        }
        let ghost news = store.candidates@.subrange(old_cs.len() as int, store.candidates@.len() as int);
        assert(store.candidates@ =~= old_cs + news);
        assert forall|q: int| 0 <= q < news.len() implies #[trigger] news[q] == (Candidate {
            id: candidate_ids@[q],
            name: candidates_source@[q],
            match_id: m.id,
            is_winner: None,
        }) by {
            assert(news[q] == store.candidates@[old_cs.len() + q]);
        }
        proof {
            lemma_candidates_of_append(old_cs, news, m.id@);
            let oc = old_cs.len() as int;
            assert forall|a: int, b: int| 0 <= a < b < store.candidates@.len() implies #[trigger] store.candidates@[a].id@
                != #[trigger] store.candidates@[b].id@ by {
                if b < oc {
                    assert(old_cs[a] == store.candidates@[a] && old_cs[b] == store.candidates@[b]);
                } else if a < oc {
                    assert(old_cs[a] == store.candidates@[a]);
                    assert(store.candidates@[b] == news[b - oc]);
                    assert(candidate_id_fresh(old_store, candidate_ids@[b - oc]@));
                } else {
                    assert(store.candidates@[a] == news[a - oc] && store.candidates@[b] == news[b - oc]);
                }
            }
            assert forall|a: int, b: int|
                0 <= a < b < store.candidates@.len() && #[trigger] store.candidates@[a].match_id@
                    == #[trigger] store.candidates@[b].match_id@ implies store.candidates@[a].name@
                != store.candidates@[b].name@ by {
                if b < oc {
                    assert(old_cs[a] == store.candidates@[a] && old_cs[b] == store.candidates@[b]);
                } else if a < oc {
                    assert(old_cs[a] == store.candidates@[a]);
                    assert(store.candidates@[b] == news[b - oc]);
                } else {
                    assert(store.candidates@[a] == news[a - oc] && store.candidates@[b] == news[b - oc]);
                }
            }
        }
        Ok(m)
    }

    /// Stops taking stakes on the channel's most recent wager, which must be
    /// neither closed nor settled, recording `closed_at` as the time.
    pub fn close_match(&self, store: &mut Store, source: CloseMatch, closed_at: i64) -> (r: Result<
        Match,
        MatchUseCaseError,
    >)
        requires
            old(store).wf(),
        ensures
            final(store).wf(),
            match r {
                Err(e) => {
                    &&& *final(store) == *old(store)
                    &&& e == MatchUseCaseError::EnabledMatchNotFound
                    &&& !(exists|i: int| #[trigger] in_channel(old(store).matches@, source.channel_id@, i))
                        || old(store).matches@[latest(old(store).matches@, source.channel_id@)].closed_at is Some
                        || old(store).matches@[latest(old(store).matches@, source.channel_id@)].winner_candidate_id is Some
                },
                Ok(m) => {
                    let i = latest(old(store).matches@, source.channel_id@);
                    &&& is_latest(old(store).matches@, source.channel_id@, i)
                    &&& old(store).matches@[i].is_open()
                    &&& m.closed_at == Some(closed_at)
                    &&& m == (Match { closed_at: m.closed_at, ..old(store).matches@[i] })
                    &&& final(store).matches@ == old(store).matches@.update(i, m)
                    &&& final(store).candidates == old(store).candidates
                    &&& final(store).bets == old(store).bets
                    &&& final(store).users == old(store).users
                },
            },
    {
        let channel_id = Id::new(source.channel_id);
        assert(channel_id@ == source.channel_id@);
        let i = match store.latest_match_index(&channel_id) {
            None => {
                assert(!exists|j: int| #[trigger] in_channel(store.matches@, source.channel_id@, j));
                return Err(MatchUseCaseError::EnabledMatchNotFound);
            },
            Some(i) => i,
        };
        proof {
            lemma_latest_unique(store.matches@, channel_id@, i as int);
        }
        if store.matches[i].closed_at.is_some() || store.matches[i].winner_candidate_id.is_some() {
            return Err(MatchUseCaseError::EnabledMatchNotFound);
        }
        let ghost old_ms = store.matches@;
        store.matches[i].closed_at = Some(closed_at);
        assert(store.matches@ == old_ms.update(i as int, store.matches@[i as int]));
        assert forall|a: int, b: int|
            0 <= a < b < store.matches@.len() && #[trigger] store.matches@[a].is_active()
                implies store.matches@[a].channel_id@ != #[trigger] store.matches@[b].channel_id@ by {
            assert(old_ms[a].is_active());
            assert(old_ms[a].channel_id@ == store.matches@[a].channel_id@);
            assert(old_ms[b].channel_id@ == store.matches@[b].channel_id@);
        }
        Ok(store.matches[i].clone())
    }

    /// Declares the winning outcome of the channel's most recent wager and
    /// pays the pool out to the winning bets, in one step: the wager gets
    /// its winner, the outcome its flag, and each participant of the channel
    /// the payouts of its winning bets. Also returns what each bet of the
    /// wager paid and received.
    pub fn finish_match(&self, store: &mut Store, source: FinishMatch) -> (r: Result<
        (Match, Vec<BalanceDiff>),
        MatchUseCaseError,
    >)
        requires
            old(store).wf(),
        ensures
            final(store).wf(),
            ({
                let ms = old(store).matches@;
                let ch = source.channel_id@;
                let i = latest(ms, ch);
                let found = exists|j: int| #[trigger] in_channel(ms, ch, j);
                let name = source.winner_candidate_name@;
                let ci = first_candidate(old(store).candidates@, ms[i].id@, name);
                let cid = old(store).candidates@[ci].id@;
                let mbets = bets_of_match(old(store).bets@, ms[i].id@);
                let pool = sum_amounts(mbets);
                let win = sum_amounts(bets_on(mbets, cid));
                let overflow = exists|k: int|
                    0 <= k < old(store).users@.len() && #[trigger] settled_balance(
                        old(store).users@[k],
                        ch,
                        mbets,
                        cid,
                        pool,
                        win,
                    ) > i32::MAX;
                match r {
                    Err(e) => {
                        &&& *final(store) == *old(store)
                        &&& !found ==> e == MatchUseCaseError::EnabledMatchNotFound
                        &&& found && ms[i].winner_candidate_id is Some ==> e
                            == MatchUseCaseError::WinnerCandidateAlreadySet
                        &&& found && ms[i].winner_candidate_id is None && !has_candidate(
                            old(store).candidates@,
                            ms[i].id@,
                            name,
                        ) ==> e == MatchUseCaseError::CandidateNotFound
                        &&& found && ms[i].winner_candidate_id is None && has_candidate(
                            old(store).candidates@,
                            ms[i].id@,
                            name,
                        ) ==> e is UnexpectedError && (old(store).bets@.len() > MAX_BETS
                            || overflow)
                    },
                    Ok((m, diffs)) => {
                        &&& found
                        &&& is_latest(ms, ch, i)
                        &&& ms[i].winner_candidate_id is None
                        &&& has_candidate(old(store).candidates@, ms[i].id@, name)
                        &&& old(store).bets@.len() <= MAX_BETS
                        &&& !overflow
                        &&& m == (Match {
                            winner_candidate_id: Some(old(store).candidates@[ci].id),
                            ..ms[i]
                        })
                        &&& final(store).matches@ == ms.update(i, m)
                        &&& final(store).candidates@ == old(store).candidates@.update(
                            ci,
                            Candidate { is_winner: Some(true), ..old(store).candidates@[ci] },
                        )
                        &&& final(store).bets == old(store).bets
                        &&& final(store).users@.len() == old(store).users@.len()
                        &&& forall|k: int|
                            0 <= k < old(store).users@.len() ==> #[trigger] final(store).users@[k]
                                == (User {
                                balance: settled_balance(
                                    old(store).users@[k],
                                    ch,
                                    mbets,
                                    cid,
                                    pool,
                                    win,
                                ) as i32,
                                ..old(store).users@[k]
                            })
                        &&& diff_views(diffs@) == mbets.map_values(
                            |b: crate::model::Bet| diff_of(b, cid, pool, win),
                        )
                    },
                }
            }),
    {
        let ch = Id::new(source.channel_id);
        assert(ch@ == source.channel_id@);
        let i = match store.latest_match_index(&ch) {
            None => {
                assert(!exists|j: int| #[trigger] in_channel(store.matches@, source.channel_id@, j));
                return Err(MatchUseCaseError::EnabledMatchNotFound);
            },
            Some(i) => i,
        };
        proof {
            lemma_latest_unique(store.matches@, ch@, i as int);
        }
        if store.matches[i].winner_candidate_id.is_some() {
            return Err(MatchUseCaseError::WinnerCandidateAlreadySet);
        }
        let mid = store.matches[i].id.clone();
        let ci = match store.candidate_index(&mid, &source.winner_candidate_name) {
            None => {
                return Err(MatchUseCaseError::CandidateNotFound);
            },
            Some(ci) => ci,
        };
        proof {
            lemma_first_candidate_unique(store.candidates@, mid@, source.winner_candidate_name@, ci as int);
        }
        if store.bets.len() > MAX_BETS {
            return Err(MatchUseCaseError::UnexpectedError("the ledger is too large to settle".to_string()));
        }
        let mbets = store.select_bets_by_match_id(&mid);
        proof {
            lemma_match_bets_positive(store.bets@, mid@);
            lemma_match_bets_len(store.bets@, mid@);
        }
        let pool = total_amount(&mbets);
        let cid = store.candidates[ci].id.clone();
        let (_, win) = bets_for_candidate(&mbets, &cid);
        let diffs = settlement_diffs(&mbets, &cid, pool, win);
        let new_users = match settle_users(&store.users, &ch, &mbets, &cid, pool, win) {
            None => {
                return Err(MatchUseCaseError::UnexpectedError("a balance would overflow".to_string()));
            },
            Some(v) => v,
        };
        let ghost old_ms = store.matches@;
        let ghost old_users = store.users@;
        let ghost old_cs = store.candidates@;
        store.matches[i].winner_candidate_id = Some(cid);
        store.candidates[ci].is_winner = Some(true);
        store.users = new_users;
        assert forall|a: int, b: int|
            0 <= a < b < store.matches@.len() && #[trigger] store.matches@[a].is_active()
                implies store.matches@[a].channel_id@ != #[trigger] store.matches@[b].channel_id@ by {
            assert(old_ms[a].is_active());
            assert(old_ms[a].channel_id@ == store.matches@[a].channel_id@);
            assert(old_ms[b].channel_id@ == store.matches@[b].channel_id@);
        }
        assert forall|k: int| 0 <= k < store.users@.len() implies #[trigger] store.users@[k].balance >= 0 by {
            assert(old_users[k].balance >= 0);
        }
        assert forall|a: int, b: int| 0 <= a < b < store.matches@.len() implies #[trigger] store.matches@[a].id@
            != #[trigger] store.matches@[b].id@ by {
            assert(old_ms[a].id@ == store.matches@[a].id@ && old_ms[b].id@ == store.matches@[b].id@);
        }
        assert forall|a: int, b: int| 0 <= a < b < store.candidates@.len() implies #[trigger] store.candidates@[a].id@
            != #[trigger] store.candidates@[b].id@ by {
            assert(old_cs[a].id@ == store.candidates@[a].id@ && old_cs[b].id@ == store.candidates@[b].id@);
        }
        assert forall|a: int, b: int|
            0 <= a < b < store.candidates@.len() && #[trigger] store.candidates@[a].match_id@
                == #[trigger] store.candidates@[b].match_id@ implies store.candidates@[a].name@
            != store.candidates@[b].name@ by {
            assert(old_cs[a].match_id@ == store.candidates@[a].match_id@ && old_cs[b].match_id@
                == store.candidates@[b].match_id@);
            assert(old_cs[a].name@ == store.candidates@[a].name@ && old_cs[b].name@ == store.candidates@[b].name@);
        }
        assert forall|a: int, b: int| 0 <= a < b < store.users@.len() implies #[trigger] store.users@[a].id@
            != #[trigger] store.users@[b].id@ by {
            assert(old_users[a].id@ == store.users@[a].id@ && old_users[b].id@ == store.users@[b].id@);
        }
        assert forall|k: int| 0 <= k < store.bets@.len() implies #[trigger] registered(store.users@, store.bets@[k].user_id@) by {
            assert(registered(old_users, store.bets@[k].user_id@));
            let w = choose|w: int| 0 <= w < old_users.len() && #[trigger] old_users[w].id@ == store.bets@[k].user_id@;
            assert(store.users@[w].id@ == old_users[w].id@);
        }
        Ok((store.matches[i].clone(), diffs))
    }

    /// Cancels the channel's unsettled wager: its record goes, its outcomes
    /// and bets stay, and no stake is refunded.
    pub fn delete_match(&self, store: &mut Store, channel_id: Id) -> (r: Result<(), MatchUseCaseError>)
        requires
            old(store).wf(),
        ensures
            final(store).wf(),
            match r {
                Err(e) => {
                    &&& *final(store) == *old(store)
                    &&& e == MatchUseCaseError::EnabledMatchNotFound
                    &&& !has_active(old(store).matches@, channel_id@)
                },
                Ok(_) => {
                    &&& has_active(old(store).matches@, channel_id@)
                    &&& final(store).matches@ == old(store).matches@.remove(
                        active(old(store).matches@, channel_id@),
                    )
                    &&& final(store).candidates == old(store).candidates
                    &&& final(store).bets == old(store).bets
                    &&& final(store).users == old(store).users
                },
            },
    {
        let i = match store.active_match_index(&channel_id) {
            None => {
                return Err(MatchUseCaseError::EnabledMatchNotFound);
            },
            Some(i) => i,
        };
        proof {
            store.lemma_active_unique(channel_id@, i as int);
        }
        let ghost old_ms = store.matches@;
        store.matches.remove(i);
        assert forall|a: int, b: int|
            0 <= a < b < store.matches@.len() && #[trigger] store.matches@[a].is_active()
                implies store.matches@[a].channel_id@ != #[trigger] store.matches@[b].channel_id@ by {
            let oa = if a < i { a } else { a + 1 };
            let ob = if b < i { b } else { b + 1 };
            assert(store.matches@[a] == old_ms[oa] && store.matches@[b] == old_ms[ob]);
        }
        Ok(())
    }
}

} // verus!
