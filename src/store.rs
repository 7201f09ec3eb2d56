use vstd::prelude::*;

use crate::model::{Bet, Candidate, FindUser, Id, Match, User};
use crate::settlement::bets_of_match;

verus! {

/// The records of the engine: wagers, their outcomes, the bet ledger and the
/// participants' balances.
pub struct Store {
    pub matches: Vec<Match>,
    pub candidates: Vec<Candidate>,
    pub bets: Vec<Bet>,
    pub users: Vec<User>,
}

/// The wager at `i` belongs to channel `ch`.
pub open spec fn in_channel(ms: Seq<Match>, ch: Seq<char>, i: int) -> bool {
    0 <= i < ms.len() && ms[i].channel_id@ == ch
}

/// The wager at `i` is the channel's most recent one. Wagers are stored in
/// the order in which they were created, so it is the channel's last.
pub open spec fn is_latest(ms: Seq<Match>, ch: Seq<char>, i: int) -> bool {
    &&& in_channel(ms, ch, i)
    &&& forall|j: int| i < j < ms.len() ==> !#[trigger] in_channel(ms, ch, j)
}

/// The index of the channel's most recent wager, where it has one.
pub open spec fn latest(ms: Seq<Match>, ch: Seq<char>) -> int {
    choose|i: int| is_latest(ms, ch, i)
}

/// A channel has one most recent wager at most.
pub proof fn lemma_latest_unique(ms: Seq<Match>, ch: Seq<char>, i: int)
    requires
        is_latest(ms, ch, i),
    ensures
        latest(ms, ch) == i,
        is_latest(ms, ch, latest(ms, ch)),
{
    let j = latest(ms, ch);
    assert(is_latest(ms, ch, j));
    if j < i {
        assert(in_channel(ms, ch, i));
    } else if i < j {
        assert(in_channel(ms, ch, j));
    }
}

/// The index of the channel's unsettled wager, where it has one.
pub open spec fn active(ms: Seq<Match>, ch: Seq<char>) -> int {
    choose|i: int| #[trigger] in_channel(ms, ch, i) && ms[i].is_active()
}

/// The channel has a wager that takes stakes.
pub open spec fn has_open(ms: Seq<Match>, ch: Seq<char>) -> bool {
    exists|i: int| #[trigger] in_channel(ms, ch, i) && ms[i].is_open()
}

/// The index of the channel's wager that takes stakes, where it has one.
pub open spec fn open(ms: Seq<Match>, ch: Seq<char>) -> int {
    choose|i: int| #[trigger] in_channel(ms, ch, i) && ms[i].is_open()
}

/// The index of the participant registered as `traq_id` in `ch`.
pub open spec fn user_of(us: Seq<User>, traq_id: Seq<char>, ch: Seq<char>) -> int {
    choose|i: int| is_user(us, traq_id, ch, i)
}

/// The participants registered in channel `ch`, in order of registration.
pub open spec fn users_in_channel(us: Seq<User>, ch: Seq<char>) -> Seq<User>
    decreases us.len(),
{
    if us.len() == 0 {
        Seq::empty()
    } else if us.last().channel_id@ == ch {
        users_in_channel(us.drop_last(), ch).push(us.last())
    } else {
        users_in_channel(us.drop_last(), ch)
    }
}

/// The outcomes of wager `mid`, in order.
pub open spec fn candidates_of_match(cs: Seq<Candidate>, mid: Seq<char>) -> Seq<Candidate>
    decreases cs.len(),
{
    if cs.len() == 0 {
        Seq::empty()
    } else if cs.last().match_id@ == mid {
        candidates_of_match(cs.drop_last(), mid).push(cs.last())
    } else {
        candidates_of_match(cs.drop_last(), mid)
    }
}

pub open spec fn unique_match_ids(ms: Seq<Match>) -> bool {
    forall|i: int, j: int| 0 <= i < j < ms.len() ==> #[trigger] ms[i].id@ != #[trigger] ms[j].id@
}

pub open spec fn unique_candidate_ids(cs: Seq<Candidate>) -> bool {
    forall|i: int, j: int| 0 <= i < j < cs.len() ==> #[trigger] cs[i].id@ != #[trigger] cs[j].id@
}

pub open spec fn unique_names_per_match(cs: Seq<Candidate>) -> bool {
    forall|i: int, j: int|
        0 <= i < j < cs.len() && #[trigger] cs[i].match_id@ == #[trigger] cs[j].match_id@ ==> cs[i].name@
            != cs[j].name@
}

pub open spec fn unique_bet_ids(bs: Seq<Bet>) -> bool {
    forall|i: int, j: int| 0 <= i < j < bs.len() ==> #[trigger] bs[i].id@ != #[trigger] bs[j].id@
}

pub open spec fn unique_user_ids(us: Seq<User>) -> bool {
    forall|i: int, j: int| 0 <= i < j < us.len() ==> #[trigger] us[i].id@ != #[trigger] us[j].id@
}

/// A participant with identity `uid` is registered.
pub open spec fn registered(us: Seq<User>, uid: Seq<char>) -> bool {
    exists|u: int| 0 <= u < us.len() && #[trigger] us[u].id@ == uid
}

/// No wager, outcome or bet refers to `id` as a wager's identity.
pub open spec fn match_id_fresh(s: Store, id: Seq<char>) -> bool {
    &&& forall|i: int| 0 <= i < s.matches@.len() ==> #[trigger] s.matches@[i].id@ != id
    &&& forall|i: int| 0 <= i < s.candidates@.len() ==> #[trigger] s.candidates@[i].match_id@ != id
    &&& forall|i: int| 0 <= i < s.bets@.len() ==> #[trigger] s.bets@[i].match_id@ != id
}

pub open spec fn candidate_id_fresh(s: Store, id: Seq<char>) -> bool {
    forall|i: int| 0 <= i < s.candidates@.len() ==> #[trigger] s.candidates@[i].id@ != id
}

pub open spec fn bet_id_fresh(s: Store, id: Seq<char>) -> bool {
    forall|i: int| 0 <= i < s.bets@.len() ==> #[trigger] s.bets@[i].id@ != id
}

pub open spec fn user_id_fresh(s: Store, id: Seq<char>) -> bool {
    forall|i: int| 0 <= i < s.users@.len() ==> #[trigger] s.users@[i].id@ != id
}

proof fn lemma_candidates_of_none(cs: Seq<Candidate>, mid: Seq<char>)
    requires
        forall|i: int| 0 <= i < cs.len() ==> #[trigger] cs[i].match_id@ != mid,
    ensures
        candidates_of_match(cs, mid) == Seq::<Candidate>::empty(),
    decreases cs.len(),
{
    if cs.len() > 0 {
        let init = cs.drop_last();
        assert forall|i: int| 0 <= i < init.len() implies #[trigger] init[i].match_id@ != mid by {
            assert(init[i] == cs[i]);
        }
        assert(cs.last() == cs[cs.len() - 1]);
        lemma_candidates_of_none(init, mid);
    }
}

/// The outcomes of a wager whose identity no earlier outcome names are the
/// ones appended with it.
pub proof fn lemma_candidates_of_append(old_cs: Seq<Candidate>, news: Seq<Candidate>, mid: Seq<char>)
    requires
        forall|i: int| 0 <= i < old_cs.len() ==> #[trigger] old_cs[i].match_id@ != mid,
        forall|i: int| 0 <= i < news.len() ==> #[trigger] news[i].match_id@ == mid,
    ensures
        candidates_of_match(old_cs + news, mid) == news,
    decreases news.len(),
{
    if news.len() == 0 {
        assert(old_cs + news =~= old_cs);
        lemma_candidates_of_none(old_cs, mid);
    } else {
        let init = news.drop_last();
        assert forall|i: int| 0 <= i < init.len() implies #[trigger] init[i].match_id@ == mid by {
            assert(init[i] == news[i]);
        }
        lemma_candidates_of_append(old_cs, init, mid);
        assert((old_cs + news).drop_last() =~= old_cs + init);
        assert((old_cs + news).last() == news[news.len() - 1]);
        assert(init.push(news.last()) =~= news);
    }
}

/// The channel has a wager that is not settled.
pub open spec fn has_active(ms: Seq<Match>, ch: Seq<char>) -> bool {
    exists|i: int| #[trigger] in_channel(ms, ch, i) && ms[i].is_active()
}

/// The first outcome of wager `mid` named `name`.
pub open spec fn is_first_candidate(cs: Seq<Candidate>, mid: Seq<char>, name: Seq<char>, i: int) -> bool {
    &&& 0 <= i < cs.len()
    &&& cs[i].match_id@ == mid && cs[i].name@ == name
    &&& forall|j: int| 0 <= j < i ==> !(#[trigger] cs[j].match_id@ == mid && cs[j].name@ == name)
}

/// The index of the first outcome of wager `mid` named `name`, where it
/// has one.
pub open spec fn first_candidate(cs: Seq<Candidate>, mid: Seq<char>, name: Seq<char>) -> int {
    choose|i: int| is_first_candidate(cs, mid, name, i)
}

pub proof fn lemma_first_candidate_unique(cs: Seq<Candidate>, mid: Seq<char>, name: Seq<char>, i: int)
    requires
        is_first_candidate(cs, mid, name, i),
    ensures
        first_candidate(cs, mid, name) == i,
{
    let j = first_candidate(cs, mid, name);
    assert(is_first_candidate(cs, mid, name, j));
    if j < i {
        assert(cs[j].match_id@ == mid);
    } else if i < j {
        assert(cs[i].match_id@ == mid);
    }
}

pub open spec fn has_candidate(cs: Seq<Candidate>, mid: Seq<char>, name: Seq<char>) -> bool {
    exists|i: int| 0 <= i < cs.len() && #[trigger] cs[i].match_id@ == mid && cs[i].name@ == name
}

/// The participant registered as `traq_id` in channel `ch`.
pub open spec fn is_user(us: Seq<User>, traq_id: Seq<char>, ch: Seq<char>, i: int) -> bool {
    0 <= i < us.len() && us[i].traq_id@ == traq_id && us[i].channel_id@ == ch
}

pub open spec fn has_user(us: Seq<User>, traq_id: Seq<char>, ch: Seq<char>) -> bool {
    exists|i: int| #[trigger] is_user(us, traq_id, ch, i)
}

/// The ledger holds a bet of participant `uid` on wager `mid`.
pub open spec fn has_bet(bs: Seq<Bet>, uid: Seq<char>, mid: Seq<char>) -> bool {
    exists|i: int| 0 <= i < bs.len() && #[trigger] bs[i].user_id@ == uid && bs[i].match_id@ == mid
}

impl Store {
    /// An unsettled wager is the last of its channel, so a channel has one
    /// at most; every stake positive; one bet per participant and wager; no
    /// balance below zero; one registration per participant and channel;
    /// every record's identity its own; outcome names unique within a
    /// wager; every bet placed by a registered participant.
    pub open spec fn wf(&self) -> bool {
        &&& forall|i: int, j: int|
            0 <= i < j < self.matches@.len() && #[trigger] self.matches@[i].is_active()
                ==> self.matches@[i].channel_id@ != #[trigger] self.matches@[j].channel_id@
        &&& forall|k: int| 0 <= k < self.bets@.len() ==> #[trigger] self.bets@[k].amount > 0
        &&& forall|k: int, l: int|
            0 <= k < self.bets@.len() && 0 <= l < self.bets@.len() && #[trigger] self.bets@[k].user_id@
                == #[trigger] self.bets@[l].user_id@ && self.bets@[k].match_id@
                == self.bets@[l].match_id@ ==> k == l
        &&& forall|k: int| 0 <= k < self.users@.len() ==> #[trigger] self.users@[k].balance >= 0
        &&& forall|k: int, l: int|
            0 <= k < self.users@.len() && 0 <= l < self.users@.len() && #[trigger] self.users@[k].traq_id@
                == #[trigger] self.users@[l].traq_id@ && self.users@[k].channel_id@
                == self.users@[l].channel_id@ ==> k == l
        &&& unique_match_ids(self.matches@)
        &&& unique_candidate_ids(self.candidates@)
        &&& unique_names_per_match(self.candidates@)
        &&& unique_bet_ids(self.bets@)
        &&& unique_user_ids(self.users@)
        &&& forall|k: int| 0 <= k < self.bets@.len() ==> #[trigger] registered(self.users@, self.bets@[k].user_id@)
    }

    /// Under the invariant, the channel's open wager is unique.
    pub proof fn lemma_open_unique(&self, ch: Seq<char>, i: int)
        requires
            self.wf(),
            in_channel(self.matches@, ch, i),
            self.matches@[i].is_open(),
        ensures
            open(self.matches@, ch) == i,
    {
        let j = open(self.matches@, ch);
        assert(in_channel(self.matches@, ch, j) && self.matches@[j].is_open());
        assert(self.matches@[i].is_active() && self.matches@[j].is_active());
        if i < j {
            assert(self.matches@[i].channel_id@ == self.matches@[j].channel_id@);
        } else if j < i {
            assert(self.matches@[i].channel_id@ == self.matches@[j].channel_id@);
        }
    }

    /// Under the invariant, a participant is registered once per channel.
    pub proof fn lemma_user_unique(&self, traq_id: Seq<char>, ch: Seq<char>, i: int)
        requires
            self.wf(),
            is_user(self.users@, traq_id, ch, i),
        ensures
            user_of(self.users@, traq_id, ch) == i,
    {
        let j = user_of(self.users@, traq_id, ch);
        assert(is_user(self.users@, traq_id, ch, j));
    }

    /// Under the invariant, the channel's unsettled wager is unique.
    pub proof fn lemma_active_unique(&self, ch: Seq<char>, i: int)
        requires
            self.wf(),
            in_channel(self.matches@, ch, i),
            self.matches@[i].is_active(),
        ensures
            active(self.matches@, ch) == i,
    {
        let j = active(self.matches@, ch);
        assert(in_channel(self.matches@, ch, j) && self.matches@[j].is_active());
        if i < j {
            assert(self.matches@[i].channel_id@ == self.matches@[j].channel_id@);
        } else if j < i {
            assert(self.matches@[i].channel_id@ == self.matches@[j].channel_id@);
        }
    }

    /// Under the invariant, the channel's unsettled wager is its most recent.
    pub proof fn lemma_active_is_latest(&self, ch: Seq<char>, i: int)
        requires
            self.wf(),
            in_channel(self.matches@, ch, i),
            self.matches@[i].is_active(),
        ensures
            is_latest(self.matches@, ch, i),
            latest(self.matches@, ch) == i,
    {
        assert forall|j: int| i < j < self.matches@.len() implies !#[trigger] in_channel(self.matches@, ch, j) by {
            assert(self.matches@[i].channel_id@ != self.matches@[j].channel_id@);
        }
        lemma_latest_unique(self.matches@, ch, i);
    }

    /// An empty store.
    pub fn new() -> (r: Store)
        ensures
            r.wf(),
            r.matches@.len() == 0,
            r.candidates@.len() == 0,
            r.bets@.len() == 0,
            r.users@.len() == 0,
    {
        Store { matches: Vec::new(), candidates: Vec::new(), bets: Vec::new(), users: Vec::new() }
    }

    /// The channel's most recent wager.
    pub fn latest_match_index(&self, channel_id: &Id) -> (r: Option<usize>)
        ensures
            r is None <==> !exists|i: int| #[trigger] in_channel(self.matches@, channel_id@, i),
            r matches Some(i) ==> is_latest(self.matches@, channel_id@, i as int),
    {
        let mut i: usize = self.matches.len();
        while i > 0
            invariant
                i <= self.matches@.len(),
                forall|j: int| i <= j < self.matches@.len() ==> !#[trigger] in_channel(self.matches@, channel_id@, j),
            decreases i,
        {
            i -= 1;
            if self.matches[i].channel_id.value == channel_id.value {
                assert(in_channel(self.matches@, channel_id@, i as int));
                return Some(i);
            }
        }
        None
    }

    /// The channel's unsettled wager.
    pub fn active_match_index(&self, channel_id: &Id) -> (r: Option<usize>)
        ensures
            r is None <==> !has_active(self.matches@, channel_id@),
            r matches Some(i) ==> in_channel(self.matches@, channel_id@, i as int)
                && self.matches@[i as int].is_active(),
    {
        let mut i: usize = 0;
        while i < self.matches.len()
            invariant
                i <= self.matches@.len(),
                forall|j: int|
                    0 <= j < i ==> !(#[trigger] in_channel(self.matches@, channel_id@, j)
                        && self.matches@[j].is_active()),
            decreases self.matches@.len() - i,
        {
            if self.matches[i].channel_id.value == channel_id.value
                && self.matches[i].winner_candidate_id.is_none() {
                assert(in_channel(self.matches@, channel_id@, i as int));
                return Some(i);
            }
            i += 1;
        }
        None
    }

    /// The channel's wager that takes stakes.
    pub fn open_match_index(&self, channel_id: &Id) -> (r: Option<usize>)
        ensures
            r is None <==> !has_open(self.matches@, channel_id@),
            r matches Some(i) ==> in_channel(self.matches@, channel_id@, i as int)
                && self.matches@[i as int].is_open(),
    {
        let mut i: usize = 0;
        while i < self.matches.len()
            invariant
                i <= self.matches@.len(),
                forall|j: int|
                    0 <= j < i ==> !(#[trigger] in_channel(self.matches@, channel_id@, j)
                        && self.matches@[j].is_open()),
            decreases self.matches@.len() - i,
        {
            if self.matches[i].channel_id.value == channel_id.value
                && self.matches[i].winner_candidate_id.is_none()
                && self.matches[i].closed_at.is_none() {
                assert(in_channel(self.matches@, channel_id@, i as int));
                return Some(i);
            }
            i += 1;
        }
        None
    }

    /// The first outcome of wager `match_id` named `name`.
    pub fn candidate_index(&self, match_id: &Id, name: &String) -> (r: Option<usize>)
        ensures
            r is None <==> !has_candidate(self.candidates@, match_id@, name@),
            r matches Some(i) ==> is_first_candidate(self.candidates@, match_id@, name@, i as int),
    {
        let mut i: usize = 0;
        while i < self.candidates.len()
            invariant
                i <= self.candidates@.len(),
                forall|j: int|
                    0 <= j < i ==> !(#[trigger] self.candidates@[j].match_id@ == match_id@
                        && self.candidates@[j].name@ == name@),
            decreases self.candidates@.len() - i,
        {
            if self.candidates[i].match_id.value == match_id.value && self.candidates[i].name == *name {
                assert(self.candidates@[i as int].match_id@ == match_id@);
                return Some(i);
            }
            i += 1;
        }
        None
    }

    /// The participant registered as `traq_id` in channel `channel_id`.
    pub fn user_index(&self, traq_id: &String, channel_id: &String) -> (r: Option<usize>)
        ensures
            r is None <==> !has_user(self.users@, traq_id@, channel_id@),
            r matches Some(i) ==> is_user(self.users@, traq_id@, channel_id@, i as int),
    {
        let mut i: usize = 0;
        while i < self.users.len()
            invariant
                i <= self.users@.len(),
                forall|j: int| 0 <= j < i ==> !#[trigger] is_user(self.users@, traq_id@, channel_id@, j),
            decreases self.users@.len() - i,
        {
            if self.users[i].traq_id == *traq_id && self.users[i].channel_id == *channel_id {
                assert(is_user(self.users@, traq_id@, channel_id@, i as int));
                return Some(i);
            }
            i += 1;
        }
        None
    }

    /// The bets on wager `match_id`, in ledger order.
    pub fn select_bets_by_match_id(&self, match_id: &Id) -> (r: Vec<Bet>)
        ensures
            r@ == bets_of_match(self.bets@, match_id@),
    {
        let mut sel: Vec<Bet> = Vec::new();
        let mut i: usize = 0;
        while i < self.bets.len()
            invariant
                i <= self.bets@.len(),
                sel@ == bets_of_match(self.bets@.subrange(0, i as int), match_id@),
            decreases self.bets@.len() - i,
        {
            assert(self.bets@.subrange(0, i as int + 1).drop_last() =~= self.bets@.subrange(0, i as int));
            if self.bets[i].match_id.value == match_id.value {
                sel.push(self.bets[i].clone());
            }
            i += 1;
        }
        assert(self.bets@.subrange(0, self.bets@.len() as int) =~= self.bets@);
        sel
    }

    /// The participants registered in channel `channel_id`.
    pub fn select_users_by_channel_id(&self, channel_id: &String) -> (r: Vec<User>)
        ensures
            r@ == users_in_channel(self.users@, channel_id@),
    {
        let mut sel: Vec<User> = Vec::new();
        let mut i: usize = 0;
        while i < self.users.len()
            invariant
                i <= self.users@.len(),
                sel@ == users_in_channel(self.users@.subrange(0, i as int), channel_id@),
            decreases self.users@.len() - i,
        {
            assert(self.users@.subrange(0, i as int + 1).drop_last() =~= self.users@.subrange(0, i as int));
            if self.users[i].channel_id == *channel_id {
                sel.push(self.users[i].clone());
            }
            i += 1;
        }
        assert(self.users@.subrange(0, self.users@.len() as int) =~= self.users@);
        sel
    }

    /// The outcomes of wager `match_id`.
    pub fn select_candidates_by_match_id(&self, match_id: &Id) -> (r: Vec<Candidate>)
        ensures
            r@ == candidates_of_match(self.candidates@, match_id@),
    {
        let mut sel: Vec<Candidate> = Vec::new();
        let mut i: usize = 0;
        while i < self.candidates.len()
            invariant
                i <= self.candidates@.len(),
                sel@ == candidates_of_match(self.candidates@.subrange(0, i as int), match_id@),
            decreases self.candidates@.len() - i,
        {
            assert(self.candidates@.subrange(0, i as int + 1).drop_last()
                =~= self.candidates@.subrange(0, i as int));
            if self.candidates[i].match_id.value == match_id.value {
                sel.push(self.candidates[i].clone());
            }
            i += 1;
        }
        assert(self.candidates@.subrange(0, self.candidates@.len() as int) =~= self.candidates@);
        sel
    }

    /// The channel's most recent wager.
    pub fn find_latest(&self, channel_id: &Id) -> (r: Option<Match>)
        ensures
            r is None <==> !exists|i: int| #[trigger] in_channel(self.matches@, channel_id@, i),
            r matches Some(m) ==> m == self.matches@[latest(self.matches@, channel_id@)],
    {
        match self.latest_match_index(channel_id) {
            None => None,
            Some(i) => {
                proof {
                    lemma_latest_unique(self.matches@, channel_id@, i as int);
                }
                Some(self.matches[i].clone())
            },
        }
    }

    /// The wager `match_id`.
    pub fn find(&self, match_id: &Id) -> (r: Option<Match>)
        ensures
            r is None <==> forall|i: int| 0 <= i < self.matches@.len() ==> #[trigger] self.matches@[i].id@ != match_id@,
            r matches Some(m) ==> exists|i: int| 0 <= i < self.matches@.len() && #[trigger] self.matches@[i] == m && m.id@ == match_id@,
    {
        let mut i: usize = 0;
        while i < self.matches.len()
            invariant
                i <= self.matches@.len(),
                forall|j: int| 0 <= j < i ==> #[trigger] self.matches@[j].id@ != match_id@,
            decreases self.matches@.len() - i,
        {
            if self.matches[i].id.value == match_id.value {
                assert(self.matches@[i as int].id@ == match_id@);
                return Some(self.matches[i].clone());
            }
            i += 1;
        }
        None
    }

    /// Records the message that shows wager `match_id`; none when there is
    /// no such wager.
    pub fn update(&mut self, match_id: &Id, message_id: Option<Id>) -> (r: Option<Match>)
        requires
            old(self).wf(),
        ensures
            final(self).wf(),
            final(self).candidates == old(self).candidates,
            final(self).bets == old(self).bets,
            final(self).users == old(self).users,
            r is None ==> *final(self) == *old(self) && forall|i: int|
                0 <= i < old(self).matches@.len() ==> #[trigger] old(self).matches@[i].id@ != match_id@,
            r matches Some(m) ==> exists|i: int|
                0 <= i < old(self).matches@.len() && #[trigger] old(self).matches@[i].id@ == match_id@
                    && m == (Match { message_id: message_id, ..old(self).matches@[i] })
                    && final(self).matches@ == old(self).matches@.update(i, m),
    {
        let mut i: usize = 0;
        while i < self.matches.len()
            invariant
                i <= self.matches@.len(),
                *self == *old(self),
                old(self).wf(),
                forall|j: int| 0 <= j < i ==> #[trigger] self.matches@[j].id@ != match_id@,
            decreases self.matches@.len() - i,
        {
            if self.matches[i].id.value == match_id.value {
                let ghost old_ms = self.matches@;
                self.matches[i].message_id = message_id;
                assert forall|a: int, b: int|
                    0 <= a < b < self.matches@.len() && #[trigger] self.matches@[a].is_active()
                        implies self.matches@[a].channel_id@ != #[trigger] self.matches@[b].channel_id@ by {
                    assert(old_ms[a].is_active());
                    assert(old_ms[a].channel_id@ == self.matches@[a].channel_id@);
                    assert(old_ms[b].channel_id@ == self.matches@[b].channel_id@);
                }
                assert(self.matches@ == old_ms.update(i as int, self.matches@[i as int]));
                assert(old_ms[i as int].id@ == match_id@);
                let m = self.matches[i].clone();
                assert(m == (Match { message_id: self.matches@[i as int].message_id, ..old_ms[i as int] }));
                return Some(m);
            }
            i += 1;
        }
        None
    }

    /// The participant registered as `user.traq_id` in `user.channel_id`.
    pub fn find_by_traq_id_and_channel_id(&self, user: &FindUser) -> (r: Option<User>)
        requires
            self.wf(),
        ensures
            r is None <==> !has_user(self.users@, user.traq_id@, user.channel_id@),
            r matches Some(u) ==> u == self.users@[user_of(self.users@, user.traq_id@, user.channel_id@)],
    {
        match self.user_index(&user.traq_id, &user.channel_id.value) {
            None => None,
            Some(i) => {
                proof {
                    self.lemma_user_unique(user.traq_id@, user.channel_id@, i as int);
                }
                Some(self.users[i].clone())
            },
        }
    }

    /// Whether no record refers to `id` as a wager's identity.
    pub fn match_id_unused(&self, id: &Id) -> (r: bool)
        ensures
            r == match_id_fresh(*self, id@),
    {
        let mut i: usize = 0;
        while i < self.matches.len()
            invariant
                i <= self.matches@.len(),
                forall|j: int| 0 <= j < i ==> #[trigger] self.matches@[j].id@ != id@,
            decreases self.matches@.len() - i,
        {
            if self.matches[i].id.value == id.value {
                assert(self.matches@[i as int].id@ == id@);
                return false;
            }
            i += 1;
        }
        let mut i: usize = 0;
        while i < self.candidates.len()
            invariant
                i <= self.candidates@.len(),
                forall|j: int| 0 <= j < self.matches@.len() ==> #[trigger] self.matches@[j].id@ != id@,
                forall|j: int| 0 <= j < i ==> #[trigger] self.candidates@[j].match_id@ != id@,
            decreases self.candidates@.len() - i,
        {
            if self.candidates[i].match_id.value == id.value {
                assert(self.candidates@[i as int].match_id@ == id@);
                return false;
            }
            i += 1;
        }
        let mut i: usize = 0;
        while i < self.bets.len()
            invariant
                i <= self.bets@.len(),
                forall|j: int| 0 <= j < self.matches@.len() ==> #[trigger] self.matches@[j].id@ != id@,
                forall|j: int| 0 <= j < self.candidates@.len() ==> #[trigger] self.candidates@[j].match_id@ != id@,
                forall|j: int| 0 <= j < i ==> #[trigger] self.bets@[j].match_id@ != id@,
            decreases self.bets@.len() - i,
        {
            if self.bets[i].match_id.value == id.value {
                assert(self.bets@[i as int].match_id@ == id@);
                return false;
            }
            i += 1;
        }
        true
    }

    /// Whether no outcome has identity `id`.
    pub fn candidate_id_unused(&self, id: &Id) -> (r: bool)
        ensures
            r == candidate_id_fresh(*self, id@),
    {
        let mut i: usize = 0;
        while i < self.candidates.len()
            invariant
                i <= self.candidates@.len(),
                forall|j: int| 0 <= j < i ==> #[trigger] self.candidates@[j].id@ != id@,
            decreases self.candidates@.len() - i,
        {
            if self.candidates[i].id.value == id.value {
                assert(self.candidates@[i as int].id@ == id@);
                return false;
            }
            i += 1;
        }
        true
    }

    /// Whether no bet has identity `id`.
    pub fn bet_id_unused(&self, id: &Id) -> (r: bool)
        ensures
            r == bet_id_fresh(*self, id@),
    {
        let mut i: usize = 0;
        while i < self.bets.len()
            invariant
                i <= self.bets@.len(),
                forall|j: int| 0 <= j < i ==> #[trigger] self.bets@[j].id@ != id@,
            decreases self.bets@.len() - i,
        {
            if self.bets[i].id.value == id.value {
                assert(self.bets@[i as int].id@ == id@);
                return false;
            }
            i += 1;
        }
        true
    }

    /// Whether no participant has identity `id`.
    pub fn user_id_unused(&self, id: &Id) -> (r: bool)
        ensures
            r == user_id_fresh(*self, id@),
    {
        let mut i: usize = 0;
        while i < self.users.len()
            invariant
                i <= self.users@.len(),
                forall|j: int| 0 <= j < i ==> #[trigger] self.users@[j].id@ != id@,
            decreases self.users@.len() - i,
        {
            if self.users[i].id.value == id.value {
                assert(self.users@[i as int].id@ == id@);
                return false;
            }
            i += 1;
        }
        true
    }

    /// Whether the ledger holds a bet of `user_id` on `match_id`.
    pub fn bet_exists(&self, user_id: &Id, match_id: &Id) -> (r: bool)
        ensures
            r == has_bet(self.bets@, user_id@, match_id@),
    {
        let mut i: usize = 0;
        while i < self.bets.len()
            invariant
                i <= self.bets@.len(),
                forall|j: int|
                    0 <= j < i ==> !(#[trigger] self.bets@[j].user_id@ == user_id@
                        && self.bets@[j].match_id@ == match_id@),
            decreases self.bets@.len() - i,
        {
            if self.bets[i].user_id.value == user_id.value && self.bets[i].match_id.value
                == match_id.value {
                assert(self.bets@[i as int].user_id@ == user_id@);
                return true;
            }
            i += 1;
        }
        false
    }
}

} // verus!
