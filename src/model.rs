use vstd::prelude::*;

verus! {

/// Opaque identity of a record, held as text.
pub struct Id {
    pub value: String,
}

impl View for Id {
    type V = Seq<char>;

    open spec fn view(&self) -> Seq<char> {
        self.value@
    }
}

impl Clone for Id {
    fn clone(&self) -> (r: Self)
        ensures
            r == *self,
    {
        Id { value: self.value.clone() }
    }
}

impl Id {
    pub fn new(value: String) -> (r: Id)
        ensures
            r.value == value,
    {
        Id { value }
    }
}

fn clone_opt_id(o: &Option<Id>) -> (r: Option<Id>)
    ensures
        r == *o,
{
    match o {
        Some(id) => Some(id.clone()),
        None => None,
    }
}

/// One participant's stake on one outcome of one wager.
pub struct Bet {
    pub id: Id,
    pub user_id: Id,
    pub match_id: Id,
    pub candidate_id: Id,
    pub amount: i32,
}

impl Bet {
    pub fn new(id: Id, user_id: Id, match_id: Id, candidate_id: Id, amount: i32) -> (r: Bet)
        ensures
            r == (Bet { id, user_id, match_id, candidate_id, amount }),
    {
        Bet { id, user_id, match_id, candidate_id, amount }
    }
}

impl Clone for Bet {
    fn clone(&self) -> (r: Self)
        ensures
            r == *self,
    {
        Bet {
            id: self.id.clone(),
            user_id: self.user_id.clone(),
            match_id: self.match_id.clone(),
            candidate_id: self.candidate_id.clone(),
            amount: self.amount,
        }
    }
}

/// A named outcome of a wager.
pub struct Candidate {
    pub id: Id,
    pub name: String,
    pub match_id: Id,
    pub is_winner: Option<bool>,
}

impl Candidate {
    pub fn new(id: Id, name: String, match_id: Id, is_winner: Option<bool>) -> (r: Candidate)
        ensures
            r == (Candidate { id, name, match_id, is_winner }),
    {
        Candidate { id, name, match_id, is_winner }
    }
}

impl Clone for Candidate {
    fn clone(&self) -> (r: Self)
        ensures
            r == *self,
    {
        Candidate {
            id: self.id.clone(),
            name: self.name.clone(),
            match_id: self.match_id.clone(),
            is_winner: self.is_winner,
        }
    }
}

/// A candidate about to be stored with its wager.
pub struct NewCandidate {
    pub id: Id,
    pub name: String,
    pub match_id: Id,
}

/// A wager of one channel. Times are milliseconds since the Unix epoch.
pub struct Match {
    pub id: Id,
    pub title: String,
    pub channel_id: Id,
    pub message_id: Option<Id>,
    pub created_at: i64,
    pub closed_at: Option<i64>,
    pub winner_candidate_id: Option<Id>,
}

impl Match {
    /// Not settled yet: it blocks a new wager in its channel.
    pub open spec fn is_active(&self) -> bool {
        self.winner_candidate_id is None
    }

    /// Settled nor closed: it takes stakes.
    pub open spec fn is_open(&self) -> bool {
        self.winner_candidate_id is None && self.closed_at is None
    }
}

impl Clone for Match {
    fn clone(&self) -> (r: Self)
        ensures
            r == *self,
    {
        Match {
            id: self.id.clone(),
            title: self.title.clone(),
            channel_id: self.channel_id.clone(),
            message_id: clone_opt_id(&self.message_id),
            created_at: self.created_at,
            closed_at: self.closed_at,
            winner_candidate_id: clone_opt_id(&self.winner_candidate_id),
        }
    }
}

/// A wager about to be stored.
pub struct NewMatch {
    pub id: Id,
    pub title: String,
    pub channel_id: Id,
    pub created_at: i64,
}

/// A participant registered in one channel, with the points held there.
pub struct User {
    pub id: Id,
    pub traq_id: String,
    pub traq_display_id: String,
    pub channel_id: String,
    pub balance: i32,
}

impl Clone for User {
    fn clone(&self) -> (r: Self)
        ensures
            r == *self,
    {
        User {
            id: self.id.clone(),
            traq_id: self.traq_id.clone(),
            traq_display_id: self.traq_display_id.clone(),
            channel_id: self.channel_id.clone(),
            balance: self.balance,
        }
    }
}

/// A participant about to be registered.
pub struct NewUser {
    pub id: Id,
    pub traq_id: String,
    pub traq_display_id: String,
    pub channel_id: String,
    pub balance: i32,
}

/// The key by which a participant is looked up.
pub struct FindUser {
    pub traq_id: String,
    pub channel_id: Id,
}

/// The absolute balance that a participant's row is to hold.
pub struct UpdateBalance {
    pub user_id: Id,
    pub balance: i32,
}

/// A message to be posted to a channel.
pub struct NewMessage {
    pub channel_id: Id,
    pub content: String,
    pub embed: bool,
}

impl NewMessage {
    pub fn new(channel_id: Id, content: String, embed: bool) -> (r: NewMessage)
        ensures
            r == (NewMessage { channel_id, content, embed }),
    {
        NewMessage { channel_id, content, embed }
    }
}

/// A message that was posted.
pub struct Message {
    pub id: Id,
    pub channel_id: Id,
}

/// The acknowledgement stamps that can be put on a message.
#[derive(PartialEq, Eq, Structural)]
pub enum StampType {
    WhiteCheckMark,
}

/// A stamp to be put on a message.
pub struct NewStamp {
    pub message_id: Id,
    pub stamp_type: StampType,
}

} // verus!
