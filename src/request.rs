use vstd::prelude::*;

verus! {

/// A participant's request to stake `amount` points on an outcome.
pub struct CreateBet {
    pub channel_id: String,
    pub message_id: String,
    pub traq_id: String,
    pub candidate_name: String,
    pub amount: i32,
}

impl CreateBet {
    pub fn new(
        channel_id: String,
        message_id: String,
        traq_id: String,
        candidate_name: String,
        amount: i32,
    ) -> (r: CreateBet)
        ensures
            r == (CreateBet { channel_id, message_id, traq_id, candidate_name, amount }),
    {
        CreateBet { channel_id, message_id, traq_id, candidate_name, amount }
    }
}

/// A request to open a wager in a channel.
pub struct CreateMatch {
    pub title: String,
    pub channel_id: String,
}

impl CreateMatch {
    pub fn new(title: String, channel_id: String) -> (r: CreateMatch)
        ensures
            r == (CreateMatch { title, channel_id }),
    {
        CreateMatch { title, channel_id }
    }
}

/// A request to stop taking stakes on the channel's wager.
pub struct CloseMatch {
    pub channel_id: String,
    pub message_id: String,
}

impl CloseMatch {
    pub fn new(channel_id: String, message_id: String) -> (r: CloseMatch)
        ensures
            r == (CloseMatch { channel_id, message_id }),
    {
        CloseMatch { channel_id, message_id }
    }
}

/// A request to declare the winner of the channel's wager.
pub struct FinishMatch {
    pub channel_id: String,
    pub winner_candidate_name: String,
}

impl FinishMatch {
    pub fn new(channel_id: String, winner_candidate_name: String) -> (r: FinishMatch)
        ensures
            r == (FinishMatch { channel_id, winner_candidate_name }),
    {
        FinishMatch { channel_id, winner_candidate_name }
    }
}

/// A request to register a participant in a channel.
pub struct CreateUser {
    pub traq_id: String,
    pub traq_display_id: String,
    pub channel_id: String,
}

impl CreateUser {
    pub fn new(traq_id: String, traq_display_id: String, channel_id: String) -> (r: CreateUser)
        ensures
            r == (CreateUser { traq_id, traq_display_id, channel_id }),
    {
        CreateUser { traq_id, traq_display_id, channel_id }
    }
}

} // verus!
