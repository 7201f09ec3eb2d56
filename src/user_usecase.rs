use vstd::prelude::*;

use crate::model::{Id, User};
use crate::request::CreateUser;
use crate::store::{has_user, is_user, registered, user_id_fresh, users_in_channel, Store};

verus! {

/// The points that a participant holds on registering in a channel.
pub const INITIAL_BALANCE: i32 = 10000;

/// Why a participant operation failed.
#[derive(Debug)]
pub enum UserUseCaseError {
    /// The store could not complete the operation.
    UnexpectedError(String),
}

/// Registers participants and lists their balances.
pub struct UserUseCase {}

impl UserUseCase {
    pub fn new() -> (r: UserUseCase) {
        UserUseCase {}
    }

    /// Registers the participant in the channel with the initial balance,
    /// under identity `user_id`, which must be unused; one registered twice
    /// in a channel is refused.
    pub fn register_user(&self, store: &mut Store, source: CreateUser, user_id: Id) -> (r: Result<User, UserUseCaseError>)
        requires
            old(store).wf(),
        ensures
            final(store).wf(),
            match r {
                Err(e) => {
                    &&& *final(store) == *old(store)
                    &&& e is UnexpectedError
                    &&& has_user(old(store).users@, source.traq_id@, source.channel_id@)
                        || !user_id_fresh(*old(store), user_id@)
                },
                Ok(u) => {
                    &&& !has_user(old(store).users@, source.traq_id@, source.channel_id@)
                    &&& user_id_fresh(*old(store), user_id@)
                    &&& u.id == user_id
                    &&& u.traq_id == source.traq_id
                    &&& u.traq_display_id == source.traq_display_id
                    &&& u.channel_id == source.channel_id
                    &&& u.balance == INITIAL_BALANCE
                    &&& final(store).users@ == old(store).users@.push(u)
                    &&& final(store).matches == old(store).matches
                    &&& final(store).candidates == old(store).candidates
                    &&& final(store).bets == old(store).bets
                },
            },
    {
        if store.user_index(&source.traq_id, &source.channel_id).is_some() {
            return Err(UserUseCaseError::UnexpectedError("the participant is already registered".to_string()));
        }
        if !store.user_id_unused(&user_id) {
            return Err(UserUseCaseError::UnexpectedError("the participant identity is already in use".to_string()));
        }
        let ghost old_store = *store;
        let u = User {
            id: user_id,
            traq_id: source.traq_id,
            traq_display_id: source.traq_display_id,
            channel_id: source.channel_id,
            balance: INITIAL_BALANCE,
        };
        let ghost old_users = store.users@;
        store.users.push(u.clone());
        assert forall|k: int, l: int|
            0 <= k < store.users@.len() && 0 <= l < store.users@.len() && #[trigger] store.users@[k].traq_id@
                == #[trigger] store.users@[l].traq_id@ && store.users@[k].channel_id@
                == store.users@[l].channel_id@ implies k == l by {
            let n = old_users.len() as int;
            if k == n && l < n {
                assert(is_user(old_users, u.traq_id@, u.channel_id@, l));
            } else if l == n && k < n {
                assert(is_user(old_users, u.traq_id@, u.channel_id@, k));
            } else if k < n && l < n {
                assert(old_users[k] == store.users@[k] && old_users[l] == store.users@[l]);
            }
        }
        assert forall|k: int, l: int| 0 <= k < l < store.users@.len() implies #[trigger] store.users@[k].id@
            != #[trigger] store.users@[l].id@ by {
            assert(old_users[k] == store.users@[k]);
            if l < old_users.len() {
                assert(old_users[l] == store.users@[l]);
            }
        }
        assert forall|k: int| 0 <= k < store.bets@.len() implies #[trigger] registered(store.users@, store.bets@[k].user_id@) by {
            assert(registered(old_users, store.bets@[k].user_id@));
            let w = choose|w: int| 0 <= w < old_users.len() && #[trigger] old_users[w].id@ == store.bets@[k].user_id@;
            assert(store.users@[w] == old_users[w]);
        }
        assert forall|k: int| 0 <= k < store.users@.len() implies #[trigger] store.users@[k].balance >= 0 by {
            if k < old_users.len() {
                assert(old_users[k] == store.users@[k]);
            }
        }
        Ok(u)
    }

    /// The participants registered in the channel, with their balances.
    pub fn list_users(&self, store: &Store, channel_id: String) -> (r: Result<Vec<User>, UserUseCaseError>)
        ensures
            r matches Ok(v) && v@ == users_in_channel(store.users@, channel_id@),
    {
        Ok(store.select_users_by_channel_id(&channel_id))
    }
}

} // verus!
