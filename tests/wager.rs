use bookmaker::bet_usecase::{BetUseCase, BetUseCaseError, PARTICIPATION_PRIZE_POINT};
use bookmaker::match_usecase::{MatchUseCase, MatchUseCaseError};
use bookmaker::model::{FindUser, Id, Match};
use bookmaker::statistic::pool_summary;
use bookmaker::request::{CloseMatch, CreateBet, CreateMatch, CreateUser, FinishMatch};
use bookmaker::store::Store;
use bookmaker::user_usecase::{UserUseCase, UserUseCaseError, INITIAL_BALANCE};

fn names(ns: &[&str]) -> Vec<String> {
    ns.iter().map(|s| s.to_string()).collect()
}

fn fresh() -> Id {
    Id::new(uuid::Uuid::new_v4().to_string())
}

fn open(store: &mut Store, ch: &str, outcomes: &[&str]) -> Result<Match, MatchUseCaseError> {
    MatchUseCase::new().create_match(
        store,
        CreateMatch::new("title".to_string(), ch.to_string()),
        names(outcomes),
        fresh(),
        outcomes.iter().map(|_| fresh()).collect(),
        1_700_000_000_000,
    )
}

fn register(store: &mut Store, who: &str, ch: &str) {
    UserUseCase::new()
        .register_user(store, CreateUser::new(who.to_string(), format!("{}_display", who), ch.to_string()), fresh())
        .unwrap();
}

fn bet(store: &mut Store, who: &str, ch: &str, outcome: &str, amount: i32) -> Result<bookmaker::model::Bet, BetUseCaseError> {
    BetUseCase::new().create_bet(
        store,
        CreateBet::new(ch.to_string(), "msg".to_string(), who.to_string(), outcome.to_string(), amount),
        fresh(),
    )
}

fn balance(store: &Store, who: &str, ch: &str) -> i32 {
    store.users.iter().find(|u| u.traq_id == who && u.channel_id == ch).unwrap().balance
}

fn finish(store: &mut Store, ch: &str, winner: &str) -> Result<(Match, Vec<bookmaker::settlement::BalanceDiff>), MatchUseCaseError> {
    MatchUseCase::new().finish_match(store, FinishMatch::new(ch.to_string(), winner.to_string()))
}

fn close(store: &mut Store, ch: &str) -> Result<Match, MatchUseCaseError> {
    MatchUseCase::new().close_match(store, CloseMatch::new(ch.to_string(), "msg".to_string()), 1_700_000_100_000)
}

#[test]
fn open_wager_is_active_with_its_outcomes_and_blocks_a_second() {
    let mut store = Store::new();
    let m = open(&mut store, "ch", &["A", "B", "C"]).unwrap();
    assert!(m.winner_candidate_id.is_none());
    assert!(m.closed_at.is_none());
    assert_eq!(m.created_at, 1_700_000_000_000);
    let outcomes = store.select_candidates_by_match_id(&m.id);
    let got: Vec<String> = outcomes.iter().map(|c| c.name.clone()).collect();
    assert_eq!(got, vec!["A", "B", "C"]);
    assert!(matches!(open(&mut store, "ch", &["X", "Y"]), Err(MatchUseCaseError::EnabledMatchAlreadyExists)));
    assert_eq!(store.matches.len(), 1);
    assert!(open(&mut store, "other", &["X", "Y"]).is_ok());
}

#[test]
fn open_wager_validates_outcomes() {
    let mut store = Store::new();
    assert!(matches!(open(&mut store, "ch", &["A"]), Err(MatchUseCaseError::CandidateMustNotBeEmpty)));
    assert!(matches!(open(&mut store, "ch", &[]), Err(MatchUseCaseError::CandidateMustNotBeEmpty)));
    assert!(matches!(open(&mut store, "ch", &["A", "A"]), Err(MatchUseCaseError::CandidateNameDuplicated)));
    assert!(store.matches.is_empty());
    assert!(store.candidates.is_empty());
}

#[test]
fn stake_debits_balance_and_second_stake_conflicts() {
    let mut store = Store::new();
    let m = open(&mut store, "ch", &["A", "B"]).unwrap();
    register(&mut store, "p", "ch");
    assert_eq!(balance(&store, "p", "ch"), INITIAL_BALANCE);
    let b = bet(&mut store, "p", "ch", "A", 3000).unwrap();
    assert_eq!(b.amount, 3000);
    assert_eq!(b.match_id.value, m.id.value);
    assert_eq!(balance(&store, "p", "ch"), 10000 + PARTICIPATION_PRIZE_POINT - 3000);
    assert_eq!(store.bets.len(), 1);
    assert!(matches!(bet(&mut store, "p", "ch", "B", 100), Err(BetUseCaseError::EnabledBetAlreadyExists)));
    assert_eq!(balance(&store, "p", "ch"), 8000);
    assert_eq!(store.bets.len(), 1);
}

#[test]
fn stake_beyond_balance_changes_nothing() {
    let mut store = Store::new();
    open(&mut store, "ch", &["A", "B"]).unwrap();
    register(&mut store, "p", "ch");
    assert!(matches!(bet(&mut store, "p", "ch", "A", 11001), Err(BetUseCaseError::InsufficientBalance)));
    assert_eq!(balance(&store, "p", "ch"), 10000);
    assert!(store.bets.is_empty());
    assert!(bet(&mut store, "p", "ch", "A", 11000).is_ok());
    assert_eq!(balance(&store, "p", "ch"), 0);
}

#[test]
fn stake_errors_by_kind() {
    let mut store = Store::new();
    register(&mut store, "p", "ch");
    assert!(matches!(bet(&mut store, "p", "ch", "A", 0), Err(BetUseCaseError::AmountMustBePositive)));
    assert!(matches!(bet(&mut store, "p", "ch", "", 10), Err(BetUseCaseError::AmountMustBePositive)));
    assert!(matches!(bet(&mut store, "p", "ch", "A", 10), Err(BetUseCaseError::EnabledMatchNotFound)));
    open(&mut store, "ch", &["A", "B"]).unwrap();
    assert!(matches!(bet(&mut store, "p", "ch", "Z", 10), Err(BetUseCaseError::CandidateNotFound)));
    assert!(matches!(bet(&mut store, "q", "ch", "A", 10), Err(BetUseCaseError::UserNotFound)));
    assert!(store.bets.is_empty());
}

#[test]
fn settlement_pays_winners_in_proportion() {
    let mut store = Store::new();
    open(&mut store, "ch", &["A", "B"]).unwrap();
    for p in ["w1", "w2", "l1", "l2", "l3"] {
        register(&mut store, p, "ch");
    }
    bet(&mut store, "w1", "ch", "A", 400).unwrap();
    bet(&mut store, "w2", "ch", "A", 500).unwrap();
    bet(&mut store, "l1", "ch", "B", 100).unwrap();
    bet(&mut store, "l2", "ch", "B", 200).unwrap();
    bet(&mut store, "l3", "ch", "B", 300).unwrap();
    let before_l1 = balance(&store, "l1", "ch");
    let before_w1 = balance(&store, "w1", "ch");
    close(&mut store, "ch").unwrap();
    let (m, diffs) = finish(&mut store, "ch", "A").unwrap();
    assert!(m.winner_candidate_id.is_some());
    assert_eq!(balance(&store, "w1", "ch"), before_w1 + 666);
    assert_eq!(balance(&store, "w2", "ch"), 10000 + 1000 - 500 + 833);
    assert_eq!(balance(&store, "l1", "ch"), before_l1);
    assert_eq!(diffs.len(), 5);
    assert_eq!(diffs[0].payout, 666);
    assert_eq!(diffs[0].amount, 400);
    assert_eq!(diffs[2].payout, 0);
    let winners: Vec<_> = store.candidates.iter().filter(|c| c.is_winner == Some(true)).collect();
    assert_eq!(winners.len(), 1);
    assert_eq!(winners[0].name, "A");
}

#[test]
fn finishing_twice_conflicts_and_changes_nothing() {
    let mut store = Store::new();
    open(&mut store, "ch", &["A", "B"]).unwrap();
    register(&mut store, "p", "ch");
    bet(&mut store, "p", "ch", "A", 100).unwrap();
    finish(&mut store, "ch", "A").unwrap();
    let after_first = balance(&store, "p", "ch");
    assert_eq!(after_first, 10000 + 1000 - 100 + 100);
    assert!(matches!(finish(&mut store, "ch", "A"), Err(MatchUseCaseError::WinnerCandidateAlreadySet)));
    assert_eq!(balance(&store, "p", "ch"), after_first);
}

#[test]
fn finish_errors_by_kind() {
    let mut store = Store::new();
    assert!(matches!(finish(&mut store, "ch", "A"), Err(MatchUseCaseError::EnabledMatchNotFound)));
    open(&mut store, "ch", &["A", "B"]).unwrap();
    assert!(matches!(finish(&mut store, "ch", "Z"), Err(MatchUseCaseError::CandidateNotFound)));
    assert!(store.matches[0].winner_candidate_id.is_none());
}

#[test]
fn cancel_frees_the_channel() {
    let mut store = Store::new();
    open(&mut store, "ch", &["A", "B"]).unwrap();
    register(&mut store, "p", "ch");
    bet(&mut store, "p", "ch", "A", 100).unwrap();
    MatchUseCase::new().delete_match(&mut store, Id::new("ch".to_string())).unwrap();
    assert!(store.matches.is_empty());
    assert_eq!(store.bets.len(), 1);
    assert_eq!(balance(&store, "p", "ch"), 10900);
    assert!(open(&mut store, "ch", &["C", "D"]).is_ok());
    assert!(matches!(
        MatchUseCase::new().delete_match(&mut store, Id::new("none".to_string())),
        Err(MatchUseCaseError::EnabledMatchNotFound)
    ));
}

#[test]
fn lifecycle_runs_in_order_and_close_stops_stakes() {
    let mut store = Store::new();
    assert!(matches!(close(&mut store, "ch"), Err(MatchUseCaseError::EnabledMatchNotFound)));
    open(&mut store, "ch", &["A", "B"]).unwrap();
    register(&mut store, "p", "ch");
    register(&mut store, "q", "ch");
    bet(&mut store, "p", "ch", "A", 100).unwrap();
    let closed = close(&mut store, "ch").unwrap();
    assert_eq!(closed.closed_at, Some(1_700_000_100_000));
    assert!(closed.winner_candidate_id.is_none());
    assert!(matches!(bet(&mut store, "q", "ch", "A", 100), Err(BetUseCaseError::EnabledMatchNotFound)));
    assert!(matches!(close(&mut store, "ch"), Err(MatchUseCaseError::EnabledMatchNotFound)));
    let (settled, _) = finish(&mut store, "ch", "B").unwrap();
    assert!(settled.winner_candidate_id.is_some());
    assert!(matches!(finish(&mut store, "ch", "B"), Err(MatchUseCaseError::WinnerCandidateAlreadySet)));
    assert!(open(&mut store, "ch", &["C", "D"]).is_ok());
}

#[test]
fn registration_and_listing() {
    let mut store = Store::new();
    register(&mut store, "p", "ch");
    register(&mut store, "p", "other");
    register(&mut store, "q", "ch");
    assert!(matches!(
        UserUseCase::new().register_user(&mut store, CreateUser::new("p".to_string(), "x".to_string(), "ch".to_string()), fresh()),
        Err(UserUseCaseError::UnexpectedError(_))
    ));
    let listed = UserUseCase::new().list_users(&store, "ch".to_string()).unwrap();
    let who: Vec<String> = listed.iter().map(|u| u.traq_id.clone()).collect();
    assert_eq!(who, vec!["p", "q"]);
    assert!(listed.iter().all(|u| u.balance == 10000));
}

#[test]
fn pool_summary_of_the_wager() {
    let mut store = Store::new();
    let m = open(&mut store, "ch", &["A", "B", "C"]).unwrap();
    for p in ["p1", "p2", "p3", "p4", "p5"] {
        register(&mut store, p, "ch");
    }
    bet(&mut store, "p1", "ch", "A", 100).unwrap();
    bet(&mut store, "p2", "ch", "A", 200).unwrap();
    bet(&mut store, "p3", "ch", "A", 300).unwrap();
    bet(&mut store, "p4", "ch", "B", 400).unwrap();
    bet(&mut store, "p5", "ch", "B", 500).unwrap();
    let stats = pool_summary(&store, &m.id).unwrap();
    let names: Vec<String> = stats.iter().map(|s| s.candidate.name.clone()).collect();
    assert_eq!(names, vec!["B", "A", "C"]);
    assert_eq!(stats[0].amount, 900);
    assert_eq!(stats[0].mean_stake(), Some(450));
    assert_eq!(stats[1].amount, 600);
    assert_eq!(stats[1].mean_stake(), Some(200));
    assert!(stats[2].bets.is_empty());
}

#[test]
fn store_lookups_and_message_link() {
    let mut store = Store::new();
    let m = open(&mut store, "ch", &["A", "B"]).unwrap();
    register(&mut store, "p", "ch");
    let found = store.find(&m.id).unwrap();
    assert_eq!(found.title, "title");
    assert!(store.find(&Id::new("nope".to_string())).is_none());
    let linked = store.update(&m.id, Some(Id::new("msg-1".to_string()))).unwrap();
    assert_eq!(linked.message_id.unwrap().value, "msg-1");
    assert_eq!(store.find_latest(&Id::new("ch".to_string())).unwrap().message_id.unwrap().value, "msg-1");
    assert!(store.update(&Id::new("nope".to_string()), None).is_none());
    let u = store
        .find_by_traq_id_and_channel_id(&FindUser { traq_id: "p".to_string(), channel_id: Id::new("ch".to_string()) })
        .unwrap();
    assert_eq!(u.traq_display_id, "p_display");
    assert!(store
        .find_by_traq_id_and_channel_id(&FindUser { traq_id: "p".to_string(), channel_id: Id::new("x".to_string()) })
        .is_none());
}

#[test]
fn settled_wager_cannot_be_closed() {
    let mut store = Store::new();
    open(&mut store, "ch", &["A", "B"]).unwrap();
    finish(&mut store, "ch", "A").unwrap();
    assert!(matches!(close(&mut store, "ch"), Err(MatchUseCaseError::EnabledMatchNotFound)));
    assert!(store.matches[0].closed_at.is_none());
}

#[test]
fn identities_in_use_are_refused() {
    let mut store = Store::new();
    let m = open(&mut store, "ch", &["A", "B"]).unwrap();
    let reuse = MatchUseCase::new().create_match(
        &mut store,
        CreateMatch::new("t".to_string(), "other".to_string()),
        names(&["C", "D"]),
        Id::new(m.id.value.clone()),
        vec![fresh(), fresh()],
        0,
    );
    assert!(matches!(reuse, Err(MatchUseCaseError::UnexpectedError(_))));
    let same_outcome_ids = MatchUseCase::new().create_match(
        &mut store,
        CreateMatch::new("t".to_string(), "other".to_string()),
        names(&["C", "D"]),
        fresh(),
        vec![Id::new("x".to_string()), Id::new("x".to_string())],
        0,
    );
    assert!(matches!(same_outcome_ids, Err(MatchUseCaseError::UnexpectedError(_))));
    let too_few_ids = MatchUseCase::new().create_match(
        &mut store,
        CreateMatch::new("t".to_string(), "other".to_string()),
        names(&["C", "D"]),
        fresh(),
        vec![fresh()],
        0,
    );
    assert!(matches!(too_few_ids, Err(MatchUseCaseError::UnexpectedError(_))));
    assert_eq!(store.matches.len(), 1);
    let uid = fresh();
    UserUseCase::new()
        .register_user(&mut store, CreateUser::new("p".to_string(), "p".to_string(), "ch".to_string()), Id::new(uid.value.clone()))
        .unwrap();
    assert!(matches!(
        UserUseCase::new().register_user(&mut store, CreateUser::new("q".to_string(), "q".to_string(), "ch".to_string()), uid),
        Err(UserUseCaseError::UnexpectedError(_))
    ));
    let bid = fresh();
    register(&mut store, "r", "ch");
    BetUseCase::new()
        .create_bet(&mut store, CreateBet::new("ch".to_string(), "m".to_string(), "p".to_string(), "A".to_string(), 10), Id::new(bid.value.clone()))
        .unwrap();
    let again = BetUseCase::new().create_bet(
        &mut store,
        CreateBet::new("ch".to_string(), "m".to_string(), "r".to_string(), "A".to_string(), 10),
        bid,
    );
    assert!(matches!(again, Err(BetUseCaseError::UnexpectedError(_))));
    assert_eq!(balance(&store, "r", "ch"), 10000);
}

#[test]
fn settlement_credits_no_more_than_the_pool() {
    let mut store = Store::new();
    open(&mut store, "ch", &["A", "B"]).unwrap();
    for (p, o, a) in [("a", "A", 333), ("b", "A", 333), ("c", "A", 334), ("d", "B", 7)] {
        register(&mut store, p, "ch");
        bet(&mut store, p, "ch", o, a).unwrap();
    }
    let before: i64 = store.users.iter().map(|u| u.balance as i64).sum();
    finish(&mut store, "ch", "A").unwrap();
    let after: i64 = store.users.iter().map(|u| u.balance as i64).sum();
    let pool = 333 + 333 + 334 + 7;
    assert!(after - before <= pool);
    assert!(after - before > pool - 3);
}
