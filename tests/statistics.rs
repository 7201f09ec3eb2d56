use bookmaker::bet::calculate_statistics;
use bookmaker::model::{Bet, Candidate, Id};
use bookmaker::settlement::payout;
use bookmaker::statistic::new_statistics;

fn random_string() -> String {
    let alphabet: Vec<char> = "abcdefghijklmnopqrstuvwxyz".chars().collect();
    let u = uuid::Uuid::new_v4();
    u.as_bytes()[..10].iter().map(|b| alphabet[(*b as usize) % alphabet.len()]).collect()
}

fn get_match_id() -> Id {
    Id::new("match_id".to_string())
}

fn get_bet(candidate: &str, amount: i32) -> Bet {
    Bet::new(
        Id::new(random_string()),
        Id::new(random_string()),
        get_match_id(),
        Id::new(candidate.to_string()),
        amount,
    )
}

#[test]
fn test_calculate_statistics() {
    let bets = vec![
        get_bet("candidate_1", 100),
        get_bet("candidate_1", 200),
        get_bet("candidate_1", 300),
        get_bet("candidate_2", 400),
        get_bet("candidate_2", 500),
    ];

    let stats = calculate_statistics(bets);

    assert_eq!(stats.len(), 2);
    assert_eq!(stats[0].candidate_id.value, "candidate_2");
    assert_eq!(stats[0].amount, 900);
    let rate0 = stats[0].total_amount as f64 / stats[0].amount as f64;
    assert!((rate0 - 1.666).abs() < 0.001); // approximately equal
    assert_eq!(stats[1].candidate_id.value, "candidate_1");
    assert_eq!(stats[1].amount, 600);
    let rate1 = stats[1].total_amount as f64 / stats[1].amount as f64;
    assert!((rate1 - 2.5).abs() < 0.001); // approximately equal
}

#[test]
fn calculate_statistics_keeps_first_appearance_on_ties() {
    let stats = calculate_statistics(vec![get_bet("x", 5), get_bet("y", 3), get_bet("y", 2), get_bet("z", 7)]);
    let ids: Vec<String> = stats.iter().map(|s| s.candidate_id.value.clone()).collect();
    assert_eq!(ids, vec!["z", "x", "y"]);
    assert_eq!(stats[2].bets.len(), 2);
    assert_eq!(stats[0].total_amount, 17);
    assert!(calculate_statistics(vec![]).is_empty());
}

fn candidate(id: &str, name: &str) -> Candidate {
    Candidate::new(Id::new(id.to_string()), name.to_string(), get_match_id(), None)
}

#[test]
fn display_statistics_of_two_outcomes() {
    let bets = vec![
        get_bet("a", 100),
        get_bet("a", 200),
        get_bet("a", 300),
        get_bet("b", 400),
        get_bet("b", 500),
    ];
    let stats = new_statistics(bets, vec![candidate("a", "A"), candidate("b", "B"), candidate("c", "C")]);
    assert_eq!(stats.len(), 3);
    assert_eq!(stats[0].candidate.name, "B");
    assert_eq!(stats[0].amount, 900);
    assert_eq!(stats[0].mean_stake(), Some(450));
    assert_eq!(stats[1].candidate.name, "A");
    assert_eq!(stats[1].amount, 600);
    assert_eq!(stats[1].mean_stake(), Some(200));
    assert_eq!(stats[2].candidate.name, "C");
    assert_eq!(stats[2].amount, 0);
    assert_eq!(stats[2].mean_stake(), None);
}

#[test]
fn display_statistics_ignore_bets_on_unknown_outcomes() {
    let stats = new_statistics(vec![get_bet("zz", 10), get_bet("a", 5)], vec![candidate("a", "A")]);
    assert_eq!(stats.len(), 1);
    assert_eq!(stats[0].amount, 5);
    assert_eq!(stats[0].bets.len(), 1);
}

#[test]
fn payout_rounds_down() {
    assert_eq!(payout(400, 1500, 900), 666);
    assert_eq!(payout(500, 1500, 900), 833);
    assert_eq!(payout(900, 900, 900), 900);
    assert_eq!(payout(0, 10, 3), 0);
}
