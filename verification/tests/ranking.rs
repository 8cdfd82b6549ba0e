use quadratic_voting::ledger::Ledger;
use quadratic_voting::ranking::{rank, rank_all, Standing};
use quadratic_voting::rules::Rules;

fn ledger_with(names: &[&str], rules: Rules) -> Ledger {
    let mut ledger = Ledger::new(rules);
    let texts: Vec<String> = names.iter().map(|name| name.to_string()).collect();
    assert_eq!(ledger.freeze_candidates(&texts), Ok(names.len()));
    ledger
}

fn standing(id: usize, text: &str, votes: u128) -> Standing {
    Standing { id, text: text.to_string(), votes }
}

#[test]
fn ties_go_to_the_smaller_id() {
    let mut ledger = ledger_with(&["A", "B", "C", "D"], Rules::standard());
    assert_eq!(ledger.cast_vote(1, 0, 5), Ok(75));
    assert_eq!(ledger.cast_vote(2, 1, 9), Ok(19));
    assert_eq!(ledger.cast_vote(3, 2, 9), Ok(19));
    assert_eq!(ledger.cast_vote(4, 3, 1), Ok(99));
    let expected =
        vec![standing(1, "B", 9), standing(2, "C", 9), standing(0, "A", 5), standing(3, "D", 1)];
    assert_eq!(rank(&ledger), expected);
    assert_eq!(rank_all(&ledger), expected);
}

#[test]
fn an_empty_table_has_no_ranking() {
    let ledger = Ledger::new(Rules::standard());
    assert_eq!(rank(&ledger), Vec::<Standing>::new());
    assert_eq!(rank_all(&ledger), Vec::<Standing>::new());
}

#[test]
fn without_votes_the_candidates_keep_their_order() {
    let ledger = ledger_with(&["A", "B", "C"], Rules::standard());
    assert_eq!(rank(&ledger), vec![standing(0, "A", 0), standing(1, "B", 0), standing(2, "C", 0)]);
}

#[test]
fn only_the_first_five_are_shown() {
    let mut ledger = ledger_with(&["A", "B", "C", "D", "E", "F", "G"], Rules::standard());
    for (candidate, votes) in [(0usize, 1u32), (1, 7), (2, 3), (3, 7), (4, 2), (5, 9), (6, 1)] {
        assert!(ledger.cast_vote(candidate as u64 + 10, candidate, votes).is_ok());
    }
    assert_eq!(
        rank(&ledger),
        vec![
            standing(5, "F", 9),
            standing(1, "B", 7),
            standing(3, "D", 7),
            standing(2, "C", 3),
            standing(4, "E", 2),
        ]
    );
    assert_eq!(
        rank_all(&ledger),
        vec![
            standing(5, "F", 9),
            standing(1, "B", 7),
            standing(3, "D", 7),
            standing(2, "C", 3),
            standing(4, "E", 2),
            standing(0, "A", 1),
            standing(6, "G", 1),
        ]
    );
}

#[test]
fn the_number_of_winners_comes_from_the_rules() {
    let rules = Rules { winner_count: 2, ..Rules::standard() };
    let mut ledger = ledger_with(&["A", "B", "C"], rules);
    assert_eq!(ledger.cast_vote(1, 2, 4), Ok(84));
    assert_eq!(ledger.cast_vote(1, 1, 2), Ok(80));
    assert_eq!(rank(&ledger), vec![standing(2, "C", 4), standing(1, "B", 2)]);
    let none = Rules { winner_count: 0, ..Rules::standard() };
    let ledger = ledger_with(&["A"], none);
    assert_eq!(rank(&ledger), Vec::<Standing>::new());
    assert_eq!(rank_all(&ledger), vec![standing(0, "A", 0)]);
}

#[test]
fn votes_of_several_members_add_up() {
    let mut ledger = ledger_with(&["A", "B"], Rules::standard());
    for user in 0..12u64 {
        assert_eq!(ledger.cast_vote(user, 1, 3), Ok(91));
    }
    assert_eq!(ledger.cast_vote(100, 0, 10), Ok(0));
    assert_eq!(ledger.cast_vote(5, 1, 1), Ok(99));
    assert_eq!(rank(&ledger), vec![standing(1, "B", 34), standing(0, "A", 10)]);
}
