use quadratic_voting::board::{
    candidate_list, closing_notice, decimal_text, find, opening_board, results_board,
    suggestion_board, suggestion_list, voting_board, winner_list, write_decimal, NO_SUGGESTIONS,
    RESULTS_HEADING, SUGGESTIONS_HEADING,
};
use quadratic_voting::ranking::Standing;

fn texts(names: &[&str]) -> Vec<String> {
    names.iter().map(|name| name.to_string()).collect()
}

fn standing(id: usize, text: &str, votes: u128) -> Standing {
    Standing { id, text: text.to_string(), votes }
}

fn chars(text: &str) -> Vec<char> {
    text.chars().collect()
}

#[test]
fn numbers_are_written_in_decimal() {
    assert_eq!(decimal_text(0), "0");
    assert_eq!(decimal_text(7), "7");
    assert_eq!(decimal_text(10), "10");
    assert_eq!(decimal_text(48), "48");
    assert_eq!(decimal_text(1_000_000), "1000000");
    assert_eq!(decimal_text(12_345_678_909), "12345678909");
    assert_eq!(decimal_text(u128::MAX), "340282366920938463463374607431768211455");
}

#[test]
fn decimal_agrees_with_the_standard_library() {
    for n in [0u128, 1, 9, 10, 11, 99, 100, 101, 4_294_967_295, 18_446_744_073_709_551_616] {
        assert_eq!(decimal_text(n), n.to_string());
    }
}

#[test]
fn a_number_is_appended_to_what_is_there() {
    let mut out = "n=".to_string();
    write_decimal(&mut out, 305);
    write_decimal(&mut out, 0);
    assert_eq!(out, "n=3050");
}

#[test]
fn candidates_are_listed_under_their_numbers() {
    assert_eq!(candidate_list(&texts(&[])), "");
    assert_eq!(candidate_list(&texts(&["pool"])), "#1: pool\n");
    assert_eq!(candidate_list(&texts(&["pool", "gym", "sauna"])), "#1: pool\n#2: gym\n#3: sauna\n");
    let many: Vec<String> = (0..12).map(|i| format!("c{}", i)).collect();
    assert!(candidate_list(&many).ends_with("#10: c9\n#11: c10\n#12: c11\n"));
}

#[test]
fn suggestions_are_listed_or_said_to_be_missing() {
    assert_eq!(NO_SUGGESTIONS, "No suggestions yet");
    assert_eq!(suggestion_list(&texts(&[])), "No suggestions yet");
    assert_eq!(suggestion_list(&texts(&["pool"])), "#1: pool");
    assert_eq!(suggestion_list(&texts(&["pool", "gym", "sauna"])), "#1: pool\n#2: gym\n#3: sauna");
}

#[test]
fn winners_are_listed_with_their_votes() {
    assert_eq!(winner_list(&vec![]), "");
    assert_eq!(winner_list(&vec![standing(1, "B", 9)]), "B: 9");
    assert_eq!(
        winner_list(&vec![standing(1, "B", 9), standing(2, "C", 9), standing(0, "A", 5)]),
        "B: 9\nC: 9\nA: 5"
    );
    assert_eq!(winner_list(&vec![standing(0, "a: b", 120), standing(1, "", 0)]), "a: b: 120\n: 0");
}

#[test]
fn the_first_occurrence_is_found() {
    assert_eq!(find(&chars("abcabc"), &chars("bc")), Some(1));
    assert_eq!(find(&chars("abcabc"), &chars("abc")), Some(0));
    assert_eq!(find(&chars("abcabc"), &chars("cab")), Some(2));
    assert_eq!(find(&chars("abcabc"), &chars("abcabc")), Some(0));
    assert_eq!(find(&chars("aaab"), &chars("aab")), Some(1));
    assert_eq!(find(&chars("abcabc"), &chars("abd")), None);
    assert_eq!(find(&chars("abc"), &chars("abcd")), None);
    assert_eq!(find(&chars(""), &chars("a")), None);
    assert_eq!(find(&chars("abc"), &chars("")), Some(0));
    assert_eq!(find(&chars(""), &chars("")), Some(0));
    assert_eq!(find(&chars("x\u{e9}y\u{e9}"), &chars("\u{e9}")), Some(1));
}

#[test]
fn the_opening_board_announces_the_election() {
    assert_eq!(
        opening_board("What shall we build?", 48),
        "@everyone \u{1F5F3}\u{FE0F} **An election has started:** What shall we build?\n\nSuggest candidates with `/prop <idea>`\n\n\u{23F0} Time remaining: 48h\n\n**Suggestions so Far:**\nNo suggestions yet"
    );
}

#[test]
fn the_suggestion_board_replaces_what_is_below_the_heading() {
    assert_eq!(SUGGESTIONS_HEADING, "**Suggestions so Far:**");
    let opened = opening_board("Q", 1);
    let intro = "@everyone \u{1F5F3}\u{FE0F} **An election has started:** Q\n\nSuggest candidates with `/prop <idea>`\n\n\u{23F0} Time remaining: 1h\n\n";
    let first = suggestion_board(&opened, &texts(&["pool"]));
    assert_eq!(first, format!("{}**Suggestions so Far:**\n#1: pool", intro));
    let second = suggestion_board(&first, &texts(&["pool", "gym"]));
    assert_eq!(second, format!("{}**Suggestions so Far:**\n#1: pool\n#2: gym", intro));
    let emptied = suggestion_board(&second, &texts(&[]));
    assert_eq!(emptied, opened);
}

#[test]
fn a_board_without_heading_gets_one() {
    assert_eq!(
        suggestion_board("hello", &texts(&["pool"])),
        "hello**Suggestions so Far:**\n#1: pool"
    );
    assert_eq!(suggestion_board("", &texts(&[])), "**Suggestions so Far:**\nNo suggestions yet");
    assert_eq!(results_board("hello", &vec![standing(0, "A", 1)]), "hello\nA: 1");
    assert_eq!(results_board("", &vec![]), "\n");
}

#[test]
fn the_first_heading_counts() {
    let board = "a**Suggestions so Far:**b**Suggestions so Far:**c";
    assert_eq!(suggestion_board(board, &texts(&["x"])), "a**Suggestions so Far:**\n#1: x");
    let board = "a**Results so Far:**b**Results so Far:**c";
    assert_eq!(results_board(board, &vec![standing(0, "x", 2)]), "a**Results so Far:**\nx: 2");
}

#[test]
fn the_voting_board_lists_the_candidates() {
    assert_eq!(RESULTS_HEADING, "**Results so Far:**");
    assert_eq!(
        voting_board(&texts(&["pool", "gym"])),
        "@everyone \u{1F5F3}\u{FE0F} **Candidates selected:**\n#1: pool\n#2: gym\n\nVote with `/vote <votes> <candidate_number>`\n\n**Results so Far:**\nNo votes cast yet!"
    );
}

#[test]
fn the_results_board_replaces_what_is_below_the_heading() {
    let opened = voting_board(&texts(&["pool", "gym"]));
    let head = "@everyone \u{1F5F3}\u{FE0F} **Candidates selected:**\n#1: pool\n#2: gym\n\nVote with `/vote <votes> <candidate_number>`\n\n**Results so Far:**";
    let first = results_board(&opened, &vec![standing(1, "gym", 3), standing(0, "pool", 0)]);
    assert_eq!(first, format!("{}\ngym: 3\npool: 0", head));
    let second = results_board(&first, &vec![standing(0, "pool", 4), standing(1, "gym", 3)]);
    assert_eq!(second, format!("{}\npool: 4\ngym: 3", head));
}

#[test]
fn the_closing_notice_names_the_winners() {
    assert_eq!(
        closing_notice(&vec![standing(1, "B", 9), standing(0, "A", 5)]),
        "@everyone \u{1F3C6} **The election is over!**\n\n**Winners:**\nB: 9\nA: 5"
    );
    assert_eq!(
        closing_notice(&vec![]),
        "@everyone \u{1F3C6} **The election is over!**\n\n**Winners:**\n"
    );
}
