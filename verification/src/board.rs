//! The texts of the live displays: the numbered lists of suggestions and
//! candidates, the list of leaders, and the boards that carry them under
//! a heading.

use crate::ranking::{standing_views, Standing, StandingView};
use crate::text::text_views;
use vstd::prelude::*;
use vstd::string::StringExecFns;

verus! {

/// The heading under which a board lists the suggestions.
pub const SUGGESTIONS_HEADING: &'static str = "**Suggestions so Far:**";

/// The heading under which a board lists the leading candidates.
pub const RESULTS_HEADING: &'static str = "**Results so Far:**";

/// What a board shows while nothing was suggested.
pub const NO_SUGGESTIONS: &'static str = "No suggestions yet";

/// How the announcement of a new election begins; the prompt follows.
pub const ELECTION_STARTED: &'static str = "@everyone \u{1F5F3}\u{FE0F} **An election has started:** ";

/// What the announcement of a new election says after the prompt; the
/// hours that are left follow.
pub const SUGGESTION_HELP: &'static str =
    "\n\nSuggest candidates with `/prop <idea>`\n\n\u{23F0} Time remaining: ";

/// The unit after the hours, and the space before the heading.
pub const HOURS_UNIT: &'static str = "h\n\n";

/// How the announcement of a vote begins; the candidates follow.
pub const CANDIDATES_SELECTED: &'static str =
    "@everyone \u{1F5F3}\u{FE0F} **Candidates selected:**\n";

/// What the announcement of a vote says after the candidates.
pub const VOTE_HELP: &'static str = "\nVote with `/vote <votes> <candidate_number>`\n\n";

/// What a board shows while nobody has voted.
pub const NO_VOTES: &'static str = "No votes cast yet!";

/// How the announcement of the winners begins; the winners follow.
pub const ELECTION_OVER: &'static str =
    "@everyone \u{1F3C6} **The election is over!**\n\n**Winners:**\n";

/// The character for the digit `d`, which is below 10.
pub open spec fn digit(d: nat) -> char {
    (('0' as nat) + d) as char
}

/// The number `n` in decimal, without leading zeros.
pub open spec fn decimal(n: nat) -> Seq<char>
    decreases n,
{
    if n < 10 {
        seq![digit(n)]
    } else {
        decimal(n / 10).push(digit(n % 10))
    }
}

/// A line that shows `text` under the number `number`.
pub open spec fn numbered(number: nat, text: Seq<char>) -> Seq<char> {
    seq!['#'] + decimal(number) + seq![':', ' '] + text
}

/// A line that shows `text` with the votes it holds.
pub open spec fn scored(standing: StandingView) -> Seq<char> {
    standing.text + seq![':', ' '] + decimal(standing.votes)
}

/// The texts numbered from 1, each on a line of its own that a line feed
/// ends.
pub open spec fn candidate_lines(texts: Seq<Seq<char>>) -> Seq<char>
    decreases texts.len(),
{
    if texts.len() == 0 {
        Seq::<char>::empty()
    } else {
        candidate_lines(texts.drop_last()) + numbered(texts.len(), texts.last()) + seq!['\n']
    }
}

/// The texts numbered from 1, with a line feed between one line and the
/// next.
pub open spec fn numbered_lines(texts: Seq<Seq<char>>) -> Seq<char>
    decreases texts.len(),
{
    if texts.len() == 0 {
        Seq::<char>::empty()
    } else if texts.len() == 1 {
        numbered(1, texts.last())
    } else {
        numbered_lines(texts.drop_last()) + seq!['\n'] + numbered(texts.len(), texts.last())
    }
}

/// What a board shows of the suggestions: their numbered lines, or that
/// there are none.
pub open spec fn suggestion_lines(texts: Seq<Seq<char>>) -> Seq<char> {
    if texts.len() == 0 {
        NO_SUGGESTIONS@
    } else {
        numbered_lines(texts)
    }
}

/// The standings with their votes, with a line feed between one line and
/// the next.
pub open spec fn winner_lines(standings: Seq<StandingView>) -> Seq<char>
    decreases standings.len(),
{
    if standings.len() == 0 {
        Seq::<char>::empty()
    } else if standings.len() == 1 {
        scored(standings.last())
    } else {
        winner_lines(standings.drop_last()) + seq!['\n'] + scored(standings.last())
    }
}

/// Whether `pattern` stands in `text` at the position `at`.
pub open spec fn occurs_at(text: Seq<char>, pattern: Seq<char>, at: int) -> bool {
    0 <= at <= text.len() - pattern.len() && text.subrange(at, at + pattern.len()) == pattern
}

/// Whether `pattern` stands somewhere in `text`.
pub open spec fn occurs(text: Seq<char>, pattern: Seq<char>) -> bool {
    exists|at: int| occurs_at(text, pattern, at)
}

/// Whether `at` is the first position at which `pattern` stands in `text`.
pub open spec fn is_first_occurrence(text: Seq<char>, pattern: Seq<char>, at: int) -> bool {
    occurs_at(text, pattern, at) && forall|earlier: int|
        earlier < at ==> !occurs_at(text, pattern, earlier)
}

/// The first position at which `pattern` stands in `text`, where it does.
pub open spec fn first_occurrence(text: Seq<char>, pattern: Seq<char>) -> int {
    choose|at: int| is_first_occurrence(text, pattern, at)
}

/// What comes before the first `heading` in `text`; all of `text` where
/// there is none.
pub open spec fn head_before(text: Seq<char>, heading: Seq<char>) -> Seq<char> {
    if occurs(text, heading) {
        text.take(first_occurrence(text, heading))
    } else {
        text
    }
}

/// `text` up to the end of the first `heading` in it; all of `text` where
/// there is none.
pub open spec fn head_through(text: Seq<char>, heading: Seq<char>) -> Seq<char> {
    if occurs(text, heading) {
        text.take(first_occurrence(text, heading) + heading.len())
    } else {
        text
    }
}

/// A board that lists suggestions, brought up to date: what `board` held
/// before its heading, the heading, and below it the suggestions.
pub open spec fn spec_suggestion_board(board: Seq<char>, texts: Seq<Seq<char>>) -> Seq<char> {
    head_before(board, SUGGESTIONS_HEADING@) + SUGGESTIONS_HEADING@ + seq!['\n']
        + suggestion_lines(texts)
}

/// A board that lists the leading candidates, brought up to date: `board`
/// up to the end of its heading, and below it the leaders.
pub open spec fn spec_results_board(board: Seq<char>, leaders: Seq<StandingView>) -> Seq<char> {
    head_through(board, RESULTS_HEADING@) + seq!['\n'] + winner_lines(leaders)
}

/// The board that announces a new election on `prompt`, with `hours`
/// hours for suggestions and none made yet.
pub open spec fn spec_opening_board(prompt: Seq<char>, hours: nat) -> Seq<char> {
    ELECTION_STARTED@ + prompt + SUGGESTION_HELP@ + decimal(hours) + HOURS_UNIT@
        + SUGGESTIONS_HEADING@ + seq!['\n'] + NO_SUGGESTIONS@
}

/// The board that announces the vote on the candidates `texts`, with no
/// vote cast yet.
pub open spec fn spec_voting_board(texts: Seq<Seq<char>>) -> Seq<char> {
    CANDIDATES_SELECTED@ + candidate_lines(texts) + VOTE_HELP@ + RESULTS_HEADING@ + seq!['\n']
        + NO_VOTES@
}

/// The announcement of the winners `leaders`.
pub open spec fn spec_closing_notice(leaders: Seq<StandingView>) -> Seq<char> {
    ELECTION_OVER@ + winner_lines(leaders)
}

/// A pattern has one first occurrence at most.
pub proof fn lemma_first_occurrence_is_unique(text: Seq<char>, pattern: Seq<char>, at: int)
    requires
        is_first_occurrence(text, pattern, at),
    ensures
        occurs(text, pattern),
        first_occurrence(text, pattern) == at,
{
    let chosen = first_occurrence(text, pattern);
    assert(is_first_occurrence(text, pattern, chosen));
    if chosen < at {
        assert(!occurs_at(text, pattern, chosen));
    } else if at < chosen {
        assert(!occurs_at(text, pattern, at));
    }
}

/// A board that was brought up to date keeps its heading where it was:
/// what stood before the first heading of `board` stands before the first
/// heading of `board`'s head with the heading and anything else after it.
pub proof fn lemma_head_is_kept(board: Seq<char>, heading: Seq<char>, below: Seq<char>)
    requires
        occurs(board, heading),
    ensures
        occurs(head_before(board, heading) + heading + below, heading),
        head_before(head_before(board, heading) + heading + below, heading) == head_before(
            board,
            heading,
        ),
        head_through(head_before(board, heading) + heading + below, heading) == head_before(
            board,
            heading,
        ) + heading,
        head_through(board, heading) == head_before(board, heading) + heading,
{
    let at = first_occurrence(board, heading);
    let witness = choose|at: int| occurs_at(board, heading, at);
    lemma_least_occurrence(board, heading, witness);
    assert(is_first_occurrence(board, heading, at));
    let head = head_before(board, heading);
    let updated = head + heading + below;
    assert(updated.subrange(at, at + heading.len()) =~= heading);
    assert forall|earlier: int| earlier < at implies !occurs_at(updated, heading, earlier) by {
        if occurs_at(updated, heading, earlier) {
            let there = board.subrange(earlier, earlier + heading.len());
            let here = updated.subrange(earlier, earlier + heading.len());
            let found = board.subrange(at, at + heading.len());
            assert forall|i: int| 0 <= i < heading.len() implies #[trigger] there[i] == here[i] by {
                if earlier + i >= at {
                    assert(found[earlier + i - at] == heading[earlier + i - at]);
                }
            }
            assert(there =~= here);
            assert(occurs_at(board, heading, earlier));
        }
    }
    lemma_first_occurrence_is_unique(updated, heading, at);
    assert(updated.take(at) =~= head);
    assert(updated.take(at + heading.len()) =~= head + heading);
    assert(board.take(at + heading.len()) =~= head + heading) by {
        let found = board.subrange(at, at + heading.len());
        assert forall|i: int| 0 <= i < heading.len() implies #[trigger] found[i] == heading[i] by {}
        assert forall|i: int| 0 <= i < at + heading.len() implies #[trigger] board.take(
            at + heading.len(),
        )[i] == (head + heading)[i] by {
            if i >= at {
                assert(found[i - at] == heading[i - at]);
            }
        }
    }
}

/// Where a pattern occurs at all, it has a first occurrence.
pub proof fn lemma_least_occurrence(text: Seq<char>, pattern: Seq<char>, at: int)
    requires
        occurs_at(text, pattern, at),
    ensures
        exists|first: int| is_first_occurrence(text, pattern, first),
    decreases at,
{
    if exists|earlier: int| earlier < at && occurs_at(text, pattern, earlier) {
        let earlier = choose|earlier: int| earlier < at && occurs_at(text, pattern, earlier);
        lemma_least_occurrence(text, pattern, earlier);
    } else {
        assert(is_first_occurrence(text, pattern, at));
    }
}

/// Bringing a board with a heading up to date twice shows what the second
/// update alone would show: each update replaces what is below the
/// heading.
pub proof fn lemma_board_shows_the_last_update(
    board: Seq<char>,
    earlier: Seq<Seq<char>>,
    later: Seq<Seq<char>>,
    first_leaders: Seq<StandingView>,
    last_leaders: Seq<StandingView>,
)
    ensures
        occurs(board, SUGGESTIONS_HEADING@) ==> spec_suggestion_board(
            spec_suggestion_board(board, earlier),
            later,
        ) == spec_suggestion_board(board, later),
        occurs(board, RESULTS_HEADING@) ==> spec_results_board(
            spec_results_board(board, first_leaders),
            last_leaders,
        ) == spec_results_board(board, last_leaders),
{
    if occurs(board, SUGGESTIONS_HEADING@) {
        let below = seq!['\n'] + suggestion_lines(earlier);
        lemma_head_is_kept(board, SUGGESTIONS_HEADING@, below);
        assert(spec_suggestion_board(board, earlier) =~= head_before(board, SUGGESTIONS_HEADING@)
            + SUGGESTIONS_HEADING@ + below);
    }
    if occurs(board, RESULTS_HEADING@) {
        let below = seq!['\n'] + winner_lines(first_leaders);
        lemma_head_is_kept(board, RESULTS_HEADING@, below);
        assert(spec_results_board(board, first_leaders) =~= head_before(board, RESULTS_HEADING@)
            + RESULTS_HEADING@ + below);
    }
}

/// Appends the number `n` in decimal to `out`.
pub fn write_decimal(out: &mut String, n: u128)
    ensures
        final(out)@ == old(out)@ + decimal(n as nat),
{
    let mut digits: Vec<char> = Vec::new();
    digits.push((48u8 + (n % 10) as u8) as char);
    let mut rest: u128 = n / 10;
    proof {
        assert(digits@.reverse() =~= seq![digit((n % 10) as nat)]);
        if n >= 10 {
            assert(decimal(n as nat) =~= decimal(rest as nat) + digits@.reverse());
        }
    }
    while rest > 0
        invariant
            digits.len() > 0,
            decimal(n as nat) == (if rest > 0 {
                decimal(rest as nat)
            } else {
                Seq::<char>::empty()
            }) + digits@.reverse(),
        decreases rest,
    {
        let ghost before = digits@;
        digits.push((48u8 + (rest % 10) as u8) as char);
        proof {
            let last = digit((rest % 10) as nat);
            assert(digits@.reverse() =~= seq![last] + before.reverse());
            if rest >= 10 {
                assert(decimal(rest as nat) + before.reverse() =~= decimal((rest / 10) as nat)
                    + digits@.reverse());
            } else {
                assert(decimal(rest as nat) + before.reverse() =~= Seq::<char>::empty()
                    + digits@.reverse());
            }
        }
        rest = rest / 10;
    }
    let mut left: usize = digits.len();
    while left > 0
        invariant
            left <= digits.len(),
            out@ == old(out)@ + digits@.reverse().take(digits.len() - left),
        decreases left,
    {
        left -= 1;
        out.push(digits[left]);
        proof {
            let reversed = digits@.reverse();
            assert(reversed.take(digits.len() - left) =~= reversed.take(digits.len() - left - 1).push(
                digits[left as int],
            ));
        }
    }
    proof {
        assert(digits@.reverse().take(digits.len() as int) =~= digits@.reverse());
    }
}

/// The number `n` in decimal.
pub fn decimal_text(n: u128) -> (text: String)
    ensures
        text@ == decimal(n as nat),
{
    let mut text = String::new();
    write_decimal(&mut text, n);
    assert(text@ =~= decimal(n as nat));
    text
}

/// Appends the line of `text` under the number `number` to `out`.
fn write_numbered(out: &mut String, number: usize, text: &str)
    ensures
        final(out)@ == old(out)@ + numbered(number as nat, text@),
{
    out.push('#');
    write_decimal(out, number as u128);
    out.push(':');
    out.push(' ');
    out.append(text);
    assert(out@ =~= old(out)@ + numbered(number as nat, text@));
}

/// The candidates numbered from 1, each on a line of its own that a line
/// feed ends.
pub fn candidate_list(candidates: &Vec<String>) -> (lines: String)
    ensures
        lines@ == candidate_lines(text_views(candidates@)),
{
    let mut lines = String::new();
    let ghost texts = text_views(candidates@);
    let mut i: usize = 0;
    while i < candidates.len()
        invariant
            i <= candidates.len(),
            texts == text_views(candidates@),
            lines@ == candidate_lines(texts.take(i as int)),
        decreases candidates.len() - i,
    {
        let ghost before = lines@;
        write_numbered(&mut lines, i + 1, candidates[i].as_str());
        lines.push('\n');
        proof {
            assert(texts.take(i + 1).drop_last() =~= texts.take(i as int));
            assert(texts.take(i + 1).last() == candidates[i as int]@);
            assert(lines@ =~= candidate_lines(texts.take(i + 1)));
        }
        i += 1;
    }
    proof {
        assert(texts.take(candidates.len() as int) =~= texts);
    }
    lines
}

/// What a board shows of the suggestions: numbered from 1, one to a
/// line; or that there are none.
pub fn suggestion_list(suggestions: &Vec<String>) -> (lines: String)
    ensures
        lines@ == suggestion_lines(text_views(suggestions@)),
{
    if suggestions.len() == 0 {
        return String::from_str(NO_SUGGESTIONS);
    }
    let mut lines = String::new();
    let ghost texts = text_views(suggestions@);
    let mut i: usize = 0;
    while i < suggestions.len()
        invariant
            i <= suggestions.len(),
            texts == text_views(suggestions@),
            lines@ == numbered_lines(texts.take(i as int)),
        decreases suggestions.len() - i,
    {
        if i > 0 {
            lines.push('\n');
        }
        write_numbered(&mut lines, i + 1, suggestions[i].as_str());
        proof {
            assert(texts.take(i + 1).drop_last() =~= texts.take(i as int));
            assert(texts.take(i + 1).last() == suggestions[i as int]@);
            assert(lines@ =~= numbered_lines(texts.take(i + 1)));
        }
        i += 1;
    }
    proof {
        assert(texts.take(suggestions.len() as int) =~= texts);
    }
    lines
}

/// The standings with their votes, one to a line.
pub fn winner_list(standings: &Vec<Standing>) -> (lines: String)
    ensures
        lines@ == winner_lines(standing_views(standings@)),
{
    let mut lines = String::new();
    let ghost views = standing_views(standings@);
    let mut i: usize = 0;
    while i < standings.len()
        invariant
            i <= standings.len(),
            views == standing_views(standings@),
            lines@ == winner_lines(views.take(i as int)),
        decreases standings.len() - i,
    {
        if i > 0 {
            lines.push('\n');
        }
        let ghost before = lines@;
        lines.append(standings[i].text.as_str());
        lines.push(':');
        lines.push(' ');
        write_decimal(&mut lines, standings[i].votes);
        proof {
            assert(views.take(i + 1).drop_last() =~= views.take(i as int));
            assert(views.take(i + 1).last() == standings[i as int]@);
            assert(lines@ =~= before + scored(standings[i as int]@));
            assert(lines@ =~= winner_lines(views.take(i + 1)));
        }
        i += 1;
    }
    proof {
        assert(views.take(standings.len() as int) =~= views);
    }
    lines
}

/// The characters of `text`.
fn chars_of(text: &str) -> (chars: Vec<char>)
    ensures
        chars@ == text@,
{
    let mut chars: Vec<char> = Vec::new();
    for c in it: text.chars()
        invariant
            it.seq() == text@,
            chars@ == text@.take(it.index()),
    {
        chars.push(c);
        assert(text@.take(it.index() + 1) =~= text@.take(it.index()).push(c));
    }
    assert(text@.take(text@.len() as int) =~= text@);
    chars
}

/// Whether `pattern` stands in `text` at the position `at`.
fn matches_at(text: &Vec<char>, pattern: &Vec<char>, at: usize) -> (found: bool)
    requires
        at + pattern.len() <= text.len(),
    ensures
        found == occurs_at(text@, pattern@, at as int),
{
    let mut i: usize = 0;
    while i < pattern.len()
        invariant
            i <= pattern.len(),
            at + pattern.len() <= text.len(),
            forall|j: int| 0 <= j < i ==> text[at + j] == pattern[j],
        decreases pattern.len() - i,
    {
        if text[at + i] != pattern[i] {
            assert(text@.subrange(at as int, at + pattern.len())[i as int] != pattern@[i as int]);
            return false;
        }
        i += 1;
    }
    assert(text@.subrange(at as int, at + pattern.len()) =~= pattern@);
    true
}

/// Finds the first position at which `pattern` stands in `text`.
pub fn find(text: &Vec<char>, pattern: &Vec<char>) -> (place: Option<usize>)
    ensures
        match place {
            Some(at) => is_first_occurrence(text@, pattern@, at as int),
            None => !occurs(text@, pattern@),
        },
{
    if pattern.len() > text.len() {
        return None;
    }
    let last = text.len() - pattern.len();
    let mut at: usize = 0;
    loop
        invariant
            at <= last,
            last == text.len() - pattern.len(),
            forall|earlier: int| earlier < at ==> !occurs_at(text@, pattern@, earlier),
        decreases last - at,
    {
        if matches_at(text, pattern, at) {
            return Some(at);
        }
        if at == last {
            return None;
        }
        at += 1;
    }
}

/// Appends the first `count` characters of `chars` to `out`.
fn write_chars(out: &mut String, chars: &Vec<char>, count: usize)
    requires
        count <= chars.len(),
    ensures
        final(out)@ == old(out)@ + chars@.take(count as int),
{
    let mut i: usize = 0;
    while i < count
        invariant
            i <= count <= chars.len(),
            out@ == old(out)@ + chars@.take(i as int),
        decreases count - i,
    {
        out.push(chars[i]);
        assert(chars@.take(i + 1) =~= chars@.take(i as int).push(chars[i as int]));
        i += 1;
    }
}

/// Brings a board that lists suggestions up to date: keeps what `board`
/// holds before its heading (all of it where the heading is missing), and
/// puts the heading and the suggestions below.
pub fn suggestion_board(board: &str, suggestions: &Vec<String>) -> (updated: String)
    ensures
        updated@ == spec_suggestion_board(board@, text_views(suggestions@)),
{
    let chars = chars_of(board);
    let heading = chars_of(SUGGESTIONS_HEADING);
    let kept = match find(&chars, &heading) {
        Some(at) => {
            proof {
                lemma_first_occurrence_is_unique(chars@, heading@, at as int);
            }
            at
        },
        None => chars.len(),
    };
    assert(chars@.take(kept as int) =~= head_before(board@, SUGGESTIONS_HEADING@));
    let mut updated = String::new();
    write_chars(&mut updated, &chars, kept);
    updated.append(SUGGESTIONS_HEADING);
    updated.push('\n');
    let lines = suggestion_list(suggestions);
    updated.append(lines.as_str());
    assert(updated@ =~= spec_suggestion_board(board@, text_views(suggestions@)));
    updated
}

/// Brings a board that lists the leading candidates up to date: keeps
/// `board` up to the end of its heading (all of it where the heading is
/// missing), and puts the leaders below.
pub fn results_board(board: &str, leaders: &Vec<Standing>) -> (updated: String)
    ensures
        updated@ == spec_results_board(board@, standing_views(leaders@)),
{
    let chars = chars_of(board);
    let heading = chars_of(RESULTS_HEADING);
    let kept = match find(&chars, &heading) {
        Some(at) => {
            proof {
                lemma_first_occurrence_is_unique(chars@, heading@, at as int);
            }
            at + heading.len()
        },
        None => chars.len(),
    };
    assert(chars@.take(kept as int) =~= head_through(board@, RESULTS_HEADING@));
    let mut updated = String::new();
    write_chars(&mut updated, &chars, kept);
    updated.push('\n');
    let lines = winner_list(leaders);
    updated.append(lines.as_str());
    assert(updated@ =~= spec_results_board(board@, standing_views(leaders@)));
    updated
}

/// Writes the board that announces a new election on `prompt`, with
/// `hours` hours for suggestions and none made yet.
pub fn opening_board(prompt: &str, hours: u64) -> (board: String)
    ensures
        board@ == spec_opening_board(prompt@, hours as nat),
{
    let mut board = String::from_str(ELECTION_STARTED);
    board.append(prompt);
    board.append(SUGGESTION_HELP);
    write_decimal(&mut board, hours as u128);
    board.append(HOURS_UNIT);
    board.append(SUGGESTIONS_HEADING);
    board.push('\n');
    board.append(NO_SUGGESTIONS);
    assert(board@ =~= spec_opening_board(prompt@, hours as nat));
    board
}

/// Writes the board that announces the vote on `candidates`, with no vote
/// cast yet.
pub fn voting_board(candidates: &Vec<String>) -> (board: String)
    ensures
        board@ == spec_voting_board(text_views(candidates@)),
{
    let mut board = String::from_str(CANDIDATES_SELECTED);
    let lines = candidate_list(candidates);
    board.append(lines.as_str());
    board.append(VOTE_HELP);
    board.append(RESULTS_HEADING);
    board.push('\n');
    board.append(NO_VOTES);
    assert(board@ =~= spec_voting_board(text_views(candidates@)));
    board
}

/// Writes the announcement of the winners `leaders`.
pub fn closing_notice(leaders: &Vec<Standing>) -> (notice: String)
    ensures
        notice@ == spec_closing_notice(standing_views(leaders@)),
{
    let mut notice = String::from_str(ELECTION_OVER);
    let lines = winner_list(leaders);
    notice.append(lines.as_str());
    notice
}

} // verus!
