use fozzie::bonus;
use fozzie::choice::Choice;
use fozzie::fixed::Fixed;
use fozzie::scorer::{Score, GAP_INNER, GAP_LEADING, GAP_TRAILING, MATCH_CONSECUTIVE};

const MAX: Fixed = Fixed::PosInf;
const MIN: Fixed = Fixed::NegInf;

fn score(query: &str, choice: &str) -> Fixed {
    Score::new(
        &query.chars().collect::<Vec<char>>(),
        &Choice::of(choice, choice),
    )
    .score
}

fn positions(query: &str, choice: &str) -> Vec<usize> {
    Score::new(
        &query.chars().collect::<Vec<char>>(),
        &Choice::of(choice, choice),
    )
    .positions
}

/// Whether `a` is the greater score.
fn greater(a: Fixed, b: Fixed) -> bool {
    !a.le(b)
}

#[test]
fn prefer_starts_of_words_test() {
    assert!(greater(
        score("amor", "app/models/order"),
        score("amor", "app/models/zrder")
    ));
}

#[test]
fn prefer_contiguous_over_letter_following_period_test() {
    assert!(greater(
        score("gemfil", "Gemfile"),
        score("gemfil", "Gemfile.lock")
    ));
}

#[test]
fn prefer_shorter_matches_test() {
    assert!(greater(score("abce", "abcdef"), score("abce", "abc de")));
    assert!(greater(score("abc", "    a b c "), score("abc", " a  b  c ")));
    assert!(greater(score("abc", " a b c    "), score("abc", " a  b  c ")));
}

#[test]
fn should_prefer_shorter_candidates_test() {
    assert!(greater(score("test", "tests"), score("test", "testing")));
}

#[test]
fn should_prefer_start_of_candidate_test() {
    assert!(greater(score("test", "testing"), score("test", "/testing")));
}

#[test]
fn score_exact_match_test() {
    assert_eq!(MAX, score("abc", "abc"));
    assert_eq!(MAX, score("aBc", "abC"));
}

#[test]
fn score_empty_query_test() {
    assert_eq!(MIN, score("", ""));
    assert_eq!(MIN, score("", "a"));
    assert_eq!(MIN, score("", "bb"));
}

#[test]
fn score_words_higher_test() {
    assert!(greater(
        score("orderitem", "app/models/o2/order_item.rb"),
        score(
            "orderitem",
            "app/frontend/src/javascript/controllers/OrderItemsWizard.js"
        )
    ));
}

#[test]
fn score_gaps_test() {
    assert_eq!(Fixed::Finite(GAP_LEADING), score("a", "*a"));
    assert_eq!(Fixed::Finite(GAP_LEADING * 2), score("a", "*ba"));
    assert_eq!(Fixed::Finite(GAP_LEADING * 2 + GAP_TRAILING), score("a", "**a*"));
    assert_eq!(
        Fixed::Finite(GAP_LEADING * 2 + GAP_TRAILING * 2),
        score("a", "**a**")
    );
    assert_eq!(
        Fixed::Finite(GAP_LEADING * 2 + MATCH_CONSECUTIVE + GAP_TRAILING * 2),
        score("aa", "**aa**")
    );
    assert_eq!(
        Fixed::Finite(GAP_LEADING + GAP_LEADING + GAP_INNER + GAP_TRAILING + GAP_TRAILING),
        score("aa", "**a*a**")
    );
}

#[test]
fn score_consecutive_test() {
    assert_eq!(Fixed::Finite(GAP_LEADING + MATCH_CONSECUTIVE), score("aa", "*aa"));
    assert_eq!(
        Fixed::Finite(GAP_LEADING + MATCH_CONSECUTIVE * 2),
        score("aaa", "*aaa")
    );
    assert_eq!(
        Fixed::Finite(GAP_LEADING + GAP_INNER + MATCH_CONSECUTIVE),
        score("aaa", "*a*aa")
    );
}

#[test]
fn score_slash_test() {
    assert_eq!(Fixed::Finite(GAP_LEADING + bonus::SLASH), score("a", "/a"));
    assert_eq!(Fixed::Finite(GAP_LEADING * 2 + bonus::SLASH), score("a", "*/a"));
    assert_eq!(
        Fixed::Finite(GAP_LEADING * 2 + bonus::SLASH + MATCH_CONSECUTIVE),
        score("aa", "a/aa")
    );
}

#[test]
fn score_capital_test() {
    assert_eq!(Fixed::Finite(GAP_LEADING + bonus::CAPITAL), score("a", "bA"));
    assert_eq!(Fixed::Finite(GAP_LEADING * 2 + bonus::CAPITAL), score("a", "baA"));
    assert_eq!(
        Fixed::Finite(GAP_LEADING * 2 + bonus::CAPITAL + MATCH_CONSECUTIVE),
        score("aa", "baAa")
    );
}

#[test]
fn score_dot_test() {
    assert_eq!(Fixed::Finite(GAP_LEADING + bonus::DOT), score("a", ".a"));
    assert_eq!(Fixed::Finite(GAP_LEADING * 3 + bonus::DOT), score("a", "*a.a"));
    assert_eq!(
        Fixed::Finite(GAP_LEADING + GAP_INNER + bonus::DOT),
        score("a", "*a.a")
    );
}

#[test]
fn positions_consecutive_test() {
    let positions = positions("amo", "app/models/foo");

    assert_eq!(0, positions[0]);
    assert_eq!(4, positions[1]);
    assert_eq!(5, positions[2]);
    assert_eq!(3, positions.len());
}

#[test]
fn positions_start_of_word_test() {
    let positions = positions("amor", "app/models/order");

    assert_eq!(0, positions[0]);
    assert_eq!(4, positions[1]);
    assert_eq!(11, positions[2]);
    assert_eq!(12, positions[3]);
    assert_eq!(4, positions.len());
}

#[test]
fn positions_no_bonuses_test() {
    let places = positions("as", "tags");

    assert_eq!(1, places[0]);
    assert_eq!(3, places[1]);
    assert_eq!(2, places.len());

    let places = positions("as", "examples.txt");
    assert_eq!(2, places[0]);
    assert_eq!(7, places[1]);
    assert_eq!(2, places.len());
}

#[test]
fn positions_multiple_candidates_start_of_words_test() {
    let positions = positions("abc", "a/a/b/c/c");

    assert_eq!(2, positions[0]);
    assert_eq!(4, positions[1]);
    assert_eq!(6, positions[2]);
    assert_eq!(3, positions.len());
}

#[test]
fn positions_exact_match_test() {
    let positions = positions("foo", "foo");

    assert_eq!(0, positions[0]);
    assert_eq!(1, positions[1]);
    assert_eq!(2, positions[2]);
    assert_eq!(3, positions.len());
}

#[test]
fn positions_test() {
    let positions = positions("code", "CODE_OF_CONDUCT.md");

    assert_eq!(0, positions[0]);
    assert_eq!(1, positions[1]);
    assert_eq!(2, positions[2]);
    assert_eq!(3, positions[3]);
    assert_eq!(4, positions.len());
}

#[test]
fn class_positions_test() {
    let positions = positions("class", "class_");

    assert_eq!(0, positions[0]);
    assert_eq!(1, positions[1]);
    assert_eq!(2, positions[2]);
    assert_eq!(3, positions[3]);
    assert_eq!(4, positions[4]);
    assert_eq!(5, positions.len());
}

#[test]
fn scoring_constants() {
    assert_eq!(-5, GAP_LEADING);
    assert_eq!(-10, GAP_INNER);
    assert_eq!(-5, GAP_TRAILING);
    assert_eq!(1000, MATCH_CONSECUTIVE);
}

#[test]
fn score_word_test() {
    assert_eq!(Fixed::Finite(GAP_LEADING * 2 + bonus::WORD), score("a", "*-a"));
    assert_eq!(Fixed::Finite(GAP_LEADING * 2 + bonus::WORD), score("a", "*_a"));
    assert_eq!(Fixed::Finite(GAP_LEADING * 2 + bonus::WORD), score("a", "* a"));
}

#[test]
fn score_in_thousandths() {
    assert_eq!(Fixed::Finite(-5), score("a", "*a"));
    assert_eq!(Fixed::Finite(-20), score("a", "**a**"));
    assert_eq!(Fixed::Finite(980), score("aa", "**aa**"));
    assert_eq!(Fixed::Finite(995), score("aa", "*aa"));
    assert_eq!(Fixed::Finite(895), score("a", "/a"));
    assert_eq!(Fixed::Finite(695), score("a", "bA"));
    assert_eq!(Fixed::Finite(595), score("a", ".a"));
    assert_eq!(Fixed::Finite(890), score("f", "foo"));
}

#[test]
fn score_of_a_query_that_does_not_occur() {
    assert_eq!(MIN, score("b", "aa"));
    assert_eq!(vec![0], positions("b", "aa"));
    assert_eq!(MIN, score("abc", "ab"));
    assert_eq!(vec![0, 0, 0], positions("abc", "ab"));
    assert_eq!(MIN, score("a", ""));
    assert_eq!(vec![0], positions("a", ""));
}

#[test]
fn positions_embed_the_query() {
    let cases = [
        ("amor", "app/models/order"),
        ("gemfil", "Gemfile.lock"),
        ("orderitem", "app/frontend/src/javascript/controllers/OrderItemsWizard.js"),
        ("AbC", "xaxBxcx"),
        ("aaa", "aaaaaa"),
        ("ab", "abab/ab"),
    ];
    for (query, choice) in cases {
        let places = positions(query, choice);
        let query: Vec<char> = query.chars().collect();
        let choice: Vec<char> = choice.chars().collect();
        assert_eq!(query.len(), places.len());
        for k in 0..places.len() {
            assert!(places[k] < choice.len());
            assert_eq!(
                query[k].to_ascii_lowercase(),
                choice[places[k]].to_ascii_lowercase()
            );
            if k > 0 {
                assert!(places[k - 1] < places[k]);
            }
        }
    }
}
