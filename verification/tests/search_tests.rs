use fozzie::cursor;
use fozzie::search::Search;

/// A query behind the prompt `> ` that holds `text`, the cursor at `position`.
fn search_at(text: &str, position: usize) -> Search {
    let mut search = Search::new("> ");
    search.set_query(text);
    while search.position() > position {
        search.left();
    }
    search
}

fn chars(text: &str) -> Vec<char> {
    text.chars().collect()
}

#[test]
fn test_draw() {
    let search = Search::new("> ");

    assert_eq!(
        format!("{}\r> {}", cursor::clear_line(), cursor::col(3)),
        search.draw()
    );
}

#[test]
fn test_keypress() {
    let mut search = Search::new("> ");

    assert_eq!(
        format!("{}\r> b{}", cursor::clear_line(), cursor::col(4)),
        search.keypress('b')
    );
    assert_eq!(1, search.position());
}

#[test]
fn test_backspace() {
    let mut search = search_at("abc", 3);

    assert_eq!(
        format!("{}\r> ab{}", cursor::clear_line(), cursor::col(5)),
        search.backspace().unwrap()
    );
    assert_eq!(2, search.position());
}

#[test]
fn test_backspace_none() {
    let mut search = search_at("abc", 0);

    assert!(search.backspace().is_none());
    assert_eq!(0, search.position());
}

#[test]
fn test_delete() {
    let mut search = search_at("abc", 1);

    assert_eq!(
        format!("{}\r> ac{}", cursor::clear_line(), cursor::col(4)),
        search.delete().unwrap()
    );
    assert_eq!(1, search.position());
}

#[test]
fn test_delete_none() {
    let mut search = search_at("abc", 3);

    assert!(search.delete().is_none());
    assert_eq!(3, search.position());
}

#[test]
fn search_test_left() {
    let mut search = search_at("abc", 1);

    assert_eq!(format!("{}", cursor::left()), search.left().unwrap());
    assert_eq!(0, search.position());
}

#[test]
fn test_left_none() {
    let mut search = search_at("abc", 0);

    assert!(search.left().is_none());
    assert_eq!(0, search.position());
}

#[test]
fn search_test_right() {
    let mut search = search_at("abc", 1);

    assert_eq!(format!("{}", cursor::right()), search.right().unwrap());
    assert_eq!(2, search.position());
}

#[test]
fn test_right_none() {
    let mut search = search_at("abc", 3);

    assert!(search.right().is_none());
    assert_eq!(3, search.position());
}

#[test]
fn test_clear() {
    let mut search = search_at("abc", 1);
    search.clear();

    assert_eq!(
        format!("{}\r> {}", cursor::clear_line(), cursor::col(3)),
        search.clear()
    );
    assert_eq!(0, search.position());
}

#[test]
fn test_left_word() {
    let mut search = search_at("as as as ", 7);

    search.left_word();

    assert_eq!(6, search.position());

    let mut search = search_at("as as as ", 3);
    search.left_word();
    assert_eq!(0, search.position());
}

#[test]
fn test_right_word() {
    let mut search = search_at("as as as ", 0);
    search.right_word();

    assert_eq!(3, search.position());

    let mut search = search_at("as as as ", 6);
    search.right_word();
    assert_eq!(9, search.position());
}

#[test]
fn backspace_word_test() {
    let mut search = search_at("as as as ", 5);
    search.backspace_word();

    assert_eq!(3, search.position());
    assert_eq!(&chars("as  as "), search.query());

    search.backspace_word();

    assert_eq!(0, search.position());
    assert_eq!(&chars(" as "), search.query());
}

#[test]
fn delete_word_test() {
    let mut search = search_at("as as as as ", 3);
    search.delete_word();

    assert_eq!(3, search.position());
    assert_eq!(&chars("as  as as "), search.query());
}

#[test]
fn delete_word_at_end_test() {
    let mut search = search_at("as as as as ", 10);
    search.delete_word();

    assert_eq!(10, search.position());
    assert_eq!(&chars("as as as a"), search.query());
}

#[test]
fn set_query_round_trip() {
    let mut search = Search::new("> ");
    let line = search.set_query("héllo wörld");

    assert_eq!(&chars("héllo wörld"), search.query());
    assert_eq!(11, search.position());
    assert_eq!(
        format!("{}\r> héllo wörld{}", cursor::clear_line(), cursor::col(14)),
        line
    );
    assert_eq!(line, search.draw());
}

#[test]
fn keypress_in_the_middle() {
    let mut search = search_at("ac", 1);

    assert_eq!(
        format!("{}\r> abc{}", cursor::clear_line(), cursor::col(5)),
        search.keypress('b')
    );
    assert_eq!(&chars("abc"), search.query());
    assert_eq!(2, search.position());
}

#[test]
fn word_motions_with_given_words() {
    let mut search = search_at("as as as ", 7);
    search.left_word_from(&vec![(0, 1), (3, 4), (6, 7)]);
    assert_eq!(6, search.position());

    search.right_word_from(&vec![(0, 1), (3, 4), (6, 7)]);
    assert_eq!(9, search.position());

    let mut search = search_at("as as as ", 1);
    search.right_word_from(&vec![(0, 1), (3, 4), (6, 7)]);
    assert_eq!(3, search.position());

    let mut search = search_at("as as as ", 4);
    search.backspace_word_from(&vec![(0, 1), (3, 4), (6, 7)]);
    assert_eq!(3, search.position());
    assert_eq!(&chars("as s as "), search.query());

    let mut search = search_at("as as as ", 2);
    search.delete_word_from(&vec![(1, 2), (4, 5), (7, 8)]);
    assert_eq!(2, search.position());
    assert_eq!(&chars("as as "), search.query());
}

#[test]
fn word_motions_on_an_empty_query() {
    let mut search = Search::new("> ");
    search.left_word();
    assert_eq!(0, search.position());
    search.right_word();
    assert_eq!(0, search.position());
    search.backspace_word();
    search.delete_word();
    assert!(search.query().is_empty());
}

#[test]
fn right_word_stays_within_a_query_of_wide_characters() {
    // The words are found by byte offsets, which run ahead of the characters
    // here: the second word starts at byte 5, and the query has 5 characters.
    let mut search = search_at("éé a", 0);
    search.right_word();
    assert!(search.position() <= search.query().len());
}
