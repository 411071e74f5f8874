use fozzie::config::Config;
use fozzie::input::candidates;

fn config() -> Config {
    Config {
        lines: 10,
        prompt: "> ".to_string(),
        show_scores: false,
        query: None,
        delimiter: None,
        field: None,
        output: None,
        benchmark: false,
    }
}

fn texts(input: &[u8], config: &Config) -> Vec<String> {
    candidates(input, config)
        .iter()
        .map(|choice| choice.searchable().to_string())
        .collect()
}

#[test]
fn one_candidate_for_each_line() {
    assert_eq!(vec!["foo", "bar", "baz"], texts(b"foo\nbar\nbaz\n", &config()));
    assert_eq!(vec!["foo", "bar", "baz"], texts(b"foo\nbar\nbaz", &config()));
}

#[test]
fn no_candidate_of_an_empty_input() {
    assert!(texts(b"", &config()).is_empty());
}

#[test]
fn empty_lines_are_candidates() {
    assert_eq!(vec![""], texts(b"\n", &config()));
    assert_eq!(vec!["", ""], texts(b"\n\n", &config()));
    assert_eq!(vec!["a", "", "b"], texts(b"a\n\nb\n", &config()));
    assert_eq!(vec!["a", ""], texts(b"a\n\n", &config()));
}

#[test]
fn a_carriage_return_before_the_line_feed_is_no_part_of_the_line() {
    assert_eq!(vec!["foo", "bar"], texts(b"foo\r\nbar\r\n", &config()));
    assert_eq!(vec!["foo", "bar"], texts(b"foo\r\nbar\r", &config()));
    assert_eq!(vec!["fo\ro", "bar\r"], texts(b"fo\ro\nbar\r\r\n", &config()));
    assert_eq!(vec![""], texts(b"\r", &config()));
}

#[test]
fn a_line_that_is_no_utf8_is_passed_over() {
    assert_eq!(vec!["foo", "baz"], texts(b"foo\nb\xFFr\nbaz\n", &config()));
    assert_eq!(vec!["foo"], texts(b"foo\n\xC3", &config()));
    assert_eq!(vec!["h\u{e9}llo", "w\u{f6}rld"], texts("h\u{e9}llo\nw\u{f6}rld\n".as_bytes(), &config()));
}

#[test]
fn a_line_that_lacks_a_field_is_passed_over() {
    let split = Config {
        delimiter: Some(":".to_string()),
        field: Some(1),
        output: Some(0),
        ..config()
    };
    let read = candidates(b"1:foo\nbroken\n2:bar:more\n", &split);
    assert_eq!(2, read.len());
    assert_eq!("foo", read[0].searchable());
    assert_eq!("1", read[0].returnable());
    assert_eq!("bar", read[1].searchable());
    assert_eq!("2", read[1].returnable());
}

#[test]
fn candidates_keep_what_the_scorer_needs() {
    let read = candidates(b"app/Models\n", &config());
    assert_eq!(1, read.len());
    assert_eq!(10, read[0].len());
    assert_eq!('m', read[0].lower_at(4));
    assert_eq!(900, read[0].bonus_at(4));
    assert_eq!("app/Models", read[0].returnable());
}
