use fozzie::choice::Choice;
use fozzie::config::{parse_lines, Config, LinesError};

fn config() -> Config {
    Config {
        lines: 10,
        prompt: ">".to_string(),
        show_scores: false,
        query: None,
        delimiter: None,
        field: None,
        output: None,
        benchmark: false,
    }
}

fn split(delimiter: &str, field: usize, output: Option<usize>) -> Config {
    Config {
        delimiter: Some(delimiter.to_string()),
        field: Some(field),
        output,
        ..config()
    }
}

#[test]
fn lines_must_be_one_at_least() {
    assert_eq!(Err(LinesError::TooFew), parse_lines(0, None));
    assert_eq!(Err(LinesError::TooFew), parse_lines(0, Some(24)));
    assert_eq!(Ok(1), parse_lines(1, None));
    assert_eq!(Ok(1), parse_lines(1, Some(24)));
}

#[test]
fn lines_must_be_fewer_than_the_rows_of_the_terminal() {
    assert_eq!(Ok(23), parse_lines(23, Some(24)));
    assert_eq!(Err(LinesError::TooMany { rows: 24 }), parse_lines(24, Some(24)));
    assert_eq!(Err(LinesError::TooMany { rows: 24 }), parse_lines(25, Some(24)));
    assert_eq!(Ok(1000), parse_lines(1000, None));
    assert_eq!(Err(LinesError::TooMany { rows: 1 }), parse_lines(1, Some(1)));
    assert_eq!(Err(LinesError::TooMany { rows: 0 }), parse_lines(1, Some(0)));
}

#[test]
fn lines_errors_have_messages() {
    assert_eq!(
        "The argument 'lines' must be greater than 0",
        LinesError::TooFew.message()
    );
    assert_eq!(
        "The argument 'lines' must be less than 24",
        LinesError::TooMany { rows: 24 }.message()
    );
}

#[test]
fn choice_of_a_whole_line() {
    let choice = Choice::new("app/models/Order.rb", &config()).unwrap();

    assert_eq!("app/models/Order.rb", choice.searchable());
    assert_eq!("app/models/Order.rb", choice.returnable());
    assert_eq!(19, choice.len());
    assert_eq!('o', choice.lower_at(11));
    assert_eq!('/', choice.lower_at(3));
    assert_eq!(900, choice.bonus_at(0));
    assert_eq!(900, choice.bonus_at(11));
    assert_eq!(600, choice.bonus_at(17));
    assert_eq!(0, choice.bonus_at(1));
}

#[test]
fn choice_of_a_line_of_wide_characters() {
    let choice = Choice::new("É/ñandú", &config()).unwrap();

    assert_eq!(7, choice.len());
    assert_eq!('É', choice.lower_at(0));
    assert_eq!('ñ', choice.lower_at(2));
    assert_eq!(0, choice.bonus_at(2));
    assert_eq!(0, choice.bonus_at(3));
}

#[test]
fn choice_of_a_split_line() {
    let choice = Choice::new("12:src/main.rs:fn main", &split(":", 1, None)).unwrap();
    assert_eq!("src/main.rs", choice.searchable());
    assert_eq!("src/main.rs", choice.returnable());

    let choice = Choice::new("12:src/main.rs:fn main", &split(":", 2, Some(0))).unwrap();
    assert_eq!("fn main", choice.searchable());
    assert_eq!("12", choice.returnable());

    let choice = Choice::new("a  b \t c", &split(r"\s+", 2, Some(1))).unwrap();
    assert_eq!("c", choice.searchable());
    assert_eq!("b", choice.returnable());
}

#[test]
fn choice_of_a_line_that_lacks_a_field() {
    assert!(Choice::new("a:b", &split(":", 2, None)).is_none());
    assert!(Choice::new("a:b", &split(":", 1, Some(2))).is_none());
    assert!(Choice::new("a:b", &split(":", 1, Some(1))).is_some());
    assert!(Choice::new("", &split(":", 0, None)).is_some());
}

#[test]
fn choice_without_a_field_to_match() {
    let config = Config {
        delimiter: Some(":".to_string()),
        ..config()
    };
    assert!(Choice::new("a:b", &config).is_none());
}

#[test]
fn choice_with_a_delimiter_that_is_no_regular_expression() {
    assert!(Choice::new("a(b", &split("(", 0, None)).is_none());
}

#[test]
fn choice_from_fields() {
    let fields = vec!["one".to_string(), "two".to_string(), "three".to_string()];

    let choice = Choice::from_fields(&fields, Some(2), None).unwrap();
    assert_eq!("three", choice.searchable());
    assert_eq!("three", choice.returnable());

    let choice = Choice::from_fields(&fields, Some(0), Some(1)).unwrap();
    assert_eq!("one", choice.searchable());
    assert_eq!("two", choice.returnable());

    assert!(Choice::from_fields(&fields, None, Some(1)).is_none());
    assert!(Choice::from_fields(&fields, Some(3), None).is_none());
    assert!(Choice::from_fields(&fields, Some(0), Some(3)).is_none());
    assert!(Choice::from_fields(&Vec::new(), Some(0), None).is_none());
}
