use fozzie::choice::Choice;
use fozzie::choices::Choices;
use fozzie::color;
use fozzie::cursor;

fn make_choice(choice: &str) -> Choice {
    Choice::of(choice, choice)
}

fn make_choices(texts: &[&str]) -> Vec<Choice> {
    texts.iter().map(|text| make_choice(text)).collect()
}

fn chars(text: &str) -> Vec<char> {
    text.chars().collect()
}

fn texts<'a>(choices: &'a Choices) -> Vec<&'a str> {
    choices
        .matches()
        .iter()
        .map(|matcher| matcher.choice().searchable())
        .collect()
}

#[test]
fn test_new() {
    let input: Vec<Choice> = vec![
        make_choice("foo"),
        make_choice("bar"),
        make_choice("baz"),
        make_choice("boo"),
    ];
    let choices = Choices::new(4, &input, false);

    assert_eq!(4, choices.max_rows());
    assert_eq!(0, choices.selected());
    assert_eq!(
        vec!["foo", "bar", "baz", "boo"],
        choices
            .choices()
            .iter()
            .map(|choice| choice.searchable())
            .collect::<Vec<&str>>(),
    );
}

#[test]
fn test_new_max_choices() {
    let input: Vec<Choice> = vec![
        make_choice("foo"),
        make_choice("bar"),
        make_choice("baz"),
        make_choice("boo"),
    ];
    let choices = Choices::new(2, &input, false);

    assert_eq!(2, choices.max_rows());
}

#[test]
fn test_filter() {
    let input: Vec<Choice> = vec![make_choice("foo"), make_choice("bar")];
    let mut choices = Choices::new(4, &input, false);

    assert_eq!(
        format!(
            "{}\r\n{}\r{}\n\rbar{}",
            cursor::save_position(),
            cursor::clear_screen_down(),
            color::inverse("foo"),
            cursor::restore_position()
        ),
        choices.filter(&[])
    );
    assert_eq!(vec!["foo", "bar"], texts(&choices));
}

#[test]
fn test_previous_when_wrapping() {
    let input: Vec<Choice> = vec![make_choice("foo"), make_choice("bar")];
    let mut choices = Choices::new(4, &input, false);
    choices.filter(&[]);

    assert_eq!(
        format!(
            "{}\r\n{}\rfoo\n\r{}{}",
            cursor::save_position(),
            cursor::clear_screen_down(),
            color::inverse("bar"),
            cursor::restore_position(),
        ),
        choices.previous()
    );
    assert_eq!(1, choices.selected());
}

#[test]
fn test_previous() {
    let input: Vec<Choice> = vec![make_choice("foo"), make_choice("bar")];
    let mut choices = Choices::new(4, &input, false);
    choices.filter(&[]);
    choices.next();
    assert_eq!(1, choices.selected());

    assert_eq!(
        format!(
            "{}\r\n{}\r{}\n\rbar{}",
            cursor::save_position(),
            cursor::clear_screen_down(),
            color::inverse("foo"),
            cursor::restore_position(),
        ),
        choices.previous()
    );
    assert_eq!(0, choices.selected());
}

#[test]
fn test_next_when_wrapping() {
    let input: Vec<Choice> = vec![make_choice("foo"), make_choice("bar")];
    let mut choices = Choices::new(4, &input, false);
    choices.filter(&[]);
    choices.next();
    assert_eq!(1, choices.selected());

    assert_eq!(
        format!(
            "{}\r\n{}\r{}\n\rbar{}",
            cursor::save_position(),
            cursor::clear_screen_down(),
            color::inverse("foo"),
            cursor::restore_position(),
        ),
        choices.next()
    );
    assert_eq!(0, choices.selected());
}

#[test]
fn test_next() {
    let input: Vec<Choice> = vec![make_choice("foo"), make_choice("bar")];
    let mut choices = Choices::new(4, &input, false);
    choices.filter(&[]);

    assert_eq!(
        format!(
            "{}\r\n{}\rfoo\n\r{}{}",
            cursor::save_position(),
            cursor::clear_screen_down(),
            color::inverse("bar"),
            cursor::restore_position(),
        ),
        choices.next()
    );
    assert_eq!(1, choices.selected());
}

#[test]
fn test_cancel() {
    let input: Vec<Choice> = vec![make_choice("foo"), make_choice("bar")];
    let choices = Choices::new(4, &input, false);

    assert_eq!(
        format!("\r{}", cursor::clear_screen_down()),
        choices.cancel()
    );
}

#[test]
fn test_current_match() {
    let input: Vec<Choice> = vec![make_choice("foo"), make_choice("bar")];
    let mut choices = Choices::new(4, &input, false);
    choices.filter(&[]);

    assert_eq!("foo", choices.current_match().searchable());
}

#[test]
fn test_initial_draw() {
    let input = make_choices(&["foo", "bar", "baz"]);
    let mut choices = Choices::new(2, &input, false);

    assert_eq!(
        format!("\r\n{}\n\rbar{}\r", color::inverse("foo"), cursor::up(2)),
        choices.initial_draw()
    );
    assert_eq!(vec!["foo", "bar", "baz"], texts(&choices));
    assert_eq!(0, choices.selected());
}

#[test]
fn test_initial_draw_of_few_candidates() {
    let input = make_choices(&["foo"]);
    let mut choices = Choices::new(10, &input, false);

    assert_eq!(
        format!("\r\n{}{}\r", color::inverse("foo"), cursor::up(1)),
        choices.initial_draw()
    );
}

#[test]
fn test_select() {
    let input = vec![Choice::of("foo", "first"), Choice::of("bar", "second")];
    let mut choices = Choices::new(4, &input, false);
    choices.filter(&[]);
    choices.next();

    let (print, line) = choices.select();
    assert_eq!(format!("\r{}", cursor::clear_screen_down()), print);
    assert_eq!("second\n", line);
}

#[test]
fn filter_keeps_the_matches_only() {
    let input = make_choices(&["foo", "bar", "baz", "boo"]);
    let mut choices = Choices::new(4, &input, false);

    choices.filter(&chars("ba"));
    assert_eq!(vec!["bar", "baz"], texts(&choices));
    assert_eq!(2, choices.len());

    choices.filter(&chars("zzz"));
    assert!(texts(&choices).is_empty());
    assert_eq!(0, choices.selected());
}

#[test]
fn filter_ranks_by_score_and_keeps_the_order_of_ties() {
    let input = make_choices(&[
        "src/bonus.rs",
        "Cargo.toml",
        "xcode",
        "CODE_OF_CONDUCT.md",
        "code",
        "a/code",
        "b/code",
        "decoder",
        "encoder",
    ]);
    let mut choices = Choices::new(10, &input, false);
    choices.filter(&chars("code"));

    assert_eq!(
        vec!["code", "a/code", "b/code", "CODE_OF_CONDUCT.md", "xcode", "decoder", "encoder"],
        texts(&choices)
    );
    let matches = choices.matches();
    for k in 1..matches.len() {
        assert!(matches[k].value().le(matches[k - 1].value()));
    }
    assert_eq!(matches[1].value(), matches[2].value());
    assert_eq!(matches[5].value(), matches[6].value());
}

#[test]
fn filter_resets_the_selection() {
    let input = make_choices(&["foo", "bar", "baz"]);
    let mut choices = Choices::new(4, &input, false);
    choices.filter(&[]);
    choices.next();
    choices.next();
    assert_eq!(2, choices.selected());

    choices.filter(&chars("b"));
    assert_eq!(0, choices.selected());
    assert_eq!("bar", choices.current_match().searchable());
}

#[test]
fn selection_stays_within_the_matches() {
    let input = make_choices(&["foo", "bar", "baz"]);
    let mut choices = Choices::new(2, &input, false);
    let queries = ["", "b", "ba", "zzz", "a", ""];
    for query in queries {
        choices.filter(&chars(query));
        for turn in 0..7 {
            if turn % 3 == 0 {
                choices.previous();
            } else {
                choices.next();
            }
            if choices.len() > 0 {
                assert!(choices.selected() < choices.len());
            } else {
                assert_eq!(0, choices.selected());
            }
        }
    }
}

#[test]
fn selection_without_matches_stays_at_zero() {
    let input = make_choices(&["foo"]);
    let mut choices = Choices::new(1, &input, false);
    choices.filter(&chars("x"));

    let frame = format!(
        "{}\r\n{}\r{}",
        cursor::save_position(),
        cursor::clear_screen_down(),
        cursor::restore_position()
    );
    assert_eq!(frame, choices.next());
    assert_eq!(0, choices.selected());
    assert_eq!(frame, choices.previous());
    assert_eq!(0, choices.selected());
}

#[test]
fn window_follows_the_selection() {
    let input = make_choices(&["a1", "a2", "a3", "a4", "a5"]);
    let mut choices = Choices::new(3, &input, false);
    choices.filter(&[]);

    let frame = |rows: String| {
        format!(
            "{}\r\n{}\r{}{}",
            cursor::save_position(),
            cursor::clear_screen_down(),
            rows,
            cursor::restore_position()
        )
    };
    assert_eq!(
        frame(format!("a1\n\r{}\n\ra3", color::inverse("a2"))),
        choices.next()
    );
    assert_eq!(
        frame(format!("a2\n\r{}\n\ra4", color::inverse("a3"))),
        choices.next()
    );
    assert_eq!(
        frame(format!("a3\n\r{}\n\ra5", color::inverse("a4"))),
        choices.next()
    );
    assert_eq!(
        frame(format!("a3\n\ra4\n\r{}", color::inverse("a5"))),
        choices.next()
    );
    assert_eq!(
        frame(format!("{}\n\ra2\n\ra3", color::inverse("a1"))),
        choices.next()
    );
    assert_eq!(
        frame(format!("a3\n\ra4\n\r{}", color::inverse("a5"))),
        choices.previous()
    );
}

#[test]
fn filter_draws_scores_where_asked() {
    let input = make_choices(&["foo", "bar"]);
    let mut choices = Choices::new(4, &input, true);

    assert_eq!(
        format!(
            "{}\r\n{}\r{}{}",
            cursor::save_position(),
            cursor::clear_screen_down(),
            color::inverse(&format!("( 0.89) {}oo", color::highlight('f'))),
            cursor::restore_position()
        ),
        choices.filter(&chars("f"))
    );
}
