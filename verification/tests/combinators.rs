use parser_combinator::{evaluate, Addition, Func, Match, MatchState, State};

#[test]
fn test_str() {
    let input = State::new("hello world", 0);
    let hello = |state: State| Addition::str_(r"hello", &state);
    let world = |state: State| Addition::str_(r"world", &state);

    if let Some(MatchState(m, s)) = hello(input) {
        assert_eq!(m, Match::Str("hello".to_string()));
        assert_eq!(s, State::new("hello world", 5));
    } else {
        panic!("no output")
    }

    let input = State::new("hello world", 0);
    if let Some(MatchState(m, s)) = world(input.read(6)) {
        assert_eq!(m, Match::Str("world".to_string()));
        assert_eq!(s, State::new("hello world", 11));
    } else {
        panic!("no output")
    }
}

#[test]
fn test_chr() {
    let input = State::new("12 + 34", 0);
    let digit = |state: State| Addition::chr(r"0-9", &state);

    if let Some(MatchState(m, s)) = digit(input.read(1)) {
        assert_eq!(m, Match::Chr("2".to_string()));
        assert_eq!(s, State::new("12 + 34", 2))
    } else {
        panic!("no output")
    }

    if let Some(MatchState(m, s)) = digit(input.read(5)) {
        assert_eq!(m, Match::Chr("3".to_string()));
        assert_eq!(s, State::new("12 + 34", 6))
    } else {
        panic!("no output")
    }

    assert_eq!(digit(input.read(2)), None);
}

#[test]
fn test_seq() {
    let input = State::new("7+8", 0);
    // Sanity check
    let digit = |state: State| Addition::chr(r"0-9", &state);
    let reg = |state: State| Addition::str_("+", &state);
    assert_eq!(digit(input.read(0)), Some(MatchState(Match::Chr("7".to_string()), State::new("7+8", 1))));
    assert_eq!(reg(input.read(1)), Some(MatchState(Match::Str("+".to_string()), State::new("7+8", 2))));
    assert_eq!(digit(input.read(2)), Some(MatchState(Match::Chr("8".to_string()), State::new("7+8", 3))));

    let parts = vec![Func::Chr("0-9".to_string()), Func::Str(r"+".to_string()), Func::Chr("0-9".to_string())];
    let addition = |state: State| Addition::seq(&parts, &state);

    let results = addition(input);
    if let Some(MatchState(m, s)) = results {
        assert_eq!(
            m,
            Match::Sequence(vec![
                Match::Chr("7".to_string()),
                Match::Str("+".to_string()),
                Match::Chr("8".to_string()),
            ])
        );
        assert_eq!(s, State::new("7+8", 3));
    } else {
        panic!("addition(input) did not generate a result")
    }
}

#[test]
fn test_rep() {
    let input = State::new("2017", 0);
    let digit = Func::Chr("0-9".to_string());
    let number = |state: State| Addition::rep(&digit, 1, &state);
    let results = number(input);
    if let Some(MatchState(m, s)) = results {
        assert_eq!(
            m,
            Match::Rep(vec![
                Match::Chr("2".to_string()),
                Match::Chr("0".to_string()),
                Match::Chr("1".to_string()),
                Match::Chr("7".to_string()),
            ])
        );
        assert_eq!(s, State::new("2017", 4));
        assert!(s.is_complete());
    } else {
        panic!("number(input) did not generate a result")
    }
}

#[test]
fn test_alt() {
    let w = Func::Rep(Box::new(Func::Str(" ".to_string())), 0);
    let number = Func::Alt(vec![
        Func::Str("0".to_string()),
        Func::Sequence(vec![
            Func::Chr("1-9".to_string()),
            Func::Rep(Box::new(Func::Chr("0-9".to_string())), 0),
        ]),
    ]);
    let addition = Func::Sequence(vec![
        number.clone(),
        w.clone(),
        Func::Str("+".to_string()),
        w.clone(),
        number.clone(),
    ]);
    let options = vec![addition, number.clone()];
    let expression = |state: State| Addition::alt(&options, &state);
    let result = expression(State::new("12", 0));
    if let Some(MatchState(m, s)) = result {
        assert_eq!(s, State::new("12", 2));
        assert_eq!(
            m,
            Match::Sequence(vec![
                Match::Chr("1".to_string()),
                Match::Rep(vec![Match::Chr("2".to_string())]),
            ])
        );
    } else {
        panic!("no results from alt");
    }

    let result = expression(State::new("34 + 567", 0));
    if let Some(MatchState(m, s)) = result {
        assert_eq!(s, State::new("34 + 567", 8));
        assert_eq!(
            m,
            Match::Sequence(vec![
                Match::Sequence(vec![
                    Match::Chr("3".to_string()),
                    Match::Rep(vec![Match::Chr("4".to_string())]),
                ]),
                Match::Rep(vec![Match::Str(" ".to_string())]),
                Match::Str("+".to_string()),
                Match::Rep(vec![Match::Str(" ".to_string())]),
                Match::Sequence(vec![
                    Match::Chr("5".to_string()),
                    Match::Rep(vec![Match::Chr("6".to_string()), Match::Chr("7".to_string())]),
                ]),
            ])
        );
    } else {
        panic!("no results from alt");
    }
}

#[test]
fn evaluate_dispatches_on_the_descriptor() {
    let state = State::new("ab", 0);
    let found = evaluate(&Func::Str("a".to_string()), &state);
    assert_eq!(found, Some(MatchState(Match::Str("a".to_string()), State::new("ab", 1))));
}
