use parser_combinator::State;

#[test]
fn test_new() {
    let state = State::new(&"I'm just a string", 0);
    assert_eq!(state, State { string: "I'm just a string".to_string(), offset: 0 });
}

#[test]
fn test_peek() {
    let state = State::new(&"I'm just a string", 0);
    assert_eq!(state.peek(8).unwrap(), "I'm just");
}

#[test]
fn test_read() {
    let state = State::new("I'm just a string", 11);
    assert_eq!(state.read(6), State { string: "I'm just a string".to_string(), offset: 17 });
}

#[test]
fn test_is_complete() {
    let state = State::new("I'm just a string", 0);
    assert_eq!(state.is_complete(), false);
    let state = State::new("I'm just a string", 17);
    assert_eq!(state.is_complete(), true);
}
