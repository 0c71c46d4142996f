use libspa::{Direction, DIRECTION_INPUT, DIRECTION_OUTPUT};

#[test]
fn as_raw() {
    assert_eq!(Direction::Input.as_raw(), DIRECTION_INPUT);
    assert_eq!(Direction::Output.as_raw(), DIRECTION_OUTPUT);
}

#[test]
fn from_raw() {
    assert_eq!(Direction::Input, Direction::from_raw(DIRECTION_INPUT));
    assert_eq!(Direction::Output, Direction::from_raw(DIRECTION_OUTPUT));
}

#[test]
fn reverse() {
    assert_eq!(Direction::Output.reverse(), Direction::Input);
    assert_eq!(Direction::Input.reverse(), Direction::Output);
}
