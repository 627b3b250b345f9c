use labkit::clock::Clock;
use labkit::robot::{Direction, Robot};

#[test]
fn clock_shows_hours_and_minutes() {
    assert_eq!(Clock::new(8, 0).to_string(), "08:00");
    assert_eq!(Clock::new(11, 9).to_string(), "11:09");
    assert_eq!(Clock::new(0, 0).to_string(), "00:00");
}

#[test]
fn clock_rolls_over() {
    assert_eq!(Clock::new(25, 0).to_string(), "01:00");
    assert_eq!(Clock::new(0, 1723).to_string(), "04:43");
    assert_eq!(Clock::new(201, 3001).to_string(), "11:01");
}

#[test]
fn clock_counts_back_from_midnight() {
    assert_eq!(Clock::new(0, 10).add_minutes(-20).to_string(), "23:50");
    assert_eq!(Clock::new(2, 20).add_minutes(-3000).to_string(), "00:20");
    assert_eq!(Clock::new(-1, 15).to_string(), "23:15");
}

#[test]
fn clock_keeps_a_negative_day_as_a_full_day() {
    assert_eq!(Clock::new(-24, 0).to_string(), "24:00");
    assert_eq!(Clock::new(0, 0).add_minutes(-2880).to_string(), "24:00");
}

#[test]
fn clocks_with_the_same_time_are_equal() {
    assert_eq!(Clock::new(15, 37), Clock::new(14, 97));
    assert_ne!(Clock::new(15, 37), Clock::new(15, 36));
}

#[test]
fn robot_turns_and_advances() {
    let r = Robot::new(0, 0, Direction::North);
    assert_eq!(r.direction(), &Direction::North);
    let r = r.turn_right();
    assert_eq!(r.direction(), &Direction::East);
    let r = r.advance();
    assert_eq!(r.position(), (1, 0));
    let r = r.turn_right().advance();
    assert_eq!(r.position(), (1, -1));
    assert_eq!(r.direction(), &Direction::South);
    let r = r.turn_right().advance().advance();
    assert_eq!(r.position(), (-1, -1));
    let r = r.turn_left().turn_left().turn_left();
    assert_eq!(r.direction(), &Direction::North);
    assert_eq!(r.advance().position(), (-1, 0));
}

#[test]
fn robot_follows_instructions() {
    let r = Robot::new(7, 3, Direction::North).instructions("RAALAL").unwrap();
    assert_eq!(r.position(), (9, 4));
    assert_eq!(r.direction(), &Direction::West);
    let r = Robot::new(0, 0, Direction::North).instructions("").unwrap();
    assert_eq!(r.position(), (0, 0));
}

#[test]
fn robot_refuses_what_is_no_instruction() {
    assert!(Robot::new(0, 0, Direction::North).instructions("AAxA").is_none());
}

#[test]
fn direction_of_a_number_of_quarter_turns() {
    assert_eq!(Direction::from(0), Direction::North);
    assert_eq!(Direction::from(5), Direction::East);
    assert_eq!(Direction::from(6), Direction::South);
    assert_eq!(Direction::from(7), Direction::West);
}
