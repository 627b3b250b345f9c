use labkit::board::Board;
use labkit::naval_battle::{checked_mul, split_nums, Boat, Error, MulError, Node};

fn empty_rows() -> String {
    let mut s = String::new();
    for _ in 0..20 {
        s.push_str(&" ".repeat(20));
        s.push('\n');
    }
    s
}

#[test]
fn checked_mul_gives_the_product() {
    assert_eq!(checked_mul(6, 7), Ok(42));
    assert_eq!(checked_mul(0, 0x7fffffff), Ok(0));
    assert_eq!(checked_mul(65535, 65537), Ok(4294967295));
}

#[test]
fn checked_mul_refuses_negative_numbers_and_overflow() {
    assert_eq!(checked_mul(-1, 2), Err(MulError::NegativeNumber));
    assert_eq!(checked_mul(2, -1), Err(MulError::NegativeNumber));
    assert_eq!(checked_mul(0x7fffffff, 0x7fffffff), Err(MulError::Overflow));
    assert_eq!(checked_mul(65536, 65536), Err(MulError::Overflow));
}

#[test]
fn node_is_built_step_by_step() {
    let mut n = Node::new("Node").size(10).count(5);
    assert_eq!(n.to_string(), "{ Node 10 5 }");
    n.grow();
    assert_eq!(n.to_string(), "{ Node 11 5 }");
    assert_eq!(Node::new("").to_string(), "{  0 0 }");
    assert_eq!(Node::new("x").size(4294967295).to_string(), "{ x 4294967295 0 }");
}

#[test]
fn split_nums_reads_numbers_between_commas() {
    assert_eq!(split_nums("6,4,3,2"), Ok(vec![6, 4, 3, 2]));
    assert_eq!(split_nums("255"), Ok(vec![255]));
    assert_eq!(split_nums("+7,007"), Ok(vec![7, 7]));
}

#[test]
fn split_nums_refuses_what_is_no_number() {
    assert_eq!(split_nums(""), Err(()));
    assert_eq!(split_nums("1,,2"), Err(()));
    assert_eq!(split_nums("1,2,"), Err(()));
    assert_eq!(split_nums("256"), Err(()));
    assert_eq!(split_nums("-1"), Err(()));
    assert_eq!(split_nums("1, 2"), Err(()));
    assert_eq!(split_nums("+"), Err(()));
}

#[test]
fn boat_is_read_from_a_letter_and_a_length() {
    assert_eq!(Boat::from_string("V12"), Ok(Boat::V(12)));
    assert_eq!(Boat::from_string("H3"), Ok(Boat::H(3)));
    assert_eq!(Boat::from_string("H0"), Ok(Boat::H(0)));
}

#[test]
fn boat_errors_name_what_is_wrong() {
    assert_eq!(Boat::from_string(""), Err("Boat: no char found".to_string()));
    assert_eq!(
        Boat::from_string("X3"),
        Err("Boat: invalid boat direction".to_string())
    );
    assert_eq!(
        Boat::from_string("H"),
        Err("Boat: can't parse boat length".to_string())
    );
    assert_eq!(
        Boat::from_string("V3x"),
        Err("Boat: can't parse boat length".to_string())
    );
    assert_eq!(
        Boat::from_string("V99999999999999999999999999"),
        Err("Boat: can't parse boat length".to_string())
    );
}

#[test]
fn new_board_is_empty() {
    let b = Board::new(&[6, 4, 3, 2]);
    assert_eq!(b.to_string(), format!("6 4 3 2 \n{}", empty_rows()));
    assert!(!b.cross((1, 1)));
    assert!(!b.cross((20, 20)));
}

#[test]
fn board_bounds_count_from_one() {
    let b = Board::new(&[1, 1, 1, 1]);
    assert!(b.in_bounds((1, 1)));
    assert!(b.in_bounds((20, 20)));
    assert!(!b.in_bounds((0, 1)));
    assert!(!b.in_bounds((1, 0)));
    assert!(!b.in_bounds((21, 1)));
    assert!(!b.in_bounds((1, 21)));
    assert!(!b.in_bounds((usize::MAX, usize::MAX)));
}

#[test]
fn a_boat_is_placed_and_counted() {
    let b = Board::new(&[6, 4, 3, 2]);
    let b = b.add_boat(Boat::H(3), (1, 1)).unwrap();
    let text = b.to_string();
    let lines: Vec<&str> = text.lines().collect();
    assert_eq!(lines[0], "6 4 2 2 ");
    assert_eq!(lines[1], format!("BBB{}", " ".repeat(17)));
    assert_eq!(lines[2], " ".repeat(20));
    assert_eq!(lines.len(), 21);
    let b = b.add_boat(Boat::V(2), (19, 20)).unwrap();
    let text = b.to_string();
    let lines: Vec<&str> = text.lines().collect();
    assert_eq!(lines[0], "6 3 2 2 ");
    assert_eq!(lines[19], format!("{}B", " ".repeat(19)));
    assert_eq!(lines[20], format!("{}B", " ".repeat(19)));
}

#[test]
fn boats_may_not_touch() {
    let b = Board::new(&[6, 4, 3, 2])
        .add_boat(Boat::H(3), (1, 1))
        .unwrap();
    assert!(b.cross((1, 1)));
    assert!(b.cross((2, 4)));
    assert!(b.cross((1, 4)));
    assert!(!b.cross((3, 1)));
    assert!(!b.cross((1, 5)));
    assert!(matches!(
        b.add_boat(Boat::V(2), (2, 2)),
        Err(Error::Overlap)
    ));
}

#[test]
fn cross_looks_at_the_squares_around_even_off_the_board() {
    let b = Board::new(&[6, 4, 3, 2])
        .add_boat(Boat::H(1), (1, 1))
        .unwrap()
        .add_boat(Boat::H(1), (20, 20))
        .unwrap();
    assert!(b.cross((0, 0)));
    assert!(b.cross((21, 21)));
    assert!(!b.cross((22, 22)));
    assert!(!b.cross((usize::MAX, 1)));
}

#[test]
fn a_boat_off_the_board_is_refused() {
    let b = Board::new(&[6, 4, 3, 2]);
    assert!(matches!(
        b.add_boat(Boat::H(4), (1, 18)),
        Err(Error::OutOfBounds)
    ));
    let b = Board::new(&[6, 4, 3, 2]);
    assert!(matches!(
        b.add_boat(Boat::V(1), (0, 5)),
        Err(Error::OutOfBounds)
    ));
    let b = Board::new(&[6, 4, 3, 2]);
    assert!(matches!(
        b.add_boat(Boat::V(2), (usize::MAX, usize::MAX)),
        Err(Error::OutOfBounds)
    ));
}

#[test]
fn the_first_square_in_the_way_decides_the_error() {
    let b = Board::new(&[6, 4, 3, 2])
        .add_boat(Boat::V(1), (1, 19))
        .unwrap();
    // Square (1, 18) touches the boat before square (1, 21) leaves the board.
    assert!(matches!(
        b.add_boat(Boat::H(4), (1, 18)),
        Err(Error::Overlap)
    ));
}

#[test]
fn a_boat_of_a_length_that_is_used_up_is_refused() {
    let b = Board::new(&[0, 4, 3, 2]);
    assert!(matches!(
        b.add_boat(Boat::H(1), (1, 1)),
        Err(Error::BoatCount)
    ));
    let b = Board::new(&[1, 0, 0, 0])
        .add_boat(Boat::H(1), (5, 5))
        .unwrap();
    assert!(matches!(
        b.add_boat(Boat::H(1), (10, 10)),
        Err(Error::BoatCount)
    ));
}

#[test]
fn a_board_is_read_back_from_its_text() {
    let b = Board::new(&[6, 4, 3, 2])
        .add_boat(Boat::H(3), (4, 7))
        .unwrap();
    let text = b.to_string();
    let again = Board::from(text.clone()).unwrap();
    assert_eq!(again.to_string(), text);
    assert!(again.cross((5, 8)));
}

#[test]
fn a_board_text_may_leave_counts_and_squares_out() {
    let b = Board::from("1 2\nB\n".to_string()).unwrap();
    let text = b.to_string();
    let lines: Vec<&str> = text.lines().collect();
    assert_eq!(lines[0], "1 2 0 0 ");
    assert_eq!(lines[1], format!("B{}", "\0".repeat(19)));
    assert_eq!(lines[2], "\0".repeat(20));
    let empty = Board::from(String::new()).unwrap();
    assert!(empty.to_string().starts_with("0 0 0 0 \n"));
}

#[test]
fn a_text_that_is_no_board_is_refused() {
    assert!(Board::from("1 2 3 4 5\n".to_string()).is_none());
    assert!(Board::from("1 x\n".to_string()).is_none());
    assert!(Board::from("256\n".to_string()).is_none());
    assert!(Board::from(format!("1\n{}\n", " ".repeat(21))).is_none());
    assert!(Board::from(format!("1\n{}", "\n".repeat(21))).is_none());
    assert!(Board::from(format!("1\n{}", "\n".repeat(20))).is_some());
}

#[test]
fn board_lines_may_end_in_carriage_return_and_line_feed() {
    let b = Board::from("6 4 3 2\r\nBB\r\n".to_string()).unwrap();
    let text = b.to_string();
    let lines: Vec<&str> = text.lines().collect();
    assert_eq!(lines[0], "6 4 3 2 ");
    assert_eq!(lines[1], format!("BB{}", "\0".repeat(18)));
}
