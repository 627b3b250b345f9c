use labkit::riddle::{check_tuple, evaluate, mk_ops, prepare, solve, verify, well_formed};

#[test]
fn operators_come_in_every_row_of_four() {
    let ops = mk_ops();
    assert_eq!(ops.len(), 256);
    assert_eq!(ops[0], vec!['+', '+', '+', '+']);
    assert_eq!(ops[1], vec!['+', '+', '+', '-']);
    assert_eq!(ops[4], vec!['+', '+', '-', '+']);
    assert_eq!(ops[255], vec!['/', '/', '/', '/']);
}

#[test]
fn digits_are_arranged_and_paired_with_operators() {
    let lines = prepare("12270");
    assert_eq!(lines.len(), 120 * 256);
    assert_eq!(lines[0], (vec![1, 2, 2, 7, 0], vec!['+', '+', '+', '+']));
    assert_eq!(lines[255], (vec![1, 2, 2, 7, 0], vec!['/', '/', '/', '/']));
    assert_eq!(lines[256], (vec![1, 2, 2, 0, 7], vec!['+', '+', '+', '+']));
    assert!(well_formed(&lines));
    assert!(prepare("1234").is_empty());
}

#[test]
fn a_line_is_worked_out_from_the_left() {
    assert_eq!(evaluate(&vec![1, 2, 7, 0, 2], &vec!['+', '*', '+', '/']), Some(10));
    assert_eq!(evaluate(&vec![1, 2, 3], &vec!['-', '/']), Some(0));
    assert_eq!(evaluate(&vec![1, 7, 2], &vec!['-', '/']), Some(-3));
    assert_eq!(evaluate(&vec![5], &vec![]), Some(5));
    assert_eq!(evaluate(&vec![5, 0], &vec!['/']), None);
    assert_eq!(evaluate(&vec![5, 1], &vec!['x']), None);
    assert_eq!(evaluate(&vec![2147483647, 1], &vec!['+']), None);
    assert_eq!(evaluate(&vec![-2147483648, -1], &vec!['/']), None);
}

#[test]
fn lines_that_give_ten_are_written_out() {
    let lines = vec![
        (vec![1, 2, 7, 0, 2], vec!['+', '*', '+', '/']),
        (vec![1, 2, 7, 0, 2], vec!['+', '+', '+', '+']),
        (vec![5, 2, 0], vec!['*', '/']),
        (vec![5, 2], vec!['*', '-', '+']),
    ];
    assert!(well_formed(&lines));
    assert_eq!(verify(&lines), vec!["1+2*7+0/2".to_string(), "5*2-".to_string()]);
}

#[test]
fn a_number_above_nine_is_written_as_the_character_that_many_places_behind_zero() {
    let lines = vec![(vec![10], vec![]), (vec![17, 7], vec!['-']), (vec![207, 197], vec!['-'])];
    assert!(well_formed(&lines));
    assert_eq!(
        verify(&lines),
        vec![":".to_string(), "A-7".to_string(), "\u{ff}-\u{f5}".to_string()]
    );
}

#[test]
fn a_tuple_needs_one_operator_less_than_numbers() {
    assert!(check_tuple((vec![5, 2], vec!['*'])));
    assert!(!check_tuple((vec![5, 2], vec!['*', '+'])));
    assert!(!check_tuple((vec![5, 2], vec!['+'])));
    assert!(!check_tuple((vec![5, 0], vec!['/'])));
    assert!(!check_tuple((vec![5, 2], vec!['?'])));
    assert!(check_tuple((vec![10], vec![])));
}

#[test]
fn lines_with_other_than_digits_and_operators_are_not_well_formed() {
    assert!(!well_formed(&vec![(vec![], vec![])]));
    assert!(!well_formed(&vec![(vec![1, 2], vec![])]));
    assert!(well_formed(&vec![(vec![1, 10], vec!['+'])]));
    assert!(well_formed(&vec![(vec![207, 0], vec!['+'])]));
    assert!(!well_formed(&vec![(vec![1, 208], vec!['+'])]));
    assert!(!well_formed(&vec![(vec![-1, 1], vec!['+'])]));
    assert!(!well_formed(&vec![(vec![1, 2], vec!['^'])]));
    assert!(well_formed(&vec![(vec![1, 2], vec!['+', '^'])]));
    assert!(well_formed(&vec![]));
}

#[test]
fn the_riddle_is_solved() {
    let found = solve("12270").unwrap();
    assert_eq!(found.len(), 448);
    assert_eq!(found[0], "1+2*7/2+0");
    assert_eq!(found[1], "1+2*7/2-0");
    assert_eq!(found[447], "0+7-2*2/1");
    assert!(found.contains(&"7-2*2/1+0".to_string()));
    assert_eq!(solve("12x70"), None);
    assert_eq!(solve(""), Some(vec![]));
}
