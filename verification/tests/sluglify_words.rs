use labkit::sluglify::{conv, slugify, slugify_marked};

#[test]
fn test_one_word() {
    assert_eq!(slugify("CiaoRust"), "ciaorust")
}

#[test]
fn test_accented_char() {
    assert_eq!(slugify("àòèù"), "aoeu")
}

#[test]
fn test_empty() {
    assert_eq!(slugify(""), "")
}

#[test]
fn test_whitespaces_and_not_valid_char() {
    assert_eq!(slugify("ciao /() come [ stai??"), "ciao-come-stai")
}

#[test]
fn test_only_not_valid_char() {
    assert_eq!(slugify("  & () %"), "")
}

#[test]
fn test_only_one_not_valid_char() {
    assert_eq!(slugify("?"), "-")
}

#[test]
fn one_accented_char_of_two_bytes_loses_no_hyphen() {
    assert_eq!(slugify("é"), "e");
}

#[test]
fn one_symbol_of_two_bytes_gives_nothing() {
    assert_eq!(slugify("§"), "");
}

#[test]
fn digits_of_other_scripts_are_kept() {
    assert_eq!(slugify("a\u{0663}b"), "a\u{0663}b");
}

#[test]
fn upper_case_is_lowered_before_all_else() {
    assert_eq!(slugify("ÀB c"), "ab-c");
}

#[test]
fn conv_leaves_other_characters_alone() {
    assert_eq!(conv('\u{e8}'), 'e');
    assert_eq!(conv('x'), 'x');
    assert_eq!(conv('?'), '?');
}

#[test]
fn marked_characters_are_kept_and_the_others_made_hyphens() {
    let chars = vec!['a', '!', '?', 'b', '.'];
    let keep = vec![true, false, false, true, false];
    assert_eq!(slugify_marked(5, &chars, &keep), "a-b");
    assert_eq!(slugify_marked(0, &chars, &keep), "");
    assert_eq!(slugify_marked(1, &vec!['?'], &vec![false]), "-");
    assert_eq!(slugify_marked(2, &vec!['?'], &vec![false]), "");
    assert_eq!(slugify_marked(3, &vec!['?'], &vec![true]), "?");
}
