use labkit::slugify::{conv, slugify, slugify_lowered, MySlug};

#[test]
fn main_test_conversione_lettera_accentata() {
    let carattere_accentato = "é";
    let carattere_convertito = slugify(carattere_accentato);
    assert_eq!(carattere_convertito, "e");
}

#[test]
fn main_test_conversione_lettera_non_accentata() {
    let carattere_non_accentato = "a";
    let carattere_convertito = slugify(carattere_non_accentato);
    assert_eq!(carattere_convertito, "a");
}

#[test]
fn main_test_conversione_carattere_non_amesso() {
    let carattere_non_amesso = "#";
    let carattere_convertito = slugify(carattere_non_amesso);
    assert_eq!(carattere_convertito, "-");
}

#[test]
fn main_test_conversione_carattere_accentato_non_compreso() {
    let carattere_accentato_non_compreso = "ῶ";
    let carattere_convertito = slugify(carattere_accentato_non_compreso);
    assert_eq!(carattere_convertito, "-");
}

#[test]
fn main_test_slugify_stringa_con_spazi() {
    let stringa = "Ciao mondo";
    let stringa_slugify = slugify(stringa);
    assert_eq!(stringa_slugify, "ciao-mondo");
}

#[test]
fn main_test_slugify_stringa_caratteri_accentati() {
    let stringa = "àéè";
    let stringa_slugify = slugify(stringa);
    assert_eq!(stringa_slugify, "aee");
}

#[test]
fn main_test_slugify_stringa_con_caratteri_non_validi() {
    let stringa = "C#a#o";
    let stringa_slugify = slugify(stringa);
    assert_eq!(stringa_slugify, "c-a-o");
}

#[test]
fn main_test_slugify_stringa_con_solo_caratteri_non_validi() {
    let stringa = "###";
    let stringa_slugify = slugify(stringa);
    assert_eq!(stringa_slugify, "-");
}

#[test]
fn main_test_slugify_stringa_con_spazio_alla_fine() {
    let stringa = "Ciao ";
    let stringa_slugify = slugify(stringa);
    assert_eq!(stringa_slugify, "ciao");
}

#[test]
fn main_test_slugify_stringa_con_caratteri_non_validi_consecutivi_alla_fine() {
    let stringa = "Ciao##";
    let stringa_slugify = slugify(stringa);
    assert_eq!(stringa_slugify, "ciao");
}

#[test]
fn strings_and_slices_have_slugs() {
    let s1 = String::from("Hello String");
    let s2 = "hello-slice";
    assert!(!s1.is_slug());
    assert!(s2.is_slug());
    assert_eq!(s1.to_slug(), "hello-string");
    assert_eq!(s2.to_slug(), "hello-slice");
    assert!("".is_slug());
    assert!("-".is_slug());
    assert!(!"a-".is_slug());
}

#[test]
fn conv_gives_the_plain_letter_or_a_hyphen() {
    assert_eq!(conv('\u{e0}'), 'a');
    assert_eq!(conv('\u{17c}'), 'z');
    assert_eq!(conv('\u{df}'), 's');
    assert_eq!(conv('a'), '-');
    assert_eq!(conv(' '), '-');
    assert_eq!(conv('\u{1ff6}'), '-');
}

#[test]
fn a_text_in_lower_case_is_slugified_as_it_is() {
    assert_eq!(slugify_lowered("a  b"), "a-b");
    // Upper case is kept here: only `slugify` lowers it.
    assert_eq!(slugify_lowered("A b-"), "A-b");
    assert_eq!(slugify_lowered(""), "");
    assert_eq!(slugify_lowered("--"), "-");
}
