use labkit::slugify::slugify;

#[test]
fn test_conversione_lettera_accentata() {
    let carattere_accentato = "é";
    let carattere_convertito = slugify(carattere_accentato);
    assert_eq!(carattere_convertito, "e");
}

#[test]
fn test_conversione_lettera_non_accentata() {
    let carattere_non_accentato = "a";
    let carattere_convertito = slugify(carattere_non_accentato);
    assert_eq!(carattere_convertito, "a");
}

#[test]
fn test_conversione_carattere_non_amesso() {
    let carattere_non_amesso = "#";
    let carattere_convertito = slugify(carattere_non_amesso);
    assert_eq!(carattere_convertito, "-");
}

#[test]
fn test_conversione_carattere_accentato_non_compreso() {
    let carattere_accentato_non_compreso = "ῶ";
    let carattere_convertito = slugify(carattere_accentato_non_compreso);
    assert_eq!(carattere_convertito, "-");
}

#[test]
fn test_slugify_stringa_con_spazi() {
    let stringa = "Ciao mondo";
    let stringa_slugify = slugify(stringa);
    assert_eq!(stringa_slugify, "ciao-mondo");
}

#[test]
fn test_slugify_stringa_caratteri_accentati() {
    let stringa = "àéè";
    let stringa_slugify = slugify(stringa);
    assert_eq!(stringa_slugify, "aee");
}

#[test]
fn test_slugify_stringa_con_caratteri_non_validi() {
    let stringa = "C#a#o";
    let stringa_slugify = slugify(stringa);
    assert_eq!(stringa_slugify, "c-a-o");
}

#[test]
fn test_slugify_stringa_con_solo_caratteri_non_validi() {
    let stringa = "###";
    let stringa_slugify = slugify(stringa);
    assert_eq!(stringa_slugify, "-");
}

#[test]
fn test_slugify_stringa_con_spazio_alla_fine() {
    let stringa = "Ciao ";
    let stringa_slugify = slugify(stringa);
    assert_eq!(stringa_slugify, "ciao");
}

#[test]
fn test_slugify_stringa_con_caratteri_non_validi_consecutivi_alla_fine() {
    let stringa = "Ciao##";
    let stringa_slugify = slugify(stringa);
    assert_eq!(stringa_slugify, "ciao");
}
