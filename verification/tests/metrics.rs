use wren::alignment::{align, Op};
use wren::metrics::{cap_mismatches, normalize_words, punctuation_errors, word_errors};

#[test]
fn normalize_preserves_accents_and_removes_punctuation() {
    assert_eq!(
        normalize_words("Coração, ação — e \u{201C}emoção\u{201D}!"),
        vec!["coração", "ação", "e", "emoção"]
    );
}

#[test]
fn internal_hyphen_becomes_separator() {
    assert_eq!(
        normalize_words("O guarda-chuva ficou lá."),
        vec!["o", "guarda", "chuva", "ficou", "lá"]
    );
}

#[test]
fn multiple_spaces_collapse() {
    assert_eq!(normalize_words("um   dois \n três"), vec!["um", "dois", "três"]);
}

#[test]
fn cap_mismatches_basic() {
    let reference = "O Brasil é lindo.";
    let hypothesis = "o brasil é lindo.";
    assert_eq!(cap_mismatches(reference, hypothesis), (2, 4));
}

#[test]
fn cap_mismatches_ignores_substitutions() {
    let reference = "casa azul";
    let hypothesis = "casa verde";
    assert_eq!(cap_mismatches(reference, hypothesis), (0, 1));
}

#[test]
fn word_errors_zero_for_equal_texts_except_punctuation_and_case() {
    assert_eq!(word_errors("Olá, mundo! Tudo bem?", "olá mundo tudo bem"), (0, 4));
}

#[test]
fn word_errors_for_one_substitution_and_one_deletion() {
    assert_eq!(word_errors("o gato subiu no telhado", "o rato subiu telhado"), (2, 5));
}

#[test]
fn word_errors_with_empty_reference() {
    assert_eq!(word_errors("", "alguma coisa"), (1, 1));
    assert_eq!(word_errors("", ""), (0, 1));
}

#[test]
fn word_errors_count_insertions() {
    assert_eq!(word_errors("um dois", "um dois três quatro"), (2, 2));
}

#[test]
fn punctuation_errors_zero_for_identical_punctuation() {
    assert_eq!(punctuation_errors("Olá, mundo. Tudo certo!", "olá, mundo. tudo certo!"), Some((0, 3)));
}

#[test]
fn punctuation_errors_for_missing_comma() {
    assert_eq!(punctuation_errors("Sim, claro.", "sim claro."), Some((1, 2)));
}

#[test]
fn punctuation_errors_for_period_swapped_for_comma() {
    assert_eq!(punctuation_errors("Vou lá. Depois volto.", "vou lá, depois volto."), Some((1, 2)));
}

#[test]
fn punctuation_errors_none_when_reference_has_no_mark() {
    assert_eq!(punctuation_errors("um dois três", "um dois três."), None);
}

#[test]
fn punctuation_errors_count_mark_of_deleted_word() {
    assert_eq!(punctuation_errors("Oi, tudo?", "tudo?"), Some((1, 2)));
}

#[test]
fn alignment_of_a_substitution_and_a_deletion() {
    let r: Vec<String> = ["o", "gato", "subiu", "no", "telhado"].iter().map(|s| s.to_string()).collect();
    let h: Vec<String> = ["o", "rato", "subiu", "telhado"].iter().map(|s| s.to_string()).collect();
    let (dist, ops) = align(&r, &h);
    assert_eq!(dist, 2);
    assert_eq!(
        ops,
        vec![Op::Equal(0, 0), Op::Substitution(1, 1), Op::Equal(2, 2), Op::Deletion(3), Op::Equal(4, 3)]
    );
}

#[test]
fn edit_distance_is_symmetric_on_an_example() {
    let a: Vec<String> = ["a", "b", "c"].iter().map(|s| s.to_string()).collect();
    let b: Vec<String> = ["b", "c", "d", "e"].iter().map(|s| s.to_string()).collect();
    assert_eq!(align(&a, &b).0, align(&b, &a).0);
    assert_eq!(align(&a, &b).0, 3);
}
