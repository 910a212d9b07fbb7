//! Character- and word-level metric tests: Levenshtein distance, CER,
//! WER, and full comparison records.

use text_recognition::metrics::{calculate_cer, calculate_wer, compare_ocr_result};
use text_recognition::distance::{levenshtein_distance, word_levenshtein_distance};
use text_recognition::metrics::{OcrMetrics, Rate, TextError};

fn rate_f64(r: Rate) -> f64 {
    r.num as f64 / r.den as f64
}

#[test]
fn test_levenshtein_identical_strings() {
    assert_eq!(levenshtein_distance("hello", "hello"), 0);
    assert_eq!(levenshtein_distance("", ""), 0);
    assert_eq!(levenshtein_distance("a", "a"), 0);
}

#[test]
fn test_levenshtein_empty_strings() {
    assert_eq!(levenshtein_distance("", "hello"), 5);
    assert_eq!(levenshtein_distance("hello", ""), 5);
    assert_eq!(levenshtein_distance("", ""), 0);
}

#[test]
fn test_levenshtein_single_substitution() {
    assert_eq!(levenshtein_distance("chat", "chot"), 1);
    assert_eq!(levenshtein_distance("hello", "hallo"), 1);
}

#[test]
fn test_levenshtein_single_insertion() {
    assert_eq!(levenshtein_distance("chat", "chaat"), 1);
    assert_eq!(levenshtein_distance("helo", "hello"), 1);
}

#[test]
fn test_levenshtein_single_deletion() {
    assert_eq!(levenshtein_distance("chat", "cht"), 1);
    assert_eq!(levenshtein_distance("hello", "hllo"), 1);
}

#[test]
fn test_levenshtein_multiple_operations() {
    assert_eq!(levenshtein_distance("kitten", "sitting"), 3);
    assert_eq!(levenshtein_distance("saturday", "sunday"), 3);
}

#[test]
fn test_levenshtein_completely_different() {
    assert_eq!(levenshtein_distance("abc", "xyz"), 3);
}

#[test]
fn test_levenshtein_unicode() {
    assert_eq!(levenshtein_distance("café", "café"), 0);
    assert_eq!(levenshtein_distance("café", "cafe"), 1);
    assert_eq!(levenshtein_distance("🐱", "🐶"), 1);
}

#[test]
fn test_levenshtein_case_sensitive() {
    assert_eq!(levenshtein_distance("Hello", "hello"), 1);
    assert_eq!(levenshtein_distance("HELLO", "hello"), 5);
}

#[test]
fn test_word_levenshtein_distance() {
    let source = vec!["hello".to_string(), "world".to_string()];
    let target = vec!["hello".to_string(), "world".to_string()];
    assert_eq!(word_levenshtein_distance(&source, &target), 0);

    let source = vec!["hello".to_string(), "big".to_string(), "world".to_string()];
    let target = vec!["hello".to_string(), "world".to_string()];
    assert_eq!(word_levenshtein_distance(&source, &target), 1);

    let source = vec!["hello".to_string()];
    let target = vec!["hello".to_string(), "world".to_string()];
    assert_eq!(word_levenshtein_distance(&source, &target), 1);
}

#[test]
fn test_calculate_cer_identical_texts() {
    assert_eq!(rate_f64(calculate_cer("hello world", "hello world")), 0.0);
    assert_eq!(rate_f64(calculate_cer("", "")), 0.0);
    assert_eq!(rate_f64(calculate_cer("test", "test")), 0.0);
}

#[test]
fn test_calculate_cer_empty_reference() {
    assert_eq!(rate_f64(calculate_cer("", "")), 0.0);
    assert_eq!(rate_f64(calculate_cer("something", "")), 1.0);
}

#[test]
fn test_calculate_cer_empty_ocr() {
    assert_eq!(rate_f64(calculate_cer("", "hello")), 1.0);
}

#[test]
fn test_calculate_cer_single_error() {
    let cer = rate_f64(calculate_cer("hallo world", "hello world"));
    assert!((cer - 1.0 / 11.0).abs() < 0.001);
}

#[test]
fn test_calculate_cer_multiple_errors() {
    let cer = rate_f64(calculate_cer("kitten", "sitting"));
    assert!((cer - 3.0 / 7.0).abs() < 0.001);
}

#[test]
fn test_calculate_cer_completely_wrong() {
    assert_eq!(rate_f64(calculate_cer("abc", "xyz")), 1.0);
}

#[test]
fn test_calculate_cer_more_than_100_percent() {
    assert_eq!(rate_f64(calculate_cer("aaaaaaaaaa", "a")), 9.0);
}

#[test]
fn test_calculate_cer_unicode() {
    assert_eq!(rate_f64(calculate_cer("café", "café")), 0.0);
    assert_eq!(rate_f64(calculate_cer("cafe", "café")), 0.25);
}

#[test]
fn test_calculate_cer_case_sensitive() {
    assert_eq!(rate_f64(calculate_cer("Hello", "hello")), 0.2);
}

#[test]
fn test_calculate_cer_whitespace() {
    let cer = rate_f64(calculate_cer("helloworld", "hello world"));
    assert!((cer - 1.0 / 11.0).abs() < 0.001);
}

#[test]
fn test_calculate_wer_identical_texts() {
    assert_eq!(rate_f64(calculate_wer("hello world", "hello world")), 0.0);
    assert_eq!(rate_f64(calculate_wer("", "")), 0.0);
    assert_eq!(rate_f64(calculate_wer("one two three", "one two three")), 0.0);
}

#[test]
fn test_calculate_wer_empty_reference() {
    assert_eq!(rate_f64(calculate_wer("", "")), 0.0);
    assert_eq!(rate_f64(calculate_wer("hello world", "")), 1.0);
}

#[test]
fn test_calculate_wer_empty_ocr() {
    assert_eq!(rate_f64(calculate_wer("", "hello world")), 1.0);
}

#[test]
fn test_calculate_wer_single_word_substitution() {
    assert_eq!(rate_f64(calculate_wer("hello universe", "hello world")), 0.5);
}

#[test]
fn test_calculate_wer_word_deletion() {
    assert_eq!(rate_f64(calculate_wer("hello", "hello world")), 0.5);
}

#[test]
fn test_calculate_wer_word_insertion() {
    assert_eq!(rate_f64(calculate_wer("hello big world", "hello world")), 0.5);
}

#[test]
fn test_calculate_wer_multiple_errors() {
    assert_eq!(rate_f64(calculate_wer("hello big universe", "hello world")), 1.0);
}

#[test]
fn test_calculate_wer_completely_wrong() {
    assert_eq!(rate_f64(calculate_wer("one two three", "four five six")), 1.0);
}

#[test]
fn test_calculate_wer_character_difference_in_word() {
    assert_eq!(rate_f64(calculate_wer("helo world", "hello world")), 0.5);
}

#[test]
fn test_calculate_wer_extra_whitespace() {
    assert_eq!(rate_f64(calculate_wer("hello    world", "hello world")), 0.0);
}

#[test]
fn test_calculate_wer_case_sensitive() {
    assert_eq!(rate_f64(calculate_wer("Hello world", "hello world")), 0.5);
}

#[test]
fn test_calculate_wer_more_than_100_percent() {
    assert_eq!(rate_f64(calculate_wer("one two three four five", "one")), 4.0);
}

#[test]
fn test_compare_ocr_result_identical_texts() {
    let metrics = compare_ocr_result("hello world", "hello world");
    assert_eq!(rate_f64(metrics.cer), 0.0);
    assert_eq!(rate_f64(metrics.wer), 0.0);
    assert_eq!(metrics.levenshtein_distance, 0);
    assert_eq!(metrics.reference_char_count, 11);
    assert_eq!(metrics.ocr_char_count, 11);
    assert_eq!(metrics.reference_word_count, 2);
    assert_eq!(metrics.ocr_word_count, 2);
    assert!(metrics.exact_match);
    assert_eq!(rate_f64(metrics.accuracy()), 1.0);
}

#[test]
fn test_compare_ocr_result_empty_texts() {
    let metrics = compare_ocr_result("", "");
    assert_eq!(rate_f64(metrics.cer), 0.0);
    assert_eq!(rate_f64(metrics.wer), 0.0);
    assert_eq!(metrics.levenshtein_distance, 0);
    assert_eq!(metrics.reference_char_count, 0);
    assert_eq!(metrics.ocr_char_count, 0);
    assert_eq!(metrics.reference_word_count, 0);
    assert_eq!(metrics.ocr_word_count, 0);
    assert!(metrics.exact_match);
}

#[test]
fn test_compare_ocr_result_single_character_error() {
    let metrics = compare_ocr_result("helo world", "hello world");
    assert!((rate_f64(metrics.cer) - 1.0 / 11.0).abs() < 0.001);
    assert_eq!(rate_f64(metrics.wer), 0.5);
    assert_eq!(metrics.levenshtein_distance, 1);
    assert_eq!(metrics.reference_char_count, 11);
    assert_eq!(metrics.ocr_char_count, 10);
    assert_eq!(metrics.reference_word_count, 2);
    assert_eq!(metrics.ocr_word_count, 2);
    assert!(!metrics.exact_match);
}

#[test]
fn test_compare_ocr_result_missing_word() {
    let metrics = compare_ocr_result("hello", "hello world");
    assert!((rate_f64(metrics.cer) - 6.0 / 11.0).abs() < 0.001);
    assert_eq!(rate_f64(metrics.wer), 0.5);
    assert_eq!(metrics.levenshtein_distance, 6);
    assert_eq!(metrics.reference_char_count, 11);
    assert_eq!(metrics.ocr_char_count, 5);
    assert_eq!(metrics.reference_word_count, 2);
    assert_eq!(metrics.ocr_word_count, 1);
    assert!(!metrics.exact_match);
}

#[test]
fn test_compare_ocr_result_empty_reference() {
    let metrics = compare_ocr_result("hello world", "");
    assert_eq!(rate_f64(metrics.cer), 1.0);
    assert_eq!(rate_f64(metrics.wer), 1.0);
    assert_eq!(metrics.levenshtein_distance, 11);
    assert_eq!(metrics.reference_char_count, 0);
    assert_eq!(metrics.ocr_char_count, 11);
    assert_eq!(metrics.reference_word_count, 0);
    assert_eq!(metrics.ocr_word_count, 2);
    assert!(!metrics.exact_match);
}

#[test]
fn test_compare_ocr_result_accuracy() {
    let metrics = compare_ocr_result("hello world", "hello world");
    assert_eq!(rate_f64(metrics.accuracy()), 1.0);

    let metrics = compare_ocr_result("helo world", "hello world");
    assert!((rate_f64(metrics.accuracy()) - 10.0 / 11.0).abs() < 0.001);
}

#[test]
fn test_french_text_with_accents() {
    let reference = "Le café est très délicieux et coûte cher.";
    let ocr = "Le cafe est tres delicieux et coute cher.";
    let metrics = compare_ocr_result(ocr, reference);
    assert_eq!(metrics.levenshtein_distance, 4);
    assert!((rate_f64(metrics.cer) - 4.0 / 41.0).abs() < 0.001);
    assert_eq!(metrics.reference_char_count, 41);
    assert_eq!(metrics.ocr_char_count, 41);
    assert!(!metrics.exact_match);
}

#[test]
fn test_french_text_ligature_oe() {
    let reference = "Un bœuf et un œuf dans le cœur.";
    let ocr = "Un boeuf et un oeuf dans le coeur.";
    let metrics = compare_ocr_result(ocr, reference);
    assert_eq!(metrics.levenshtein_distance, 6);
    assert_eq!(metrics.reference_char_count, 31);
    assert_eq!(metrics.ocr_char_count, 34);
}

#[test]
fn test_french_multiline() {
    let reference = "Première ligne avec des accents.\nDeuxième ligne très longue.\nTroisième ligne.";
    let ocr = "Premiere ligne avec des accents.\nDeuxieme ligne tres longue.\nTroisieme ligne.";
    let metrics = compare_ocr_result(ocr, reference);
    assert_eq!(metrics.levenshtein_distance, 4);
    assert_eq!(metrics.reference_word_count, 11);
    assert_eq!(metrics.reference_char_count, 77);
}

#[test]
fn test_metrics_zero_record() {
    let z = OcrMetrics::zero();
    assert_eq!(z.cer.num, 0);
    assert_eq!(z.levenshtein_distance, 0);
    assert!(z.exact_match);
    assert_eq!(rate_f64(z.accuracy()), 1.0);
}

#[test]
fn test_text_error_position_and_description() {
    let error = TextError::Substitution { position: 5, expected: 'a', found: 'o' };
    assert_eq!(error.position(), 5);
    assert_eq!(error.description(), "Substitution: 'a' → 'o' at position 5");

    let error = TextError::Deletion { position: 2, expected: 'x' };
    assert_eq!(error.position(), 2);
    assert_eq!(error.description(), "Deletion: 'x' missing at position 2");

    let error = TextError::Insertion { position: 7, found: 'q' };
    assert_eq!(error.position(), 7);
    assert_eq!(error.description(), "Insertion: 'q' added at position 7");

    let error = TextError::WordError {
        word_position: 3,
        expected: "chat".to_string(),
        found: "chot".to_string(),
    };
    assert_eq!(error.position(), 3);
    assert_eq!(error.description(), "Word error: 'chat' → 'chot' at word position 3");
}

#[test]
fn test_compare_ocr_result_multiple_word_errors() {
    let metrics = compare_ocr_result("helo wrld", "hello world");
    assert!((rate_f64(metrics.cer) - 2.0 / 11.0).abs() < 0.001);
    assert_eq!(rate_f64(metrics.wer), 1.0);
    assert_eq!(metrics.levenshtein_distance, 2);
    assert_eq!(metrics.reference_char_count, 11);
    assert_eq!(metrics.ocr_char_count, 9);
    assert_eq!(metrics.reference_word_count, 2);
    assert_eq!(metrics.ocr_word_count, 2);
    assert!(!metrics.exact_match);
}

#[test]
fn test_compare_ocr_result_extra_word() {
    let metrics = compare_ocr_result("hello big world", "hello world");
    assert!((rate_f64(metrics.cer) - 4.0 / 11.0).abs() < 0.001);
    assert_eq!(rate_f64(metrics.wer), 0.5);
    assert_eq!(metrics.levenshtein_distance, 4);
    assert_eq!(metrics.reference_char_count, 11);
    assert_eq!(metrics.ocr_char_count, 15);
    assert_eq!(metrics.reference_word_count, 2);
    assert_eq!(metrics.ocr_word_count, 3);
    assert!(!metrics.exact_match);
}

#[test]
fn test_compare_ocr_result_completely_different() {
    let metrics = compare_ocr_result("abc def", "xyz uvw");
    assert!((rate_f64(metrics.cer) - 6.0 / 7.0).abs() < 0.001);
    assert_eq!(rate_f64(metrics.wer), 1.0);
    assert_eq!(metrics.levenshtein_distance, 6);
    assert_eq!(metrics.reference_char_count, 7);
    assert_eq!(metrics.ocr_char_count, 7);
    assert_eq!(metrics.reference_word_count, 2);
    assert_eq!(metrics.ocr_word_count, 2);
    assert!(!metrics.exact_match);
}

#[test]
fn test_compare_ocr_result_empty_ocr() {
    let metrics = compare_ocr_result("", "hello world");
    assert_eq!(rate_f64(metrics.cer), 1.0);
    assert_eq!(rate_f64(metrics.wer), 1.0);
    assert_eq!(metrics.levenshtein_distance, 11);
    assert_eq!(metrics.reference_char_count, 11);
    assert_eq!(metrics.ocr_char_count, 0);
    assert_eq!(metrics.reference_word_count, 2);
    assert_eq!(metrics.ocr_word_count, 0);
    assert!(!metrics.exact_match);
}

#[test]
fn test_compare_ocr_result_unicode() {
    let metrics = compare_ocr_result("café", "café");
    assert_eq!(rate_f64(metrics.cer), 0.0);
    assert_eq!(rate_f64(metrics.wer), 0.0);
    assert_eq!(metrics.levenshtein_distance, 0);
    assert_eq!(metrics.reference_char_count, 4);
    assert_eq!(metrics.ocr_char_count, 4);
    assert!(metrics.exact_match);

    let metrics = compare_ocr_result("cafe", "café");
    assert_eq!(rate_f64(metrics.cer), 0.25);
    assert_eq!(rate_f64(metrics.wer), 1.0);
    assert_eq!(metrics.levenshtein_distance, 1);
    assert!(!metrics.exact_match);
}

#[test]
fn test_compare_ocr_result_multiline_text() {
    let reference = "First line\nSecond line\nThird line";
    let ocr = "First line\nSecond line\nThird line";
    let metrics = compare_ocr_result(ocr, reference);
    assert_eq!(rate_f64(metrics.cer), 0.0);
    assert_eq!(rate_f64(metrics.wer), 0.0);
    assert!(metrics.exact_match);
    assert_eq!(metrics.reference_word_count, 6);
}

#[test]
fn test_french_text_perfect_match() {
    let reference = "Bonjour, comment allez-vous aujourd'hui ?";
    let ocr = "Bonjour, comment allez-vous aujourd'hui ?";
    let metrics = compare_ocr_result(ocr, reference);
    assert_eq!(rate_f64(metrics.cer), 0.0);
    assert_eq!(rate_f64(metrics.wer), 0.0);
    assert!(metrics.exact_match);
    assert_eq!(metrics.reference_char_count, 41);
    assert_eq!(metrics.reference_word_count, 5);
}

#[test]
fn test_french_text_accent_errors_cer() {
    assert_eq!(rate_f64(calculate_cer("ecole", "école")), 0.2);
}

#[test]
fn test_french_text_cedilla() {
    let reference = "Le garçon reçoit un reçu.";
    let ocr = "Le garcon recoit un recu.";
    let metrics = compare_ocr_result(ocr, reference);
    assert_eq!(metrics.levenshtein_distance, 3);
    assert_eq!(metrics.reference_char_count, 25);
    assert_eq!(metrics.ocr_char_count, 25);
}

#[test]
fn test_french_text_apostrophe() {
    let reference = "L'école d'été qu'il a visitée.";
    let ocr = "L'ecole d'ete qu'il a visitee.";
    let metrics = compare_ocr_result(ocr, reference);
    assert_eq!(metrics.levenshtein_distance, 4);
    assert_eq!(metrics.reference_word_count, 5);
    assert_eq!(metrics.reference_char_count, 30);
}

#[test]
fn test_french_text_complex_sentence() {
    let reference = "L'été dernier, j'ai visité la côte méditerranéenne.";
    let ocr = "L'ete dernier, j'ai visite la cote mediterraneenne.";
    let metrics = compare_ocr_result(ocr, reference);
    assert_eq!(metrics.levenshtein_distance, 6);
    assert!((rate_f64(metrics.cer) - 6.0 / 51.0).abs() < 0.001);
    assert_eq!(metrics.reference_char_count, 51);
}

#[test]
fn test_french_proper_nouns() {
    let reference = "François habite à Paris près de l'Élysée.";
    let ocr = "Francois habite a Paris pres de l'Elysee.";
    let metrics = compare_ocr_result(ocr, reference);
    assert_eq!(metrics.levenshtein_distance, 5);
    assert!((rate_f64(metrics.cer) - 5.0 / 41.0).abs() < 0.001);
    assert_eq!(metrics.reference_char_count, 41);
}

#[test]
fn test_perfect_match_metrics() {
    let text = "Ceci est un texte de test.";

    let cer = rate_f64(calculate_cer(text, text));
    let wer = rate_f64(calculate_wer(text, text));
    let metrics = compare_ocr_result(text, text);

    assert_eq!(cer, 0.0, "CER should be 0 for identical texts");
    assert_eq!(wer, 0.0, "WER should be 0 for identical texts");
    assert_eq!(rate_f64(metrics.accuracy()), 1.0, "Accuracy should be 1.0 for identical texts");
}

#[test]
fn test_completely_different_metrics() {
    let reference = "Bonjour le monde";
    let ocr_result = "xyz abc def";

    let cer = rate_f64(calculate_cer(reference, ocr_result));
    let wer = rate_f64(calculate_wer(reference, ocr_result));

    assert!(cer > 0.5, "CER should be high for completely different texts");
    assert!(wer > 0.5, "WER should be high for completely different texts");
}

#[test]
fn test_empty_text_metrics() {
    let reference = "Texte de référence";
    let empty = "";

    let cer = rate_f64(calculate_cer(reference, empty));
    let wer = rate_f64(calculate_wer(reference, empty));

    assert_eq!(cer, 1.0, "CER should be 1.0 when the reference is empty");
    assert_eq!(wer, 1.0, "WER should be 1.0 when the reference is empty");
}

#[test]
fn test_metrics_with_unicode_characters() {
    let reference = "Texte français avec accents: à é è ù ç œ";
    let ocr_result = "Texte français avec accents: a e e u c oe";

    let cer = rate_f64(calculate_cer(reference, ocr_result));
    assert!(cer > 0.0, "CER should detect accent differences");
}
