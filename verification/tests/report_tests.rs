//! Tests of the formatted comparison report.

use text_recognition::report::generate_diff_report;

#[test]
fn test_generate_diff_report_perfect_match() {
    let report = generate_diff_report("hello world", "hello world");

    assert!(report.contains("OCR COMPARISON REPORT"));
    assert!(report.contains("METRICS:"));
    assert!(report.contains("STATISTICS:"));
    assert!(report.contains("COMPARISON:"));
    assert!(report.contains("SUMMARY:"));

    assert!(report.contains("Character Error Rate (CER): 0.00%"));
    assert!(report.contains("Word Error Rate (WER):      0.00%"));
    assert!(report.contains("Levenshtein Distance:       0"));
    assert!(report.contains("Accuracy:                   100.00%"));

    assert!(report.contains("Quality: Perfect (exact match)"));
    assert!(report.contains("Match:   Exact"));
}

#[test]
fn test_generate_diff_report_excellent_quality() {
    let reference = "This is a test sentence.";
    let ocr = "This is a tast sentence.";
    let report = generate_diff_report(ocr, reference);

    assert!(report.contains("Quality: Excellent (< 5% error)"));
    assert!(report.contains("Match:   Not exact"));

    assert!(report.contains("Character Error Rate (CER):"));
    assert!(report.contains("Word Error Rate (WER):"));
    assert!(report.contains("Levenshtein Distance:       1"));
}

#[test]
fn test_generate_diff_report_good_quality() {
    let report = generate_diff_report("helo world", "hello world");

    assert!(report.contains("Quality: Good (< 15% error)"));
    assert!(report.contains("Match:   Not exact"));
}

#[test]
fn test_generate_diff_report_fair_quality() {
    let report = generate_diff_report("helo wrld", "hello world");

    assert!(report.contains("Quality: Fair (< 30% error)"));
}

#[test]
fn test_generate_diff_report_poor_quality() {
    let report = generate_diff_report("abc def", "hello world");

    assert!(report.contains("Quality: Poor (≥ 30% error)"));
    assert!(report.contains("Match:   Not exact"));
}

#[test]
fn test_generate_diff_report_statistics() {
    let report = generate_diff_report("hello world", "hello world");

    assert!(report.contains("Reference: 11 characters, 2 words"));
    assert!(report.contains("OCR:       11 characters, 2 words"));
}

#[test]
fn test_generate_diff_report_comparison_section() {
    let report = generate_diff_report("hello world", "goodbye world");

    assert!(report.contains("Reference: \"goodbye world\""));
    assert!(report.contains("OCR:       \"hello world\""));
}

#[test]
fn test_generate_diff_report_truncation() {
    let long_text = "a".repeat(250);
    let report = generate_diff_report(&long_text, &long_text);

    assert!(report.contains("... (truncated)"));
    assert!(report.contains("250 characters"));
}

#[test]
fn test_generate_diff_report_empty_texts() {
    let report = generate_diff_report("", "");

    assert!(report.contains("Quality: Perfect (exact match)"));
    assert!(report.contains("Match:   Exact"));
    assert!(report.contains("Reference: 0 characters, 0 words"));
    assert!(report.contains("OCR:       0 characters, 0 words"));
}

#[test]
fn test_generate_diff_report_format() {
    let report = generate_diff_report("test", "test");

    assert!(report.starts_with("═══════════════════════════════════════════════════════════"));
    assert!(report.ends_with("═══════════════════════════════════════════════════════════\n"));

    assert!(report.contains("--------"));
    assert!(report.contains("-----------"));
}

#[test]
fn test_french_generate_report() {
    let reference = "Le développement logiciel nécessite de la rigueur.";
    let ocr = "Le developpement logiciel necessite de la rigueur.";

    let report = generate_diff_report(ocr, reference);

    assert!(report.contains("OCR COMPARISON REPORT"));
    assert!(report.contains("Character Error Rate (CER):"));
    assert!(report.contains("COMPARISON:"));

    assert!(report.contains("Quality: Excellent (< 5% error)"));
}

#[test]
fn test_generate_diff_report_single_error_percentages() {
    let report = generate_diff_report("helo world", "hello world");
    assert!(report.contains("Character Error Rate (CER): 9.09%"));
    assert!(report.contains("Word Error Rate (WER):      50.00%"));
    assert!(report.contains("Accuracy:                   90.91%"));
}

#[test]
fn test_report_quality_categories() {
    let report_excellent = generate_diff_report("Bonjour le monde", "Bonjour le monde!");
    assert!(
        report_excellent.contains("Excellent") || report_excellent.contains("Good"),
        "Report should indicate good quality"
    );

    let report_poor = generate_diff_report("Bonjour le monde", "xyz abc def");
    assert!(
        report_poor.contains("Poor") || report_poor.contains("Fair"),
        "Report should indicate poor quality"
    );
}
