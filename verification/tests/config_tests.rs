//! Tests of the OCR engine configuration and its presets.

use text_recognition::config::{OcrConfig, PageSegMode, psm_from_int};

#[test]
fn test_default_config() {
    let config = OcrConfig::default();

    assert_eq!(config.language, "fra");
    assert_eq!(config.page_seg_mode, PageSegMode::Auto);
    assert_eq!(config.dpi, 300);
    assert!(config.tesseract_variables.is_empty());
}

#[test]
fn test_document_preset() {
    let config = OcrConfig::document_preset();

    assert_eq!(config.language, "fra");
    assert_eq!(config.page_seg_mode, PageSegMode::Auto);
    assert_eq!(config.dpi, 300);

    assert_eq!(config.tesseract_variables.len(), 1);
    assert_eq!(config.variable("preserve_interword_spaces"), Some("1".to_string()));
}

#[test]
fn test_screenshot_preset() {
    let config = OcrConfig::screenshot_preset();

    assert_eq!(config.language, "fra");
    assert_eq!(config.page_seg_mode, PageSegMode::Auto);
    assert_eq!(config.dpi, 96);

    assert!(config.tesseract_variables.is_empty());
}

#[test]
fn test_single_line_preset() {
    let config = OcrConfig::single_line_preset();

    assert_eq!(config.language, "fra");
    assert_eq!(config.page_seg_mode, PageSegMode::SingleLine);
    assert_eq!(config.dpi, 150);

    assert!(config.tesseract_variables.is_empty());
}

#[test]
fn test_photo_preset() {
    let config = OcrConfig::photo_preset();

    assert_eq!(config.language, "fra");
    assert_eq!(config.page_seg_mode, PageSegMode::Auto);
    assert_eq!(config.dpi, 200);

    assert_eq!(config.tesseract_variables.len(), 1);
    assert_eq!(config.variable("tessedit_do_invert"), Some("0".to_string()));
}

#[test]
fn test_page_seg_mode_conversion() {
    assert_eq!(PageSegMode::OsdOnly.to_tesseract_psm(), 0);
    assert_eq!(PageSegMode::AutoOsd.to_tesseract_psm(), 1);
    assert_eq!(PageSegMode::AutoOnly.to_tesseract_psm(), 2);
    assert_eq!(PageSegMode::Auto.to_tesseract_psm(), 3);
    assert_eq!(PageSegMode::SingleColumn.to_tesseract_psm(), 4);
    assert_eq!(PageSegMode::SingleBlockVertText.to_tesseract_psm(), 5);
    assert_eq!(PageSegMode::SingleBlock.to_tesseract_psm(), 6);
    assert_eq!(PageSegMode::SingleLine.to_tesseract_psm(), 7);
    assert_eq!(PageSegMode::SingleWord.to_tesseract_psm(), 8);
    assert_eq!(PageSegMode::CircleWord.to_tesseract_psm(), 9);
    assert_eq!(PageSegMode::SingleChar.to_tesseract_psm(), 10);
    assert_eq!(PageSegMode::SparseText.to_tesseract_psm(), 11);
    assert_eq!(PageSegMode::SparseTextOsd.to_tesseract_psm(), 12);
    assert_eq!(PageSegMode::RawLine.to_tesseract_psm(), 13);
}

#[test]
fn test_presets_are_distinct() {
    let document = OcrConfig::document_preset();
    let screenshot = OcrConfig::screenshot_preset();
    let single_line = OcrConfig::single_line_preset();
    let photo = OcrConfig::photo_preset();

    assert_ne!(document.dpi, screenshot.dpi);
    assert_ne!(document.dpi, single_line.dpi);
    assert_ne!(screenshot.dpi, photo.dpi);

    assert_ne!(single_line.page_seg_mode, document.page_seg_mode);
}

#[test]
fn test_config_clone() {
    let config1 = OcrConfig::document_preset();
    let config2 = config1.clone();

    assert_eq!(config1.language, config2.language);
    assert_eq!(config1.page_seg_mode, config2.page_seg_mode);
    assert_eq!(config1.dpi, config2.dpi);
}

#[test]
fn test_all_psm_conversions() {
    let modes = [
        (PageSegMode::OsdOnly, 0),
        (PageSegMode::AutoOsd, 1),
        (PageSegMode::AutoOnly, 2),
        (PageSegMode::Auto, 3),
        (PageSegMode::SingleColumn, 4),
        (PageSegMode::SingleBlockVertText, 5),
        (PageSegMode::SingleBlock, 6),
        (PageSegMode::SingleLine, 7),
        (PageSegMode::SingleWord, 8),
        (PageSegMode::CircleWord, 9),
        (PageSegMode::SingleChar, 10),
        (PageSegMode::SparseText, 11),
        (PageSegMode::SparseTextOsd, 12),
        (PageSegMode::RawLine, 13),
    ];

    for (mode, expected_value) in modes.iter() {
        assert_eq!(mode.to_tesseract_psm(), *expected_value);
    }
}

#[test]
fn test_variable_returns_first_match() {
    let mut config = OcrConfig::default();
    config.tesseract_variables.push(("dpi_hint".to_string(), "300".to_string()));
    config.tesseract_variables.push(("dpi_hint".to_string(), "600".to_string()));

    assert_eq!(config.variable("dpi_hint"), Some("300".to_string()));
    assert_eq!(config.variable("absent"), None);
}

#[test]
fn test_psm_from_int_round_trip() {
    let mut code: i32 = 0;
    while code <= 13 {
        assert_eq!(psm_from_int(code).to_tesseract_psm(), code);
        code += 1;
    }
    assert_eq!(psm_from_int(-1), PageSegMode::Auto);
    assert_eq!(psm_from_int(99), PageSegMode::Auto);
}
