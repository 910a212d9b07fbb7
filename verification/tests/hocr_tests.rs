//! Tests of the HOCR bounding-box model, its parser and its report.

use text_recognition::hocr::{
    BBox, HocrDocument, HocrLine, HocrParagraph, HocrWord, extract_bbox, extract_confidence,
    extract_word_text,
};

#[test]
fn test_bbox_from_hocr_string() {
    let bbox = BBox::from_hocr_string("bbox 100 200 300 400").unwrap();
    assert_eq!(bbox.x, 100);
    assert_eq!(bbox.y, 200);
    assert_eq!(bbox.width, 200);
    assert_eq!(bbox.height, 200);
}

#[test]
fn test_bbox_from_hocr_string_invalid() {
    let result = BBox::from_hocr_string("invalid");
    assert!(result.is_err());
}

#[test]
fn test_bbox_from_hocr_string_saturates() {
    let bbox = BBox::from_hocr_string("bbox 300 400 100 200").unwrap();
    assert_eq!(bbox.width, 0);
    assert_eq!(bbox.height, 0);
}

#[test]
fn test_extract_bbox() {
    let line = r#"<span class="ocr_line" title="bbox 100 200 300 400; baseline 0 -5">"#;
    let bbox = extract_bbox(line).unwrap();
    assert_eq!(bbox.x, 100);
    assert_eq!(bbox.y, 200);
    assert_eq!(bbox.width, 200);
    assert_eq!(bbox.height, 200);
}

#[test]
fn test_extract_bbox_absent() {
    assert!(extract_bbox("<span class=\"ocr_line\">").is_none());
    assert!(extract_bbox("<span title=\"no box here\">").is_none());
}

#[test]
fn test_extract_word_text() {
    let line = r#"<span class="ocrx_word">Hello</span>"#;
    let text = extract_word_text(line).unwrap();
    assert_eq!(text, "Hello");
}

#[test]
fn test_extract_confidence() {
    let line = r#"<span title="bbox 100 200 300 400; x_wconf 95">"#;
    let conf = extract_confidence(line).unwrap();
    assert_eq!(conf, 95);
}

#[test]
fn test_extract_confidence_absent() {
    assert!(extract_confidence("<span title=\"bbox 1 2 3 4\">").is_none());
}

#[test]
fn test_hocr_document_new() {
    let doc = HocrDocument::new();
    assert_eq!(doc.paragraphs.len(), 0);
}

#[test]
fn test_hocr_word_new() {
    let bbox = BBox::new(10, 20, 30, 40);
    let word = HocrWord::new(bbox.clone(), "test".to_string(), Some(95));
    assert_eq!(word.bbox, bbox);
    assert_eq!(word.text, "test");
    assert_eq!(word.confidence, Some(95));
}

#[test]
fn test_hocr_line_add_word() {
    let mut line = HocrLine::new(BBox::new(0, 0, 100, 50));
    let word = HocrWord::new(BBox::new(10, 10, 30, 40), "test".to_string(), None);
    line.add_word(word);
    assert_eq!(line.words.len(), 1);
}

#[test]
fn test_hocr_paragraph_add_line() {
    let mut para = HocrParagraph::new(BBox::new(0, 0, 200, 100));
    let line = HocrLine::new(BBox::new(10, 10, 180, 40));
    para.add_line(line);
    assert_eq!(para.lines.len(), 1);
}

#[test]
fn test_from_hocr_string_parses_structure() {
    let hocr = "<p class='ocr_par' title='bbox 0 0 500 100'>\n\
                <span class='ocr_line' title='bbox 0 0 500 40'>\n\
                <span class='ocrx_word' title='bbox 0 0 50 40; x_wconf 91'>Hello</span>\n\
                <span class='ocrx_word' title='bbox 60 0 120 40; x_wconf 87'>world</span>\n\
                <span class='ocr_line' title='bbox 0 50 500 90'>\n\
                <span class='ocrx_word' title='bbox 0 50 70 90'>again</span>\n";
    let doc = HocrDocument::from_hocr_string(hocr).unwrap();
    assert_eq!(doc.paragraphs.len(), 1);
    let para = &doc.paragraphs[0];
    assert_eq!(para.bbox, BBox::new(0, 0, 500, 100));
    assert_eq!(para.lines.len(), 2);
    assert_eq!(para.lines[0].words.len(), 2);
    assert_eq!(para.lines[0].words[0].text, "Hello");
    assert_eq!(para.lines[0].words[0].confidence, Some(91));
    assert_eq!(para.lines[0].words[1].text, "world");
    assert_eq!(para.lines[1].words.len(), 1);
    assert_eq!(para.lines[1].words[0].text, "again");
    assert_eq!(para.lines[1].words[0].confidence, None);
}

#[test]
fn test_from_hocr_string_empty() {
    let doc = HocrDocument::from_hocr_string("").unwrap();
    assert_eq!(doc.paragraphs.len(), 0);
}

#[test]
fn test_from_hocr_string_ignores_unknown_lines() {
    let hocr = "<html>\n<body>\nsome text\n</body>\n</html>\n";
    let doc = HocrDocument::from_hocr_string(hocr).unwrap();
    assert_eq!(doc.paragraphs.len(), 0);
}

#[test]
fn test_generate_report_lists_boxes() {
    let mut doc = HocrDocument::new();
    let mut para = HocrParagraph::new(BBox::new(0, 0, 200, 100));
    let mut line = HocrLine::new(BBox::new(5, 5, 180, 40));
    line.add_word(HocrWord::new(BBox::new(10, 10, 30, 20), "mot".to_string(), Some(88)));
    line.add_word(HocrWord::new(BBox::new(50, 10, 40, 20), "deux".to_string(), None));
    para.add_line(line);
    doc.add_paragraph(para);

    let report = doc.generate_report();
    assert!(report.contains("=== RAPPORT HOCR - BOUNDING BOXES ==="));
    assert!(report.contains("Paragraphe #1: bbox(0, 0, 200, 100)"));
    assert!(report.contains("  Ligne #1: bbox(5, 5, 180, 40)"));
    assert!(report.contains("    Mot #1: \"mot\" bbox(10, 10, 30, 20) [confiance: 88%]"));
    assert!(report.contains("    Mot #2: \"deux\" bbox(50, 10, 40, 20)"));
}

#[test]
fn test_generate_report_empty_document() {
    let doc = HocrDocument::new();
    let report = doc.generate_report();
    assert_eq!(report, "=== RAPPORT HOCR - BOUNDING BOXES ===\n\n");
}
