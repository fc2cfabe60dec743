use std::path::PathBuf;

use pdf_explorer::pdf::{has_suspicious_control_characters, is_ocr_candidate, ExtractOptions, PdfExtractor};

#[test]
fn marks_sparse_text_as_ocr_candidate() {
    assert!(is_ocr_candidate(20, 80));
    assert!(!is_ocr_candidate(80, 80));
    assert!(!is_ocr_candidate(120, 80));
}

#[test]
fn identifies_null_bytes_as_suspicious_extraction_artifacts() {
    assert!(has_suspicious_control_characters("Eberhard R\0hl"));
    assert!(!has_suspicious_control_characters("Eberhard Rühl\n"));
}

#[test]
fn extract_options_default_is_80_chars() {
    let options = ExtractOptions::default();
    assert_eq!(options.min_text_chars, 80);
}

#[test]
fn pdf_extractor_constructs_with_custom_options() {
    let options = ExtractOptions {
        min_text_chars: 120,
    };
    let extractor = PdfExtractor::new(options);
    let _ = extractor;
}

#[test]
fn builds_documents_with_character_counts() {
    let extractor = PdfExtractor::new(ExtractOptions { min_text_chars: 5 });
    let document = extractor.document(PathBuf::from("a.pdf"), 10, "Rühl".to_string());
    assert_eq!(document.text_char_count, 4);
    assert!(document.needs_ocr);
    assert_eq!(extractor.min_text_chars(), 5);
}

#[test]
fn crawl_config_constructs_with_required_fields() {
    let config = pdf_explorer::ingest::CrawlConfig {
        source_url: "https://example.org".to_string(),
        source_name: "test".to_string(),
        state_dir: PathBuf::from(".pdf-explorer"),
        download_dir: PathBuf::from("data/downloads"),
        manual_review_dir: PathBuf::from("data/manual-review"),
        report_path: PathBuf::from("reports/report.json"),
        html_report_path: PathBuf::from("reports/report.html"),
        focus: "Stormarn".to_string(),
        focus_association_code: "OD".to_string(),
        year: None,
        extra_pdf_urls: Vec::new(),
        max_depth: 1,
        max_pages: 25,
        min_text_chars: 80,
    };

    assert_eq!(config.source_url, "https://example.org");
    assert_eq!(config.focus_association_code, "OD");
}
