use pdf_explorer::export::html::{
    discipline_cell, escape_html, link_html, manual_review_pdfs, render_manual_review_rows,
    result_kind_label, shooters_display,
};
use pdf_explorer::export::{ManualReviewPdf, PodiumResultKind};
use pdf_explorer::ingest::{PdfChangeStatus, PdfClassification, PdfReportItem};

#[test]
fn html_escapes_html_and_control_characters() {
    assert_eq!(escape_html("A&B<\0>"), "A&amp;B&lt; &gt;");
}

#[test]
fn tests_escapes_html_and_control_characters() {
    assert_eq!(escape_html("A&B<\0>"), "A&amp;B&lt; &gt;");
}

#[test]
fn escapes_quotes_and_keeps_plain_text() {
    assert_eq!(escape_html("\"x\" 'y'"), "&quot;x&quot; &#39;y&#39;");
    assert_eq!(escape_html("Schützenverein"), "Schützenverein");
}

#[test]
fn renders_escaped_links() {
    assert_eq!(
        link_html("a?b=1&c=2", "<pdf>"),
        "<a href=\"a?b=1&amp;c=2\"><code>&lt;pdf&gt;</code></a>"
    );
}

#[test]
fn labels_result_kinds() {
    assert_eq!(result_kind_label(&PodiumResultKind::Individual), "Einzel");
    assert_eq!(result_kind_label(&PodiumResultKind::Team), "Mannschaft");
}

#[test]
fn joins_shooters_and_discipline_parts() {
    assert_eq!(
        shooters_display(&vec!["A, B".to_string(), "C, D".to_string()]),
        "A, B, C, D"
    );
    assert_eq!(
        discipline_cell(&Some("1.10".to_string()), &None, &Some("Damen I".to_string())),
        "1.10 - Damen I"
    );
}

fn report_item(classification: PdfClassification, error: Option<&str>) -> PdfReportItem {
    PdfReportItem {
        url: "https://example.org/a.pdf".to_string(),
        status: PdfChangeStatus::New,
        classification,
        local_path: None,
        manual_review_path: None,
        etag: None,
        last_modified: None,
        sha256: None,
        file_size_bytes: None,
        text_char_count: Some(12),
        needs_ocr: Some(true),
        david21_summary: None,
        error: error.map(ToString::to_string),
    }
}

#[test]
fn lists_pdfs_for_manual_review_with_reasons() {
    let pdfs = vec![
        report_item(PdfClassification::David21, None),
        report_item(PdfClassification::ManualReview, None),
        report_item(PdfClassification::Unknown, Some("broken")),
    ];
    let review = manual_review_pdfs(&pdfs);
    assert_eq!(review.len(), 2);
    assert_eq!(review[0].reason.as_deref(), Some("ManualReview"));
    assert_eq!(review[1].reason.as_deref(), Some("broken"));
}

#[test]
fn renders_manual_review_rows() {
    let rows = render_manual_review_rows(&vec![ManualReviewPdf {
        url: "u".to_string(),
        reason: None,
        text_char_count: Some(120),
        needs_ocr: Some(false),
    }]);
    assert_eq!(
        rows,
        "<tr><td><a href=\"u\"><code>u</code></a></td><td>unbekannt</td><td>120</td><td>nein</td></tr>\n"
    );
}
