use pdf_explorer::export::models::ManualReviewPdf;
use pdf_explorer::export::pages::{
    manual_review_section, render_combined_report, render_participation_report,
    render_podium_report,
};
use pdf_explorer::template::render_template;

#[test]
fn templates_fill_every_placeholder_in_order() {
    let values = vec![
        ("x".to_string(), "1".to_string()),
        ("y".to_string(), "{{x}}".to_string()),
    ];
    assert_eq!(render_template("a {{x}} b {{x}} {{y}} {{z}}", &values), "a 1 b 1 {{x}} {{z}}");
}

#[test]
fn podium_report_shows_figures_and_review_table_only_when_needed() {
    let html = render_podium_report(
        "2026-05-01T10:00:00+00:00",
        "landesmeisterschaften",
        "OD",
        3,
        0,
        0,
        &Vec::new(),
        &Vec::new(),
        &Vec::new(),
        "[]",
    );
    assert!(html.contains("<title>Podest LM</title>"));
    assert!(html.contains("bis Platz 3 (hoechster Platz 3) - 0 Eintraege - 0 zur Pruefung"));
    assert!(html.contains("max=\"3\" value=\"3\""));
    assert!(!html.contains("Zur manuellen Pruefung"));
    assert!(html.contains("<script type=\"application/json\" id=\"items\">[]</script>"));
    assert!(!html.contains("{{"));

    let pdfs = vec![ManualReviewPdf {
        url: "https://example.org/a.pdf".to_string(),
        reason: Some("Unknown".to_string()),
        text_char_count: Some(12),
        needs_ocr: Some(true),
    }];
    assert_eq!(manual_review_section(&Vec::new()), "");
    let section = manual_review_section(&pdfs);
    assert!(section.starts_with("<h2>Zur manuellen Pruefung</h2>"));
    assert!(section.contains("<td>Unknown</td><td>12</td><td>ja</td>"));
}

#[test]
fn participation_and_combined_reports_fill_their_frames() {
    let html = render_participation_report(
        "clubs",
        "deutsche-meisterschaften",
        "OD",
        "now",
        2,
        1,
        0,
        &vec!["SV A".to_string()],
        &Vec::new(),
        &Vec::new(),
    );
    assert!(html.contains("<h1>Teilnahmen DM</h1>"));
    assert!(html.contains("2 bekannte Vereine, 1 gefunden, 0 Treffer"));
    assert!(html.contains("<option value=\"SV A\">SV A</option>"));

    let html = render_combined_report(
        "OD",
        "now",
        1,
        2,
        3,
        &vec!["SV A".to_string()],
        &vec!["B".to_string(), "A".to_string(), "B".to_string()],
        "<tr></tr>",
    );
    assert!(html.contains("1 Vereine, 2 Podestplaetze, 3 Teilnahmen"));
    assert!(html.contains("<tbody><tr></tr></tbody>"));
    assert!(html.contains("<option value=\"A\">A</option><option value=\"B\">B</option></select>"));
    assert!(!html.contains("{{"));
}
