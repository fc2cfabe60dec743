use std::path::PathBuf;

use pdf_explorer::export::html_rows::{
    club_options, combined_club_rows, highest_rank, local_path_link, participation_html_rows,
    matched_club_count, podium_html_rows, relative_local_href, shooter_options,
};
use pdf_explorer::export::{EntryScore, ParticipationMatch, PodiumEntry, PodiumResultKind};

fn item(rank: u32) -> PodiumEntry {
    PodiumEntry {
        source_name: "landesmeisterschaften".to_string(),
        rank,
        result_kind: PodiumResultKind::Individual,
        shooter: "Test, Tina".to_string(),
        club: "Ahrensburger SchG".to_string(),
        canonical_club: "Ahrensburger Schützengilde".to_string(),
        association_code: "OD".to_string(),
        association_name: "Stormarn".to_string(),
        discipline: Some("Luftgewehr".to_string()),
        discipline_code: Some("1.10".to_string()),
        class_name: None,
        event_name: "LM".to_string(),
        event_date: None,
        score: EntryScore::Tenths(1000),
        pdf_url: "https://example.org/lm.pdf".to_string(),
        local_path: PathBuf::from("data/archive/2026/landesmeisterschaften/downloads/lm.pdf"),
    }
}

fn participation() -> ParticipationMatch {
    ParticipationMatch {
        club: "Ahrensburger Schützengilde".to_string(),
        canonical_club: "Ahrensburger Schützengilde".to_string(),
        shooters: vec!["Test, Tina".to_string(), "Muster, Max".to_string()],
        source_name: "deutsche-meisterschaften".to_string(),
        pdf_url: "https://example.org/dm.pdf".to_string(),
        local_path: PathBuf::from("data/dm.pdf"),
        text_char_count: 100,
    }
}

#[test]
fn podium_rows_omit_the_local_file() {
    let html = podium_html_rows(&vec![item(1)], &vec!["100".to_string()]);
    assert!(!html.contains("data/archive/2026/landesmeisterschaften/downloads"));
    assert!(html.contains("https://example.org/lm.pdf"));
    assert_eq!(
        html,
        "<tr data-rank=\"1\" data-kind=\"Einzel\" data-shooter=\"Test, Tina\" data-club=\"Ahrensburger SchG\" data-canonical-club=\"Ahrensburger Schützengilde\" data-association=\"OD\" data-text=\"Test, Tina Ahrensburger SchG Ahrensburger Schützengilde OD Luftgewehr https://example.org/lm.pdf\"><td>1</td><td>Einzel</td><td>Test, Tina</td><td>Ahrensburger Schützengilde</td><td>OD - Stormarn</td><td>1.10 - Luftgewehr</td><td>100</td><td><a href=\"https://example.org/lm.pdf\"><code>https://example.org/lm.pdf</code></a></td></tr>\n"
    );
}

#[test]
fn limits_the_rank_filter_to_the_highest_rank() {
    assert_eq!(highest_rank(&vec![item(12)], 3), 12);
    assert_eq!(highest_rank(&vec![item(2), item(1)], 3), 2);
    assert_eq!(highest_rank(&Vec::new(), 3), 3);
}

#[test]
fn participation_rows_link_local_files_from_the_report() {
    let m = participation();
    let link = local_path_link("data/dm 1.pdf", Some("reports/archive"));
    assert_eq!(link, "<a href=\"../../data/dm%201.pdf\"><code>data/dm 1.pdf</code></a>");
    assert_eq!(local_path_link("/abs/dm.pdf", Some("reports")), "/abs/dm.pdf");
    assert_eq!(relative_local_href("data/dm.pdf", None), None);
    assert_eq!(relative_local_href("data/dm.pdf", Some("/reports")), None);
    let html = participation_html_rows(&vec![m], &vec![link.clone()]);
    assert!(html.starts_with("<tr data-club=\"Ahrensburger Schützengilde\" data-text=\"Ahrensburger Schützengilde Test, Tina, Muster, Max https://example.org/dm.pdf\"><td>Ahrensburger Schützengilde</td><td>Test, Tina, Muster, Max</td><td>DM</td>"));
    assert!(html.ends_with(&format!("<td>{link}</td></tr>\n")));
}

#[test]
fn combined_rows_list_podium_items_then_matches() {
    let html = combined_club_rows(
        "Ahrensburger Schützengilde",
        &vec![item(1)],
        &vec!["L".to_string()],
        &vec![participation()],
        &vec!["M".to_string()],
    );
    let podium = html.find("data-type=\"podium\"").unwrap();
    let matches = html.find("data-type=\"participation\"").unwrap();
    assert!(podium < matches);
    assert!(html.contains("<td>Podest</td><td>1</td><td>Test, Tina</td><td>1.10 - Luftgewehr</td><td>Einzel</td><td>L</td>"));
    assert!(html.contains("<td>Teilnahme</td><td></td><td>Test, Tina, Muster, Max</td><td>DM</td>"));
    assert_eq!(
        club_options(&vec!["A&B".to_string()]),
        "<option value=\"A&amp;B\">A&amp;B</option>"
    );
    assert_eq!(
        shooter_options(&vec!["B".to_string(), "A".to_string(), "B".to_string()]),
        "<option value=\"A\">A</option><option value=\"B\">B</option>"
    );
}

#[test]
fn counts_each_matched_club_once() {
    let m = |club: &str, url: &str| ParticipationMatch {
        club: club.to_string(),
        canonical_club: club.to_string(),
        shooters: Vec::new(),
        source_name: "deutsche-meisterschaften".to_string(),
        pdf_url: url.to_string(),
        local_path: PathBuf::from("data/dm.pdf"),
        text_char_count: 0,
    };
    let matches = vec![m("SV B", "a"), m("SV A", "b"), m("SV B", "c")];
    assert_eq!(matched_club_count(&matches), 2);
    assert_eq!(matched_club_count(&Vec::new()), 0);
}
