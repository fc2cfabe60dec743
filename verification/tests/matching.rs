use pdf_explorer::export::matching::{
    association_label, association_matches, association_name, canonical_club_name, club_aliases,
    club_name_without_numeric_prefix, collapse_truncated_clubs, collapse_whitespace,
    is_meyton_rank_header, is_meyton_text, meyton_association_code,
    meyton_continued_shooter_name, meyton_discipline_code, meyton_event_date, meyton_event_name,
    meyton_shooter_name, meyton_team_header, normalize_match_text,
    participation_shooter_from_line, participation_shooters, place_from_rank,
    resolve_truncated_club, source_display_name, truncated_prefix, report_source_name,
    combined_known_club_names,
};
use pdf_explorer::sport_results::Rank;

#[test]
fn canonicalizes_shooting_club_abbreviations() {
    assert_eq!(
        canonical_club_name("Ahrensburger SchG"),
        "Ahrensburger Schützengilde"
    );
    assert_eq!(
        canonical_club_name("SchV Klein Wesenberg"),
        "Schützenverein Klein Wesenberg"
    );
    assert_eq!(
        canonical_club_name("Sprenge u.Umgegend"),
        "Schützenverein Sprenge"
    );
    assert_eq!(
        canonical_club_name("012 SchV Sprenge"),
        "Schützenverein Sprenge"
    );
    assert_eq!(
        canonical_club_name("080 SchV Sprenge"),
        "Schützenverein Sprenge"
    );
    assert_eq!(
        canonical_club_name("012 Ahrensburger SchG"),
        "Ahrensburger Schützengilde"
    );
    assert_eq!(
        canonical_club_name("080012SchV Bargteheide"),
        "Schützenverein Bargteheide"
    );
    assert_eq!(
        canonical_club_name("BSchG Bad Oldesloe"),
        "Bürgerschützengilde Bad Oldesloe"
    );
    assert_eq!(
        canonical_club_name("BSchützengilde Bad Oldesloe"),
        "Bürgerschützengilde Bad Oldesloe"
    );
    assert_eq!(
        canonical_club_name("080 Schützenverein Reinfeld 1"),
        "Schützenverein Reinfeld"
    );
    assert_eq!(
        canonical_club_name("TSV Klausdorf - Schützenabteilung - 1"),
        "TSV Klausdorf - Schützenabteilung"
    );
    assert!(club_aliases("Ahrensburger Schützengilde").contains(&"Ahrensburger SchG".into()));
    assert!(club_aliases("Schützenverein Sprenge").contains(&"Sprenge u.Umgegend".into()));
    assert!(club_aliases("012 SchV Sprenge").contains(&"012 SchV Sprenge".into()));
    assert!(club_aliases("012 SchV Sprenge").contains(&"SchV Sprenge".into()));
}

#[test]
fn normalizes_match_text_for_club_matching() {
    assert_eq!(normalize_match_text("SchV Elmenhorst"), "schv elmenhorst");
    assert_eq!(
        normalize_match_text("012 Schützenverein Elmenhorst"),
        "012 schützenverein elmenhorst"
    );
}

#[test]
fn collapses_whitespace_in_text() {
    assert_eq!(collapse_whitespace("  hello   world  "), "hello world");
    assert_eq!(collapse_whitespace("single"), "single");
}

#[test]
fn extracts_club_name_without_numeric_prefix() {
    assert_eq!(
        club_name_without_numeric_prefix("012 Schützenverein Elmenhorst"),
        Some("Schützenverein Elmenhorst".to_string())
    );
    assert_eq!(club_name_without_numeric_prefix("SchV Trittau"), None);
}

#[test]
fn matches_meyton_club_without_numeric_david_prefix() {
    let known_clubs = vec!["012 Schützenverein Elmenhorst".to_string()];
    let team = meyton_team_header("1. SchV Elmenhorst", &known_clubs).expect("team is matched");

    assert_eq!(team.rank, 1);
    assert_eq!(team.club, "012 Schützenverein Elmenhorst");
}

#[test]
fn displays_known_source_names_as_abbreviations() {
    assert_eq!(source_display_name("landesmeisterschaften"), "LM");
    assert_eq!(source_display_name("deutsche-meisterschaften"), "DM");
    assert_eq!(source_display_name("bezirk"), "bezirk");
}

#[test]
fn maps_known_association_codes_to_names() {
    assert_eq!(association_name("OD"), "Stormarn");
    assert_eq!(association_name("RZ"), "Herzogtum Lauenburg");
    assert_eq!(association_name("NF"), "Nordfriesland");
    assert_eq!(
        association_label("OD", &association_name("OD")),
        "OD - Stormarn"
    );
}

#[test]
fn extracts_participation_shooters_for_dm_rows() {
    let text = "\
2526 Bentien, Sven  Ahrensburger SchG I 4.10.10 10m Lfd. Scheibe Herren I 498 20
Behrens, Joris Velten SchV Elmenhorst 11.10.24 Lichtgewehr Schüler III 145 11
Mannschaft
Ahrensburger SchG I 4.10.10 10m Lfd. Scheibe Herren I 1245 13";

    let ahrensburg = participation_shooters(text, &club_aliases("Ahrensburger Schützengilde"));
    let elmenhorst = participation_shooters(text, &club_aliases("Schützenverein Elmenhorst"));

    assert_eq!(ahrensburg, vec!["Bentien, Sven"]);
    assert_eq!(elmenhorst, vec!["Behrens, Joris Velten"]);
}

#[test]
fn parses_meyton_shooter_name_with_score() {
    let shooter = meyton_shooter_name("239 Burmeister, Anja 33846 5 Shot Series").unwrap();
    assert_eq!(shooter, "Burmeister, Anja");
}

#[test]
fn parses_meyton_shooter_name_without_score() {
    let shooter = meyton_shooter_name("123 Name, Vorname").unwrap();
    assert_eq!(shooter, "Name, Vorname");
}

#[test]
fn returns_none_for_meyton_line_without_comma_name() {
    assert!(meyton_shooter_name("just a plain line").is_none());
}

#[test]
fn continues_wrapped_meyton_shooter_name() {
    let prefix = meyton_shooter_name("627 Stempell, 33771 5 Shot Series").unwrap();
    let shooter = meyton_continued_shooter_name(&prefix, "Christine Single Shot Series").unwrap();
    assert_eq!(shooter, "Stempell, Christine");
}

#[test]
fn extracts_meyton_event_name_from_finale_line() {
    assert_eq!(
        meyton_event_name("VW112_K40_260516_1045 Finale"),
        Some("VW112_K40_260516_1045 Finale".to_string())
    );
    assert!(meyton_event_name("just a normal line").is_none());
}

#[test]
fn extracts_meyton_discipline_code() {
    assert_eq!(
        meyton_discipline_code("VW112_K40_260516_1045 Finale"),
        Some("K40".to_string())
    );
    assert!(meyton_discipline_code("no code here").is_none());
}

#[test]
fn extracts_meyton_event_date() {
    assert_eq!(
        meyton_event_date("16.05.2026"),
        Some("16.05.2026".to_string())
    );
    assert!(meyton_event_date("no date").is_none());
}

#[test]
fn identifies_meyton_rank_headers() {
    assert!(is_meyton_rank_header("1. SchV Elmenhorst"));
    assert!(is_meyton_rank_header("3. SchV Trittau"));
    assert!(!is_meyton_rank_header("SchV Elmenhorst"));
    assert!(!is_meyton_rank_header("just text"));
}

#[test]
fn extracts_shooter_name_from_participation_line() {
    let alias = "Ahrensburger SchG".to_string();
    let result = participation_shooter_from_line(
        "239 Burmeister, Anja  Ahrensburger SchG I 4.10.10",
        &alias,
    );
    assert_eq!(result, Some("Burmeister, Anja".to_string()));
}

#[test]
fn returns_none_for_non_matching_participation_line() {
    let alias = "Schützenverein Elmenhorst".to_string();
    let result = participation_shooter_from_line("239 Burmeister, Anja  Other Club", &alias);
    assert!(result.is_none());
}

#[test]
fn matches_association_with_case_insensitive_all_filter() {
    assert!(association_matches("OD", "OD"));
    assert!(association_matches("OD", "all"));
    assert!(association_matches("OD", "ALL"));
    assert!(!association_matches("OD", "SE"));
}

#[test]
fn resolves_meyton_association_code_from_known_clubs() {
    let known = vec![("Schützenverein Elmenhorst".to_string(), "OD".to_string())];
    assert_eq!(
        meyton_association_code("SchV Elmenhorst", &known, "SE"),
        "OD"
    );
    assert_eq!(meyton_association_code("Unknown Club", &known, "SE"), "SE");
}

#[test]
fn resolves_truncated_club_to_full_name() {
    let candidates = vec![
        "Schützenverein Elm".to_string(),
        "Schützenverein Elmenhorst".to_string(),
    ];
    assert_eq!(
        resolve_truncated_club("SchV Elmenhorst...", &candidates),
        "Schützenverein Elmenhorst"
    );
}

#[test]
fn returns_canonical_name_when_no_truncation() {
    let candidates = vec!["Schützenverein Trittau".to_string()];
    assert_eq!(
        resolve_truncated_club("SchV Trittau", &candidates),
        "Schützenverein Trittau"
    );
}

#[test]
fn collapses_truncated_club_variants() {
    let clubs = vec![
        "Schützenverein Elm...".to_string(),
        "Schützenverein Elmenhorst".to_string(),
    ];
    let collapsed = collapse_truncated_clubs(&clubs);
    assert_eq!(collapsed, vec!["Schützenverein Elmenhorst"]);
}

#[test]
fn keeps_non_truncated_club_variants() {
    let clubs = vec!["SchV Trittau".to_string(), "SchV Reinfeld".to_string()];
    let collapsed = collapse_truncated_clubs(&clubs);
    assert_eq!(collapsed.len(), 2);
}

#[test]
fn extracts_truncated_prefix_from_club_name() {
    assert_eq!(
        truncated_prefix("SchV Elmenhorst...").as_deref(),
        Some("SchV Elmenhorst")
    );
    assert_eq!(truncated_prefix("SchV Elmenhorst"), None);
}

#[test]
fn returns_empty_string_for_david21_cell_without_summary() {
    // david21_cell is tested with the crawl report helpers
}

#[test]
fn recognizes_meyton_text_markers() {
    assert!(is_meyton_text("Meyton Ranklist"));
    assert!(is_meyton_text("VW112_K40 Finale"));
    assert!(!is_meyton_text("Ergebnisliste Einzel"));
}

#[test]
fn maps_ranks_to_places() {
    assert_eq!(place_from_rank(&Rank::Place(3)), Some(3));
    assert_eq!(place_from_rank(&Rank::NotStarted), None);
    assert_eq!(place_from_rank(&Rank::OutOfCompetition), None);
}

#[test]
fn labels_unknown_association_by_code_alone() {
    assert_eq!(association_name("XX"), "XX");
    assert_eq!(association_label("XX", "XX"), "XX");
    assert_eq!(association_label("XX", ""), "XX");
}

#[test]
fn prefers_the_longest_alias_for_a_participation_line() {
    let aliases = vec!["SchV".to_string(), "SchV Elmenhorst".to_string()];
    let text = "12 Behrens, Joris SchV Elmenhorst 11.10.24";
    assert_eq!(participation_shooters(text, &aliases), vec!["Behrens, Joris"]);
}

#[test]
fn builds_report_source_name_from_path_when_empty() {
    assert_eq!(
        report_source_name("", "ndsb-2025-crawl-report.json"),
        "ndsb-2025-crawl-report"
    );
}

#[test]
fn uses_source_name_when_not_empty() {
    assert_eq!(
        report_source_name("landesmeisterschaften", "any.json"),
        "landesmeisterschaften"
    );
}

#[test]
fn combines_known_club_names_from_both_exports() {
    let known_clubs = vec!["Ahrensburger Schützengilde".to_string()];
    let podium_clubs = vec![(
        "Ahrensburger SchG".to_string(),
        "Ahrensburger Schützengilde".to_string(),
    )];
    let match_clubs = vec![(
        "Ahrensburger Schützengilde".to_string(),
        "Ahrensburger Schützengilde".to_string(),
    )];
    let known = combined_known_club_names(&known_clubs, &podium_clubs, &match_clubs);
    assert!(known.contains(&"Ahrensburger Schützengilde".to_string()));
}

#[test]
fn combined_known_club_names_are_sorted_and_unique() {
    let known_clubs = vec!["SchV Trittau".to_string(), "Ahrensburger SchG".to_string()];
    let podium_clubs = vec![("SchV Trittau".to_string(), String::new())];
    let match_clubs = vec![("Ahrensburger SchG".to_string(), "   ".to_string())];
    let known = combined_known_club_names(&known_clubs, &podium_clubs, &match_clubs);
    assert_eq!(
        known,
        vec![
            "Ahrensburger Schützengilde".to_string(),
            "Schützenverein Trittau".to_string(),
        ]
    );
}

#[test]
fn report_source_name_falls_back_to_unknown_without_stem() {
    assert_eq!(report_source_name("  ", ""), "unknown");
}
