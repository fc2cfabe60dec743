use pdf_explorer::export::PodiumResultKind;
use pdf_explorer::import::records::{
    athlete_from_name, participation_alias_names, participation_club, participation_club_alias,
    participation_competition, participation_export_year, participation_import_run,
    participation_match_club, participation_parsed_row, participation_result,
    participation_source_document, podium_alias_names, podium_club, podium_club_alias,
    podium_competition, podium_discipline, podium_export_year, podium_import_run,
    podium_parsed_row, podium_parser_run, podium_result, podium_source_document, podium_team,
    podium_team_member, podium_team_result_member, ParticipationImportItem,
    ParticipationReferences, ParticipationRowContext, PodiumImportItem, ResultReferences,
};

fn item() -> PodiumImportItem {
    PodiumImportItem {
        source_name: "landesmeisterschaften".to_string(),
        rank: 2,
        result_kind: PodiumResultKind::Individual,
        shooter: "Soares dos Reis, Maximilian".to_string(),
        club: "080 Schützenverein Reinfeld 1".to_string(),
        canonical_club: "Schützenverein Reinfeld".to_string(),
        association_code: "OD".to_string(),
        discipline: Some("KK liegend".to_string()),
        discipline_code: Some("1.80.40".to_string()),
        class_name: Some("Herren IV".to_string()),
        event_name: "Landesmeisterschaft 2026".to_string(),
        event_date: Some("30.05.2026".to_string()),
        score_tenths: Some(6217),
        pdf_url: "https://example.test/1.80.40.pdf".to_string(),
        local_path: "data/archive/2026/landesmeisterschaften/downloads/1.80.40.pdf".to_string(),
    }
}

fn team_item() -> PodiumImportItem {
    let mut first = item();
    first.result_kind = PodiumResultKind::Team;
    first.shooter = "Mannschaft, Eins".to_string();
    first.club = "Ahrensburger SchG I".to_string();
    first.canonical_club = "Ahrensburger Schützengilde".to_string();
    first.score_tenths = Some(2000);
    first
}

#[test]
fn builds_the_run_and_competition_of_a_podium_import() {
    let mut later = item();
    later.event_date = Some("31.05.2026".to_string());
    let items = vec![later, item()];
    assert_eq!(
        podium_export_year(&items, "reports/archive/2026/landesmeisterschaften/crawl-report.json"),
        Some(2026)
    );
    assert_eq!(podium_export_year(&Vec::new(), "reports/archive/2025/lm/crawl-report.json"), Some(2025));
    let competition = podium_competition("landesmeisterschaften", &items, 2026);
    assert_eq!(competition.code, "LM-2026");
    assert_eq!(competition.name, "Landesmeisterschaft 2026");
    assert_eq!(competition.scope, "LM");
    assert_eq!(competition.organizer.as_deref(), Some("NDSB"));
    assert_eq!(competition.date_from.as_deref(), Some("30.05.2026"));
    assert_eq!(competition.date_to.as_deref(), Some("31.05.2026"));
    let run = podium_import_run("landesmeisterschaften", "in.json", "abc", "0.1.0");
    assert_eq!(run.run_kind, "podium-export-import");
    assert_eq!(run.parser_name.as_deref(), Some("podium-export-json"));
    let parser_run = podium_parser_run("lm", 3, "in.json", "abc", "report.json", "2026-01-01T00:00:00+00:00", "0.1.0");
    assert_eq!(parser_run.import_run_id, Some(3));
    assert_eq!(parser_run.source_kind, "podium-export");
}

#[test]
fn builds_the_records_of_a_podium_item() {
    let it = item();
    let doc = podium_source_document(&it, Some("ff".to_string()), Some(10));
    assert_eq!(doc.classification, "david21");
    assert_eq!(doc.local_path.as_deref(), Some(it.local_path.as_str()));
    let club = podium_club(&it, "Schützenverein Reinfeld");
    assert_eq!(club.association_code.as_deref(), Some("OD"));
    assert_eq!(
        podium_alias_names(&it, " Schützenverein Reinfeld "),
        vec![
            "080 Schützenverein Reinfeld 1".to_string(),
            "Schützenverein Reinfeld".to_string(),
            "Schützenverein Reinfeld".to_string(),
        ]
    );
    assert_eq!(podium_club_alias(&it, 4, "X").source.as_deref(), Some("podium-export"));
    assert_eq!(athlete_from_name("A").sort_name.as_deref(), Some("A"));
    assert_eq!(podium_discipline(&it).name, "KK liegend");
    let row = podium_parsed_row(&it, 1, 2, 0, "abc", 2026, "{}", "fp", "none", None);
    assert_eq!(row.row_fingerprint, "abc|row|0");
    assert_eq!(row.competition_scope, "LM");
    assert_eq!(row.result_kind, "individual");
    assert_eq!(row.rank, Some(2));
    assert_eq!(row.score_tenths, Some(6217));
    assert_eq!(row.normalized_club_name.as_deref(), Some("Schützenverein Reinfeld"));
    let ids = ResultReferences { import_run: 1, source_document: 2, parsed_result_row: 3, competition: 4, athlete: 5, club: 6, discipline: 7 };
    let result = podium_result(&it, ids, "{}", "sfp", "cfp", "none");
    assert_eq!(result.medal.as_deref(), Some("silver"));
    assert_eq!(result.stage, "result");
    assert!(!result.participation_only);
}

#[test]
fn builds_teams_of_team_items() {
    let it = team_item();
    let team = podium_team(&it, 1, 2, 3, 4, 5, "Ahrensburger Schützengilde", "abc", 2026, "none");
    assert_eq!(team.canonical_name, "Ahrensburger Schützengilde I");
    assert_eq!(team.team_number.as_deref(), Some("I"));
    assert_eq!(team.raw_team_name.as_deref(), Some("Ahrensburger SchG I"));
    assert_eq!(team.medal.as_deref(), Some("silver"));
    assert_eq!(
        team.canonical_fingerprint.as_deref(),
        Some("landesmeisterschaften|2026|1.80.40|team|2|Ahrensburger Schützengilde I|I|Herren IV")
    );
    assert_eq!(
        team.source_fingerprint.as_deref(),
        Some("abc|landesmeisterschaften|2026|1.80.40|team|2|Ahrensburger Schützengilde I|I|Herren IV")
    );
    let member = podium_team_member(&it, 9, 5, 0, "Mannschaft, Eins");
    assert_eq!(member.display_name, "Mannschaft, Eins");
    let share = podium_team_result_member(&it, 9, 8, 5, 7, 0);
    assert_eq!(share.medal.as_deref(), Some("silver"));
    assert_eq!(share.score_tenths, Some(2000));
}

#[test]
fn builds_the_records_of_a_participation() {
    let it = ParticipationImportItem {
        club: "Ahrensburger SchG".to_string(),
        canonical_club: " ".to_string(),
        source_name: "deutsche-meisterschaften".to_string(),
        pdf_url: "https://example.org/dm.pdf".to_string(),
        local_path: "data/dm.pdf".to_string(),
    };
    assert_eq!(
        participation_export_year(&vec!["data/dm.pdf".to_string(), "data/2026/x.pdf".to_string()], "reports/dm.json"),
        Some(2026)
    );
    assert_eq!(participation_export_year(&Vec::new(), "reports/dm.json"), None);
    let competition = participation_competition("deutsche-meisterschaften", 2026);
    assert_eq!(competition.code, "DM-2026");
    assert_eq!(competition.name, "deutsche-meisterschaften 2026");
    assert_eq!(competition.organizer.as_deref(), Some("DSB"));
    assert_eq!(participation_import_run("dm", "in", "h", "1").run_kind, "participation-export-import");
    assert_eq!(participation_source_document(&it, None, None).classification, "participation");
    assert_eq!(participation_club(&it, "Ahrensburger Schützengilde").association_code.as_deref(), Some("OD"));
    assert_eq!(participation_match_club(&it), "Ahrensburger SchG");
    assert_eq!(participation_alias_names(&it, ""), vec!["Ahrensburger SchG".to_string()]);
    assert_eq!(participation_club_alias(3, "A").source.as_deref(), Some("participation-export"));
    let at = ParticipationRowContext { parser_run: 1, source_document: 2, row_index: 5, year: 2026 };
    let row = participation_parsed_row(&it, None, None, at, "h", "Ahrensburger Schützengilde", "{}", "cfp");
    assert_eq!(row.row_fingerprint, "h|participation-row|5");
    assert_eq!(row.event_name.as_deref(), Some("Deutsche Meisterschaft"));
    assert_eq!(row.result_kind, "participation");
    let ids = ParticipationReferences { import_run: 1, source_document: 2, parsed_result_row: 3, competition: 4, club: 6 };
    let result = participation_result(&it, Some("Test, Tina"), ids, Some(9), "{}", "sfp", "cfp");
    assert!(result.participation_only);
    assert_eq!(result.stage, "participation");
    assert_eq!(result.raw_shooter_name.as_deref(), Some("Test, Tina"));
}
