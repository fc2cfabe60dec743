use pdf_explorer::export::database::database_result_kind;
use pdf_explorer::export::models::PodiumResultKind;
use pdf_explorer::storage::models::competition_organizer_code;
use pdf_explorer::application::query::like_filter;
use pdf_explorer::storage::models::{check_merge, required_name, MergeSubject};
use pdf_explorer::export::database::{
    database_groups, participation_matches_from_rows, DatabaseParticipationRow,
};

fn row(shooter: Option<&str>, club: &str, canonical: &str, url: &str) -> DatabaseParticipationRow {
    DatabaseParticipationRow {
        source_name: "deutsche-meisterschaften".to_string(),
        shooter: shooter.map(str::to_string),
        club: club.to_string(),
        canonical_club: canonical.to_string(),
        pdf_url: url.to_string(),
        local_path: format!("data/{url}"),
    }
}

#[test]
fn groups_participation_rows_by_club_and_pdf() {
    let rows = vec![
        row(Some("B, Bea"), "SV B", "SV B", "b.pdf"),
        row(Some("Test, Tina"), "Ahrensburger SchG", "Ahrensburger Schützengilde", "dm.pdf"),
        row(Some("Test, Tina"), "Ahrensburger", "Ahrensburger Schützengilde", "dm.pdf"),
        row(None, "Ahrensburger", "Ahrensburger Schützengilde", "dm.pdf"),
        row(Some("Muster, Max"), "Ahrensburger", "Ahrensburger Schützengilde", "dm.pdf"),
        row(None, "Ahrensburger", "Ahrensburger Schützengilde", "a.pdf"),
    ];
    let matches = participation_matches_from_rows(&rows);
    assert_eq!(matches.len(), 3);
    assert_eq!(matches[0].canonical_club, "Ahrensburger Schützengilde");
    assert_eq!(matches[0].pdf_url, "a.pdf");
    assert!(matches[0].shooters.is_empty());
    assert_eq!(matches[1].pdf_url, "dm.pdf");
    assert_eq!(matches[1].club, "Ahrensburger SchG");
    assert_eq!(matches[1].shooters, vec!["Test, Tina".to_string(), "Muster, Max".to_string()]);
    assert_eq!(matches[1].local_path, "data/dm.pdf");
    assert_eq!(matches[2].canonical_club, "SV B");
}

#[test]
fn groups_database_items_by_canonical_club() {
    let podium = vec!["SV B".to_string(), "Ahrensburger Schützengilde".to_string(), "SV B".to_string()];
    let matches = vec!["SV C".to_string(), "SV B".to_string()];
    let groups = database_groups(&podium, &matches);
    let clubs: Vec<&str> = groups.iter().map(|g| g.club.as_str()).collect();
    assert_eq!(clubs, vec!["Ahrensburger Schützengilde", "SV B", "SV C"]);
    assert_eq!(groups[1].podium_items, vec![0, 2]);
    assert_eq!(groups[1].participation_matches, vec![1]);
    assert!(groups[2].podium_items.is_empty());
}

#[test]
fn names_must_not_be_blank() {
    assert_eq!(required_name("  SV A "), Ok("SV A".to_string()));
    assert_eq!(required_name("   "), Err("Bitte einen Namen eingeben.".to_string()));
}

#[test]
fn database_rows_of_kind_team_are_team_results() {
    assert_eq!(database_result_kind("team"), PodiumResultKind::Team);
    assert_eq!(database_result_kind("individual"), PodiumResultKind::Individual);
    assert_eq!(database_result_kind("Team"), PodiumResultKind::Individual);
}

fn competition(scope: &str, association: Option<&str>, organizer: Option<&str>) -> pdf_explorer::storage::models::NewCompetition {
    pdf_explorer::storage::models::NewCompetition {
        code: format!("{scope}-2025"),
        name: "Meisterschaft".to_string(),
        year: 2025,
        scope: scope.to_string(),
        organizer: organizer.map(str::to_string),
        association_code: association.map(str::to_string),
        country_code: Some("DE".to_string()),
        date_from: None,
        date_to: None,
    }
}

#[test]
fn organizer_code_follows_the_competition_scope() {
    assert_eq!(competition_organizer_code(&competition("KM", Some("PI"), None)), Some("PI".to_string()));
    assert_eq!(competition_organizer_code(&competition("KM", None, None)), Some("OD".to_string()));
    assert_eq!(competition_organizer_code(&competition("LM", Some("NDSB"), Some("x"))), Some("NDSB".to_string()));
    assert_eq!(competition_organizer_code(&competition("DM", None, None)), Some("DSB".to_string()));
    assert_eq!(competition_organizer_code(&competition("WM", None, None)), Some("ISSF".to_string()));
    assert_eq!(competition_organizer_code(&competition("Olympia", None, None)), Some("IOC".to_string()));
    assert_eq!(competition_organizer_code(&competition("OLY", None, None)), Some("IOC".to_string()));
    assert_eq!(competition_organizer_code(&competition("Cup", None, Some("BSV"))), Some("BSV".to_string()));
    assert_eq!(competition_organizer_code(&competition("Cup", None, None)), None);
}

#[test]
fn like_filter_wraps_the_trimmed_search() {
    assert_eq!(like_filter(Some("  Kassau ")), Some("%Kassau%".to_string()));
    assert_eq!(like_filter(Some("   ")), None);
    assert_eq!(like_filter(None), None);
}

#[test]
fn merges_need_two_different_records() {
    assert_eq!(check_merge(MergeSubject::Club, 1, 2), Ok(()));
    assert_eq!(
        check_merge(MergeSubject::Club, 3, 3),
        Err("Quell- und Zielverein müssen unterschiedlich sein.".to_string())
    );
    assert_eq!(
        check_merge(MergeSubject::Athlete, 4, 4),
        Err("Quell- und Zielsportler müssen unterschiedlich sein.".to_string())
    );
}
