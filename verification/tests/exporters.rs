use pdf_explorer::ingest::{PdfChangeStatus, PdfClassification, PdfReportItem};
use std::path::PathBuf;

use pdf_explorer::export::exporters::{
    apply_manual_overrides, sort_entries, CombinedMatchKey, CombinedPodiumKey,
};
use pdf_explorer::export::CombinedExporter;
use pdf_explorer::export::{
    EntryScore, ManualNameOverrides, PodiumEntry, PodiumExportConfig, PodiumExporter,
    PodiumResultKind,
};
use pdf_explorer::sport_results::{
    EventInfo, IndividualResult, Rank, SportResultList, TeamMemberResult, TeamResult,
};

fn exporter(code: &str) -> PodiumExporter {
    PodiumExporter::new(PodiumExportConfig {
        crawl_report_path: PathBuf::from("reports/input.json"),
        json_output_path: PathBuf::from("reports/export.json"),
        html_output_path: PathBuf::from("reports/export.html"),
        focus_association_code: code.to_string(),
        max_place: 3,
        min_text_chars: 80,
        manual_overrides: ManualNameOverrides::default(),
    })
}

fn event() -> EventInfo {
    EventInfo {
        name: "Landesmeisterschaft".to_string(),
        date: Some("01.01.2025".to_string()),
        location: None,
        system: None,
        discipline_code: Some("1.10.10".to_string()),
        discipline: Some("Luftgewehr".to_string()),
        class_name: Some("Herren I".to_string()),
    }
}

fn team(rank: Option<u32>, association: &str, club: &str, member: &str, tenths: u64) -> TeamResult {
    TeamResult {
        event: event(),
        rank,
        association: association.to_string(),
        club: club.to_string(),
        total_tenths: tenths,
        members: vec![TeamMemberResult {
            start_number: 1,
            name: member.to_string(),
            total_tenths: tenths,
        }],
    }
}

fn individual(rank: Rank, name: &str, association: &str, club: &str, tenths: u64) -> IndividualResult {
    IndividualResult {
        event: event(),
        rank,
        start_number: 2,
        name: name.to_string(),
        association: association.to_string(),
        club: club.to_string(),
        series_tenths: Vec::new(),
        total_tenths: tenths,
    }
}

#[test]
fn exports_focus_placements_individuals_and_team_members() {
    let result_list = SportResultList {
        event: event(),
        team_results: vec![
            team(Some(2), "OD", "SchV Trittau", "Team Schütze", 1000),
            team(Some(4), "OD", "SchV Reinfeld", "Team Rang Vier", 900),
        ],
        individual_results: vec![
            individual(Rank::Place(1), "Einzel Schütze", "OD", "SchV Elmenhorst", 990),
            individual(Rank::Place(4), "Einzel Rang Vier", "OD", "SchV Reinfeld", 970),
            individual(Rank::Place(3), "Anderer Kreis", "SE", "Other", 980),
        ],
        out_of_competition_team_results: Vec::new(),
        out_of_competition_individual_results: Vec::new(),
    };

    let items = exporter("OD").export_items_from_result_list(
        &result_list,
        "landesmeisterschaften",
        "https://example.org/result.pdf",
        &PathBuf::from("data/downloads/result.pdf"),
    );

    assert_eq!(items.len(), 4);
    assert!(items.iter().any(|item| item.shooter == "Team Schütze"));
    assert!(items.iter().any(|item| item.shooter == "Einzel Schütze"));
    assert!(items.iter().any(|item| item.shooter == "Team Rang Vier"));
    assert!(items.iter().any(|item| item.shooter == "Einzel Rang Vier"));
    assert!(items
        .iter()
        .any(|item| item.canonical_club == "Schützenverein Trittau"));
    assert_eq!(items[0].association_name, "Stormarn");
    assert!(matches!(items[0].score, EntryScore::Tenths(1000)));
}

#[test]
fn exports_all_podium_associations_when_requested() {
    let result_list = SportResultList {
        event: event(),
        team_results: vec![team(Some(2), "SE", "SchV Beispiel", "Team SE", 1000)],
        individual_results: vec![individual(Rank::Place(3), "Einzel OD", "OD", "SchV Elmenhorst", 980)],
        out_of_competition_team_results: Vec::new(),
        out_of_competition_individual_results: Vec::new(),
    };

    let items = exporter("all").export_items_from_result_list(
        &result_list,
        "landesmeisterschaften",
        "https://example.org/result.pdf",
        &PathBuf::from("data/downloads/result.pdf"),
    );

    assert_eq!(items.len(), 2);
    assert!(items.iter().any(|item| item.association_code == "OD"));
    assert!(items.iter().any(|item| item.association_code == "SE"));
}

#[test]
fn skips_unranked_teams_and_not_started_individuals() {
    let result_list = SportResultList {
        event: event(),
        team_results: vec![team(None, "OD", "SchV A", "Ohne Rang", 1000)],
        individual_results: vec![individual(Rank::NotStarted, "Nicht Gestartet", "OD", "SchV A", 0)],
        out_of_competition_team_results: Vec::new(),
        out_of_competition_individual_results: Vec::new(),
    };
    let items = exporter(" OD ").export_items_from_result_list(
        &result_list,
        "lm",
        "u",
        &PathBuf::from("p.pdf"),
    );
    assert!(items.is_empty());
}

#[test]
fn exports_meyton_mixed_team_placements_for_known_focus_clubs() {
    let text = "\
VW112_K40_260516_1045 Finale
16.05.2026
1. SchV Elmenhorst
239 Burmeister, Anja 33846 5 Shot Series
240 Witt, Björn 33847 5 Shot Series
4. SchV Elmenhorst
241 Spät, Nicht 33848 5 Shot Series";
    let known_clubs = vec!["012 Schützenverein Elmenhorst".to_string()];
    let known_club_associations =
        vec![("Schützenverein Elmenhorst".to_string(), "OD".to_string())];

    let items = exporter("OD").export_meyton_team_items(
        text,
        &known_clubs,
        &known_club_associations,
        "landesmeisterschaften",
        "https://example.org/mixed.pdf",
        &PathBuf::from("data/mixed.pdf"),
    );

    assert_eq!(items.len(), 3);
    assert!(items.iter().any(|item| item.shooter == "Burmeister, Anja"));
    assert!(items.iter().any(|item| item.shooter == "Witt, Björn"));
    assert!(items.iter().any(|item| item.shooter == "Spät, Nicht"));
    assert!(items
        .iter()
        .all(|item| item.class_name.as_deref() == Some("Mixed")));
    assert!(items
        .iter()
        .all(|item| matches!(item.result_kind, PodiumResultKind::Individual)));
    assert!(items.iter().any(|item| item.rank == 1));
    assert!(items.iter().any(|item| item.rank == 4));
    assert_eq!(items[0].event_date.as_deref(), Some("16.05.2026"));
    assert_eq!(items[0].association_code, "OD");
}

#[test]
fn exports_later_meyton_sections_with_wrapped_names() {
    let text = "\
VW212_K10_260516_0915 Finale
16.05.2026
3. SchV Elmenhorst 300 5 Shot Series
627 Stempell, 33771 5 Shot Series
Christine Single Shot Series
628 Stempell, Ingmar 33844 5 Shot Series";
    let known_clubs = vec!["012 Schützenverein Elmenhorst".to_string()];
    let known_club_associations =
        vec![("Schützenverein Elmenhorst".to_string(), "OD".to_string())];

    let items = exporter("OD").export_meyton_team_items(
        text,
        &known_clubs,
        &known_club_associations,
        "landesmeisterschaften",
        "https://example.org/lp-mixed.pdf",
        &PathBuf::from("data/lp-mixed.pdf"),
    );

    assert_eq!(items.len(), 2);
    assert!(items.iter().any(|item| item.shooter == "Stempell, Christine"));
    assert!(items.iter().any(|item| item.shooter == "Stempell, Ingmar"));
    assert!(items.iter().all(|item| item.rank == 3));
    assert!(items
        .iter()
        .all(|item| matches!(item.result_kind, PodiumResultKind::Individual)));
    assert!(items
        .iter()
        .all(|item| item.discipline_code.as_deref() == Some("K10")));
    assert!(matches!(&items[0].score, EntryScore::MeytonRow(row) if row == "627 Stempell, 33771 5 Shot Series"));
}

#[test]
fn ignores_text_that_is_not_meyton() {
    let items = exporter("OD").export_meyton_team_items(
        "1. SchV Elmenhorst\n239 Burmeister, Anja 1",
        &vec!["Schützenverein Elmenhorst".to_string()],
        &Vec::new(),
        "lm",
        "u",
        &PathBuf::from("p.pdf"),
    );
    assert!(items.is_empty());
}

fn entry(shooter: &str, club: &str, rank: u32, discipline: Option<&str>) -> PodiumEntry {
    PodiumEntry {
        source_name: "landesmeisterschaften".to_string(),
        rank,
        result_kind: PodiumResultKind::Individual,
        shooter: shooter.to_string(),
        club: club.to_string(),
        canonical_club: "Schützenverein Reinfeld".to_string(),
        association_code: "OD".to_string(),
        association_name: "Stormarn".to_string(),
        discipline: discipline.map(ToString::to_string),
        discipline_code: Some("1.10".to_string()),
        class_name: None,
        event_name: "LM".to_string(),
        event_date: None,
        score: EntryScore::Tenths(1000),
        pdf_url: "https://example.org/lm.pdf".to_string(),
        local_path: PathBuf::from("data/lm.pdf"),
    }
}

#[test]
fn applies_manual_name_overrides_to_podium_export_items() {
    let mut items = vec![entry("R hl, Eberhard", "080 Schützenverein Reinfeld 1", 1, Some("Luftgewehr"))];
    let overrides = ManualNameOverrides {
        club_names: vec![(
            "Schützenverein Reinfeld".to_string(),
            "Schützenverein Reinfeld e.V.".to_string(),
        )],
        athlete_names: vec![("R hl, Eberhard".to_string(), "Rühl, Eberhard".to_string())],
    };

    apply_manual_overrides(&mut items, &overrides);

    assert_eq!(items[0].club, "080 Schützenverein Reinfeld 1");
    assert_eq!(items[0].canonical_club, "Schützenverein Reinfeld e.V.");
    assert_eq!(items[0].shooter, "Rühl, Eberhard");
}

#[test]
fn sorts_entries_by_shooter_club_rank_and_discipline() {
    let items = vec![
        entry("B", "X", 1, None),
        entry("A", "Y", 2, Some("b")),
        entry("A", "Y", 2, None),
        entry("A", "X", 3, None),
        entry("A", "Y", 1, Some("z")),
    ];
    let sorted = sort_entries(&items);
    let keys: Vec<(String, String, u32, Option<String>)> = sorted
        .iter()
        .map(|e| (e.shooter.clone(), e.club.clone(), e.rank, e.discipline.clone()))
        .collect();
    assert_eq!(
        keys,
        vec![
            ("A".to_string(), "X".to_string(), 3, None),
            ("A".to_string(), "Y".to_string(), 1, Some("z".to_string())),
            ("A".to_string(), "Y".to_string(), 2, None),
            ("A".to_string(), "Y".to_string(), 2, Some("b".to_string())),
            ("B".to_string(), "X".to_string(), 1, None),
        ]
    );
}

#[test]
fn combines_podium_and_participation_by_canonical_club() {
    let known_clubs = vec!["Ahrensburger Schützengilde".to_string()];
    let podium = vec![CombinedPodiumKey {
        club: "Ahrensburger SchG".to_string(),
        canonical_club: "Ahrensburger Schützengilde".to_string(),
        shooter: "Test, Tina".to_string(),
        rank: 1,
        discipline: Some("Luftgewehr".to_string()),
    }];
    let matches = vec![CombinedMatchKey {
        club: "Ahrensburger Schützengilde".to_string(),
        canonical_club: "Ahrensburger Schützengilde".to_string(),
        pdf_url: "https://example.org/dm.pdf".to_string(),
    }];
    let plan = CombinedExporter::plan(&known_clubs, &podium, &matches);
    assert_eq!(plan.clubs.len(), 1);
    assert_eq!(plan.clubs[0].podium_items.len(), 1);
    assert_eq!(plan.clubs[0].participation_matches.len(), 1);
    assert_eq!(plan.clubs[0].club, "Ahrensburger Schützengilde");
    assert_eq!(plan.club_count, 1);
    assert_eq!(plan.podium_item_count, 1);
    assert_eq!(plan.participation_match_count, 1);
}

#[test]
fn combined_plan_orders_clubs_and_items() {
    let known_clubs = vec!["SV Bargteheide".to_string(), "Ahrensburger SG".to_string()];
    let key = |club: &str, shooter: &str, rank: u32| CombinedPodiumKey {
        club: club.to_string(),
        canonical_club: String::new(),
        shooter: shooter.to_string(),
        rank,
        discipline: None,
    };
    let podium = vec![
        key("SV Bargteheide", "Zahn, Udo", 2),
        key("SV Bargteheide", "Abel, Ina", 3),
        key("Ahrensburger SG", "Berg, Tom", 1),
    ];
    let matches = vec![
        CombinedMatchKey {
            club: "SV Bargteheide".to_string(),
            canonical_club: "SV Bargteheide".to_string(),
            pdf_url: "https://example.org/b.pdf".to_string(),
        },
        CombinedMatchKey {
            club: "SV Bargteheide".to_string(),
            canonical_club: "SV Bargteheide".to_string(),
            pdf_url: "https://example.org/a.pdf".to_string(),
        },
    ];
    let plan = CombinedExporter::plan(&known_clubs, &podium, &matches);
    let clubs: Vec<&str> = plan.clubs.iter().map(|g| g.club.as_str()).collect();
    assert_eq!(clubs, vec!["Ahrensburger SG", "SV Bargteheide"]);
    assert_eq!(plan.clubs[0].podium_items, vec![2]);
    assert_eq!(plan.clubs[1].podium_items, vec![1, 0]);
    assert_eq!(plan.clubs[1].participation_matches, vec![1, 0]);
    assert_eq!(plan.podium_clubs, vec!["SV Bargteheide", "SV Bargteheide", "Ahrensburger SG"]);
    assert_eq!((plan.club_count, plan.podium_item_count, plan.participation_match_count), (2, 3, 2));
}

fn pdf(url: &str, classification: PdfClassification) -> PdfReportItem {
    PdfReportItem {
        url: url.to_string(),
        status: PdfChangeStatus::New,
        classification,
        local_path: None,
        manual_review_path: None,
        etag: None,
        last_modified: None,
        sha256: None,
        file_size_bytes: None,
        text_char_count: Some(5),
        needs_ocr: Some(true),
        david21_summary: None,
        error: None,
    }
}

#[test]
fn podium_summary_counts_sorts_and_lists_manual_review_pdfs() {
    let entries = vec![
        entry("Zahn, Udo", "SchV Reinfeld", 2, None),
        entry("Abel, Ina", "SchV Reinfeld", 1, None),
    ];
    let pdfs = vec![
        pdf("https://example.org/a.pdf", PdfClassification::ManualReview),
        pdf("https://example.org/b.pdf", PdfClassification::David21),
        pdf("https://example.org/c.pdf", PdfClassification::Unknown),
    ];
    let summary = exporter("OD").summary(entries, "landesmeisterschaften", &pdfs, 7);
    assert_eq!(summary.item_count, 2);
    assert_eq!(summary.items[0].shooter, "Abel, Ina");
    assert_eq!(summary.items[1].shooter, "Zahn, Udo");
    let urls: Vec<&str> = summary.manual_review_pdfs.iter().map(|p| p.url.as_str()).collect();
    assert_eq!(urls, vec!["https://example.org/a.pdf", "https://example.org/c.pdf"]);
    assert_eq!(summary.manual_review_count, 7);
    assert_eq!(summary.source_report_path, PathBuf::from("reports/input.json"));
    assert_eq!(summary.focus_association_code, "OD");
    assert_eq!(summary.max_place, 3);
    assert_eq!(summary.source_name, "landesmeisterschaften");
}
