use pdf_explorer::export::PodiumResultKind;
use pdf_explorer::import::participation;
use pdf_explorer::import::podium::{
    canonical_result_fingerprint, canonical_team_name, conflict_status, first_four_digit_year,
    item_canonical_club, item_year, medal_for_rank, parsed_row_fingerprint,
    result_kind, sha256_hex, source_result_fingerprint, source_scope, team_canonical_fingerprint,
    team_number_from_raw_club, year_from_path, ImportedItems, ManualOverrideSet,
};

#[test]
fn extracts_year_from_path() {
    assert_eq!(participation::first_four_digit_year("ndsb-2026-dm"), Some(2026));
}

#[test]
fn extracts_year_from_event_name() {
    assert_eq!(
        first_four_digit_year("Landesmeisterschaft 2026"),
        Some(2026)
    );
}

#[test]
fn extracts_year_from_german_event_date() {
    assert_eq!(
        item_year(
            &Some("30.05.2026".to_owned()),
            "Landesmeisterschaft 2026",
            "data/archive/2026/landesmeisterschaften/downloads/1.80.40.pdf"
        ),
        Some(2026)
    );
}

#[test]
fn source_fingerprints_include_hash_source_year_discipline_rank_and_name() {
    assert_eq!(
        source_result_fingerprint(
            "landesmeisterschaften",
            &Some("1.80.40".to_owned()),
            &Some("KK liegend".to_owned()),
            &PodiumResultKind::Individual,
            2,
            "abc",
            2026,
            "Soares dos Reis, Maximilian"
        ),
        "abc|landesmeisterschaften|2026|1.80.40|individual|2|Soares dos Reis, Maximilian"
    );
}

#[test]
fn canonical_fingerprints_do_not_include_input_hash() {
    assert_eq!(
        canonical_result_fingerprint(
            "landesmeisterschaften",
            &Some("1.80.40".to_owned()),
            &Some("KK liegend".to_owned()),
            &PodiumResultKind::Individual,
            2,
            2026,
            "Soares dos Reis, Maximilian"
        ),
        "landesmeisterschaften|2026|1.80.40|individual|2|Soares dos Reis, Maximilian"
    );
}

#[test]
fn extracts_team_number_from_raw_club_suffix() {
    assert_eq!(
        team_number_from_raw_club("Ahrensburger SchG I"),
        Some("I".to_owned())
    );
    assert_eq!(
        team_number_from_raw_club("080 Schützenverein Reinfeld 1"),
        Some("1".to_owned())
    );
    assert_eq!(team_number_from_raw_club("Schützenverein Reinfeld"), None);
}

#[test]
fn reads_years_from_dates_names_and_paths() {
    assert_eq!(item_year(&Some("30.05.2026".to_string()), "Meisterschaft", "x.pdf"), Some(2026));
    assert_eq!(item_year(&Some("31.02.2026".to_string()), "Meisterschaft", "x.pdf"), None);
    assert_eq!(first_four_digit_year("x12345 2025"), Some(2025));
    assert_eq!(first_four_digit_year("no year"), None);
    assert_eq!(year_from_path("data/archive/2024/lm/a.pdf"), Some(2024));
    assert_eq!(
        item_year(&None, "Meisterschaft", "reports/2023/x.pdf"),
        Some(2023)
    );
}

#[test]
fn names_scopes_kinds_and_medals() {
    assert_eq!(source_scope("deutsche-meisterschaften"), "DM");
    assert_eq!(source_scope("kreismeisterschaften"), "KM");
    assert_eq!(source_scope("landesmeisterschaften"), "LM");
    assert_eq!(result_kind(&PodiumResultKind::Team), "team");
    assert_eq!(medal_for_rank(1), Some("gold"));
    assert_eq!(medal_for_rank(3), Some("bronze"));
    assert_eq!(medal_for_rank(4), None);
}

#[test]
fn builds_row_and_team_fingerprints() {
    assert_eq!(parsed_row_fingerprint("abc", 7), "abc|row|7");
    assert_eq!(
        participation::parsed_row_fingerprint("abc", -1),
        "abc|participation-row|-1"
    );
    assert_eq!(
        team_canonical_fingerprint(
            "lm",
            &None,
            &Some("LG".to_owned()),
            &Some("Herren I".to_owned()),
            1,
            2026,
            "SV A I",
            &Some("I".to_owned())
        ),
        "lm|2026|LG|team|1|SV A I|I|Herren I"
    );
    assert_eq!(canonical_team_name("SV A", &Some("II".to_owned())), "SV A II");
    assert_eq!(
        participation::canonical_result_fingerprint("dm", "u", 2026, "SV A", None),
        "dm|2026|participation|SV A|club-only|u"
    );
}

#[test]
fn detects_conflicting_results() {
    assert_eq!(conflict_status(&None, "f", "p"), "none");
    assert_eq!(
        conflict_status(&Some((Some("f".to_owned()), None)), "f", "p"),
        "none"
    );
    assert_eq!(
        conflict_status(&Some((Some("g".to_owned()), Some("q".to_owned()))), "f", "p"),
        "conflict"
    );
    assert_eq!(item_canonical_club("080 SV A", "  "), "080 SV A");
}

#[test]
fn applies_manual_corrections_with_later_entries_winning() {
    let set = ManualOverrideSet::from_entries(
        vec![("SV A".to_owned(), "Verein A".to_owned())],
        vec![("SV A".to_owned(), "Schützenverein A".to_owned())],
        vec![("Mueller, Tim".to_owned(), "Müller, Tim".to_owned())],
    );
    assert_eq!(set.club_name("raw", "SV A"), "Schützenverein A");
    assert_eq!(set.club_name("SV A", "other"), "Schützenverein A");
    assert_eq!(set.club_name("x", "y"), "y");
    assert_eq!(set.athlete_name("Mueller, Tim"), "Müller, Tim");
    assert_eq!(set.athlete_name("Other"), "Other");
}

#[test]
fn hashes_input_bytes_as_lowercase_hex() {
    assert_eq!(
        sha256_hex(b"abc"),
        "ba7816bf8f01cfea414140de5dae2223b00361a396177a9cb410ff61f20015ad"
    );
}

#[test]
fn import_counts_tell_new_rows_from_repeated_ones() {
    let mut counts = ImportedItems::new();
    counts.record_podium_item("none", true, true);
    counts.record_podium_item("conflict", true, false);
    counts.record_podium_item("none", false, false);
    counts.record_participation_row(false, true);
    assert_eq!(counts.rows_read(), 4);
    assert_eq!(counts.imported_parser_rows, 2);
    assert_eq!(counts.skipped_duplicate_parser_rows, 2);
    assert_eq!(counts.imported_results, 2);
    assert_eq!(counts.skipped_duplicate_results, 2);
    assert_eq!(counts.conflict_count, 1);
}
