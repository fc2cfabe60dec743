use pdf_explorer::sport_results::SportResultsError;
use pdf_explorer::sport_results::{normalize_club_name, Rank, SportResultsParser};

#[test]
fn parses_team_and_individual_rows_from_david21_text() {
    let text = r"
Landesmeisterschaft 2025
der am 14.06.2025     in Kellinghusen DV-System DAVID21+
Ergebnisliste Mannschaft 1.10.10
Luftgewehr Herren I Seite: 1
1 OH  SSV Kassau I 1204,6 Ringen
430 Dietmayr, Markus  405,3
431 Jeger, Florian  406,3
Ergebnisliste Einzel 1.10.10
Luftgewehr Herren I Seite: 1
1 431 Jeger, Florian  OH  SSV Kassau I 98,2 103,2 99,1 105,8 406,3
na 926 Bechtel, Finn  14  SchV Wilster 0,0
Außer Konkurrenz haben geschossen:
436 Venohr, Paul  OH  SSV Kassau II 96,7 96,4 98,9 99,6 391,6
";

    let result = SportResultsParser::new().parse(text).unwrap();

    assert_eq!(result.event.discipline_code.as_deref(), Some("1.10.10"));
    assert_eq!(result.team_results.len(), 1);
    assert_eq!(result.team_results[0].club, "SSV Kassau");
    assert_eq!(result.team_results[0].members.len(), 2);
    assert_eq!(result.individual_results.len(), 2);
    assert_eq!(result.out_of_competition_individual_results.len(), 1);
    assert_eq!(result.individual_results[0].rank, Rank::Place(1));
    assert_eq!(result.individual_results[0].club, "SSV Kassau");
    assert_eq!(result.individual_results[1].rank, Rank::NotStarted);
    assert_eq!(
        result.out_of_competition_individual_results[0].rank,
        Rank::OutOfCompetition
    );
}

#[test]
fn parses_team_rows_without_ringen_suffix() {
    let text = r"
Landesmeisterschaft 2026
der am 30.05.2026          in Kellinghusen                               DV-System DAVID21+
Ergebnisliste Mannschaft                                                          1.15.20
Luftgewehr Liegendkampf                            Schüler I                      Seite:   1
Stand: 31.05.2026              11:37   Uhr                      Gesamt
1   RZ 011       Schwarzenbeker SchG I                       937,4
490 Arlt, Alexander                311,8
491 Janshen, Gotje                 314,1
492 Metzing, Emma                  311,5
3   OD 080       SchV Elmenhorst                             603,8
1039   Behrens, Joris Velten          0,0
1040   Knolinski, Sofia             303,1
1041   Roß, Liv                     300,7
Ergebnisliste Einzel                                                                            1.15.21
Luftgewehr Liegendkampf                            Schüler I weiblich                       Seite:    1
1    491 Janshen, Gotje                RZ 011   Schwarzenbeker SchG I   105,0 105,1 104,0       314,1
";

    let result = SportResultsParser::new().parse(text).unwrap();

    assert_eq!(result.team_results.len(), 2);
    assert_eq!(result.team_results[0].rank, Some(1));
    assert_eq!(result.team_results[0].association, "RZ");
    assert_eq!(result.team_results[0].club, "011 Schwarzenbeker SchG");
    assert_eq!(result.team_results[0].members.len(), 3);
    assert_eq!(result.team_results[1].rank, Some(3));
    assert_eq!(result.team_results[1].association, "OD");
    assert_eq!(result.team_results[1].club, "080 SchV Elmenhorst");
    assert_eq!(result.team_results[1].members.len(), 3);
}

#[test]
fn parses_team_rows_with_integer_totals() {
    let text = r"
Landesmeisterschaft 2026
der am 13.06.2026        in Kellinghusen                              DV-System DAVID21+
Ergebnisliste Mannschaft                                                       1.20.20
Luftgewehr-3-Stellung                            Schüler I                     Seite:   1
Stand: 13.06.2026            17:48 Uhr                       Gesamt
1   OD 080       SchV Elmenhorst                          1595 Ringen
1039 Behrens, Joris Velten         503
1040 Knolinski, Sofia              543
1041 Roß, Liv                      549
2   OH 080       Lensahner SchG                           1534 Ringen
1193 Hamer, Theo                   519
1194 Meisburger, Oliver Marvin     511
1197 Schöning, Tjalf               504
Außer Konkurrenz haben geschossen:
OH 080       SSV Kassau                               1726 Ringen
907 Arlt, Alexander               555
908 Janshen, Gotje                589
906 Metzing, Emma                 582
Ergebnisliste Einzel                                                                                                    1.20.20
Luftgewehr-3-Stellung                        Schüler I                                                                  Seite:   1
1 1088 Gesswein, Malte         OD 012 SchV Reinfeld      89    86    175    95    95    190     88    90    178     543
";

    let result = SportResultsParser::new().parse(text).unwrap();

    assert_eq!(result.team_results.len(), 2);
    assert_eq!(result.team_results[0].rank, Some(1));
    assert_eq!(result.team_results[0].association, "OD");
    assert_eq!(result.team_results[0].club, "080 SchV Elmenhorst");
    assert_eq!(result.team_results[0].total_tenths, 15950);
    assert_eq!(result.team_results[0].members.len(), 3);
    assert_eq!(result.team_results[0].members[0].total_tenths, 5030);
    assert_eq!(result.out_of_competition_team_results.len(), 1);
    assert_eq!(
        result.out_of_competition_team_results[0].club,
        "080 SSV Kassau"
    );
    assert_eq!(result.out_of_competition_team_results[0].rank, None);
}

#[test]
fn parses_individual_rows_with_variable_series_count() {
    let text = r"
Landesmeisterschaft 2025
der am 06.07.2025     in Kellinghusen DV-System DAVID21+
Ergebnisliste Einzel 1.80.30
KK-Liegendkampf 50 m Jugend Seite: 1
2 770 Albers, Elia  OD  SchV Reinfeld 100,9 98,1 96,5 98,9 93,2 96,9 584,5
";

    let result = SportResultsParser::new().parse(text).unwrap();

    assert_eq!(result.individual_results.len(), 1);
    assert_eq!(result.individual_results[0].club, "SchV Reinfeld");
    assert_eq!(result.individual_results[0].series_tenths.len(), 6);
}

#[test]
fn parses_tied_individual_rows_without_repeated_rank() {
    let text = r"
Landesmeisterschaft 2026
der am 27.06.2026     in Kellinghusen DV-System DAVID21+
Ergebnisliste Einzel 2.90.10
NDSB-Pistole/-Revolver Herren I Seite: 1
1 588 Peters, Helge       PI 013 SchV Quickborn-Renzel I 37 41 78
2 589 Dau, Reiner         PI 013 SchV Quickborn-Renzel I 37 39 76
1028 Scharnberg, Bettina  OD 012 SchV Bargteheide 37 39 76
4 703 Reckendorf, Dirk    RD 004 Erster Eckernförder SchV 37 36 73
";

    let result = SportResultsParser::new().parse(text).unwrap();
    let scharnberg = result
        .individual_results
        .iter()
        .find(|result| result.name == "Scharnberg, Bettina")
        .expect("tied individual result is parsed");

    assert_eq!(scharnberg.rank, Rank::Place(2));
    assert_eq!(scharnberg.association, "OD");
    assert_eq!(scharnberg.club, "012 SchV Bargteheide");
}

#[test]
fn keeps_individual_rows_attached_to_their_page_header() {
    let text = r"
Landesmeisterschaft 2026
der am 13.06.2026     in Kellinghusen DV-System DAVID21+
Ergebnisliste Einzel 1.35.13
KK-Gewehr 100m Damen II Seite: 1
3 1036 Stempell, Christine OD 012 SchV Elmenhorst 87 90 94 271
Ergebnisliste Einzel 1.35.41
KK-Gewehr 100m Junioren I weiblich Seite: 1
1 438 Beneke, Lea Sophie HL 010 Lübecker SpSch 96 97 77 268
";

    let result = SportResultsParser::new().parse(text).unwrap();
    let stempell = result
        .individual_results
        .iter()
        .find(|result| result.name == "Stempell, Christine")
        .expect("Stempell result is parsed");

    assert_eq!(stempell.event.discipline_code.as_deref(), Some("1.35.13"));
    assert_eq!(stempell.event.discipline.as_deref(), Some("KK-Gewehr 100m"));
    assert_eq!(stempell.event.class_name.as_deref(), Some("Damen II"));
}

#[test]
fn normalizes_club_names_for_team_suffixes_and_extraction_artifacts() {
    assert_eq!(
        normalize_club_name("Ahrensburger SchG I"),
        "Ahrensburger SchG"
    );
    assert_eq!(
        normalize_club_name("0... SchV Klein Wesenberg"),
        "SchV Klein Wesenberg"
    );
    assert_eq!(
        normalize_club_name("Sülfelder Schützengilde von 1888 e.V."),
        "Sülfelder Schützengilde von 1888 e.V."
    );
}

#[test]
fn parse_full_david21_workflow() {
    let text = "\
Landesmeisterschaft 2025
der am 14.06.2025     in Kellinghusen DV-System DAVID21+
Ergebnisliste Mannschaft 1.10.10
Luftgewehr Herren I Seite: 1
1 OH  SSV Kassau I 1204,6 Ringen
430 Dietmayr, Markus  405,3
431 Jeger, Florian  406,3
Ergebnisliste Einzel 1.10.10
Luftgewehr Herren I Seite: 1
1 431 Jeger, Florian  OH  SSV Kassau I 98,2 103,2 99,1 105,8 406,3
na 926 Bechtel, Finn  14  SchV Wilster 0,0
Außer Konkurrenz haben geschossen:
436 Venohr, Paul  OH  SSV Kassau II 96,7 96,4 98,9 99,6 391,6
";

    let parser = SportResultsParser::new();
    let result = parser.parse(text).expect("parsing succeeds");

    assert_eq!(result.event.name, "Landesmeisterschaft 2025");
    assert_eq!(result.event.discipline_code.as_deref(), Some("1.10.10"));
    assert_eq!(result.team_results.len(), 1);
    assert_eq!(result.team_results[0].club, "SSV Kassau");
    assert_eq!(result.team_results[0].members.len(), 2);
    assert_eq!(result.individual_results.len(), 2);
    assert_eq!(result.out_of_competition_individual_results.len(), 1);
    assert_eq!(result.individual_results[0].rank, Rank::Place(1));
    assert_eq!(result.individual_results[1].rank, Rank::NotStarted);
    assert_eq!(
        result.out_of_competition_individual_results[0].rank,
        Rank::OutOfCompetition
    );
}

#[test]
fn parse_individual_result_with_multiple_series() {
    let text = "\
Landesmeisterschaft 2025
der am 06.07.2025     in Kellinghusen DV-System DAVID21+
Ergebnisliste Einzel 1.80.30
KK-Liegendkampf 50 m Jugend Seite: 1
2 770 Albers, Elia  OD  SchV Reinfeld 100,9 98,1 96,5 98,9 93,2 96,9 584,5
";

    let parser = SportResultsParser::new();
    let result = parser.parse(text).expect("parsing succeeds");

    assert_eq!(result.individual_results.len(), 1);
    assert_eq!(result.individual_results[0].club, "SchV Reinfeld");
    assert_eq!(result.individual_results[0].series_tenths.len(), 6);
    assert_eq!(result.individual_results[0].rank, Rank::Place(2));
}

#[test]
fn reads_event_header_and_scores_in_tenths() {
    let text = "\
Landesmeisterschaft 2025
der am 14.06.2025     in Kellinghusen DV-System DAVID21+
Ergebnisliste Einzel 1.10.10
Luftgewehr Herren I Seite: 1
1 431 Jeger, Florian  OH  SSV Kassau I 98,2 103,2 99,1 105,8 406,3
";
    let result = SportResultsParser::new().parse(text).unwrap();
    assert_eq!(result.event.date.as_deref(), Some("14.06.2025"));
    assert_eq!(result.event.location.as_deref(), Some("Kellinghusen"));
    assert_eq!(result.event.system.as_deref(), Some("DV-System DAVID21+"));
    assert_eq!(result.event.discipline.as_deref(), Some("Luftgewehr"));
    assert_eq!(result.event.class_name.as_deref(), Some("Herren I"));
    let row = &result.individual_results[0];
    assert_eq!(row.start_number, 431);
    assert_eq!(row.name, "Jeger, Florian");
    assert_eq!(row.series_tenths, vec![982, 1032, 991, 1058]);
    assert_eq!(row.total_tenths, 4063);
}

#[test]
fn rejects_team_rank_that_does_not_fit() {
    let text = "\
Meisterschaft
Ergebnisliste Mannschaft 1.10.10
99999999999 OH SSV Kassau 1204,6 Ringen
";
    let result = SportResultsParser::new().parse(text);
    assert_eq!(
        result.err(),
        Some(pdf_explorer::sport_results::SportResultsError::InvalidTeamRank)
    );
}

#[test]
fn errors_say_which_value_was_invalid() {
    assert_eq!(SportResultsError::InvalidTeamRank.message(), "invalid team rank");
    assert_eq!(SportResultsError::InvalidTeamMemberStartNumber.message(), "invalid team member start number");
    assert_eq!(SportResultsError::InvalidIndividualRank.message(), "invalid individual rank");
    assert_eq!(SportResultsError::InvalidIndividualStartNumber.message(), "invalid individual start number");
    assert_eq!(SportResultsError::InvalidDecimalValue.message(), "invalid decimal value");
}

#[test]
fn rows_with_other_decimal_digits_are_recognised_but_not_read() {
    let text = "Landesmeisterschaft 2025\nErgebnisliste Mannschaft 1.10.10\nLuftgewehr Herren I Seite: 1\n1 OH  SSV Kassau I 1204,6 Ringen\n\u{664}\u{663}\u{660} Dietmayr, Markus  405,3\n";
    let error = SportResultsParser::new().parse(text).unwrap_err();
    assert_eq!(error, SportResultsError::InvalidTeamMemberStartNumber);

    let score = "Landesmeisterschaft 2025\nErgebnisliste Mannschaft 1.10.10\nLuftgewehr Herren I Seite: 1\n1 OH  SSV Kassau I 1204,\u{666} Ringen\n";
    let error = SportResultsParser::new().parse(score).unwrap_err();
    assert_eq!(error, SportResultsError::InvalidDecimalValue);
}

#[test]
fn dates_in_other_decimal_digits_are_kept_as_written() {
    let text = "Landesmeisterschaft 2025\nder am \u{661}\u{664}.06.2025 in Kellinghusen DV-System DAVID21+\n";
    let result = SportResultsParser::new().parse(text).unwrap();
    assert_eq!(result.event.date.as_deref(), Some("\u{661}\u{664}.06.2025"));
    assert_eq!(result.event.location.as_deref(), Some("Kellinghusen"));
}

#[test]
fn archery_sheet_without_result_list_header_gives_empty_lists() {
    let text = "\n   NDSB Bogen Landesmeisterschaft 2025  \nRecurve Herren 1 Meyer, Jan 612\n";
    let result = SportResultsParser::new().parse(text).unwrap();
    assert_eq!(result.event.name, "NDSB Bogen Landesmeisterschaft 2025");
    assert!(result.team_results.is_empty());
    assert!(result.individual_results.is_empty());
    assert!(result.out_of_competition_team_results.is_empty());
    assert!(result.out_of_competition_individual_results.is_empty());
    let empty = SportResultsParser::new().parse("").unwrap();
    assert_eq!(empty.event.name, "");
}
