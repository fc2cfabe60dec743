use pdf_explorer::application::query::{
    AthleteRow, ClubRow, CombinedEvaluationRow, ImportRunRow, ManualOverrideRow, ParsedIssueRow,
    ParserRunRow, ResultRow, SourceDocumentRow, TeamMemberRow, TeamRow,
};
use pdf_explorer::web::views::{
    active_override_count, athlete_filter_form, athlete_filters, athlete_rows_html,
    club_alias_rows_html, club_filter_form, club_filters, club_rows_html, combined_filter_form,
    combined_filters, combined_rows_html, correction_prefill_links, correction_rows_html,
    discipline_issue_cell, import_run_rows_html, parser_issue_rows_html, parser_run_rows_html,
    query_i64, result_filter_form, result_filters, result_type_label, source_rows_html,
    team_filter_form, team_filters, ClubAliasListRow, club_alias_request, form_value,
    manual_override_from_form, result_rows_html, team_member_rows_html, team_rows_html,
};
use pdf_explorer::web::parse_form_urlencoded;
use pdf_explorer::web::PageState;

fn query(items: &[(&str, &str)]) -> Vec<(String, String)> {
    let mut v: Vec<(String, String)> = items
        .iter()
        .map(|(k, v)| (k.to_string(), v.to_string()))
        .collect();
    v.sort();
    v
}

fn issue() -> ParsedIssueRow {
    ParsedIssueRow {
        id: 9,
        source_name: "lm".to_string(),
        competition_year: 2026,
        competition_scope: "LM".to_string(),
        conflict_status: "conflict".to_string(),
        raw_shooter_name: Some("R hl, Eberhard".to_string()),
        normalized_shooter_name: Some("Rühl, Eberhard".to_string()),
        raw_club_name: Some("SV A".to_string()),
        normalized_club_name: None,
        raw_discipline: Some("Luftgewehr".to_string()),
        discipline_code: Some("1.10".to_string()),
        class_name: Some("  ".to_string()),
        event_name: None,
        pdf_url: Some("https://example.org/a.pdf".to_string()),
    }
}

#[test]
fn reads_listing_filters_from_the_query() {
    let q = query(&[("q", "  Tina "), ("year", "2026"), ("kreis", "OD"), ("wertung", "team"), ("verein", "")]);
    let f = result_filters(&q);
    assert_eq!(f.search.as_deref(), Some("Tina"));
    assert_eq!(f.year, Some(2026));
    assert_eq!(f.association_code.as_deref(), Some("OD"));
    assert_eq!(f.result_kind.as_deref(), Some("team"));
    assert_eq!(f.scope, None);
    assert_eq!(athlete_filters(&q).club, None);
    assert_eq!(club_filters(&q).association_code.as_deref(), Some("OD"));
    assert_eq!(team_filters(&q).year, Some(2026));
    assert_eq!(combined_filters(&q).association_code, None);
    assert_eq!(query_i64(&query(&[("year", "abc")]), "year"), None);
    assert_eq!(query_i64(&query(&[("year", " -5 ")]), "year"), Some(-5));
}

#[test]
fn renders_filter_forms_with_escaped_values() {
    let page = PageState { page: 1, page_size: 100 };
    let f = result_filters(&query(&[("q", "<b>"), ("wertung", "individual")]));
    let form = result_filter_form(&f, "/results", page);
    assert!(form.starts_with("<form class=\"filter-bar\" method=\"get\" action=\"/results\">"));
    assert!(form.contains("<input name=\"q\" value=\"&lt;b&gt;\">"));
    assert!(form.contains("<option value=\"individual\" selected>Einzel</option>"));
    assert!(form.contains("<option value=\"team\" >Mannschaft</option>"));
    assert!(form.contains("<input type=\"hidden\" name=\"page_size\" value=\"100\">"));
    assert!(form.ends_with("<a href=\"/results\">Zuruecksetzen</a></div>\n</form>"));
    let athletes = athlete_filter_form(&athlete_filters(&query(&[("verein", "SV")])), "/athletes", page);
    assert!(athletes.contains("<label>Verein <input name=\"verein\" value=\"SV\"></label>"));
    let clubs = club_filter_form(&club_filters(&query(&[("year", "2025")])), "/clubs", page);
    assert!(clubs.contains("placeholder=\"OD\"></label>\n  <label>Jahr <input name=\"year\" inputmode=\"numeric\" value=\"2025\"></label>"));
    let teams = team_filter_form(&team_filters(&query(&[])), "/teams", page);
    assert!(teams.contains("<label>Ursprung <input name=\"scope\" value=\"\" placeholder=\"LM, DM, KM\"></label>"));
    let combined = combined_filter_form(&combined_filters(&query(&[("verein", "X")])), "/combined", page);
    assert!(combined.contains("<label>Verein <input name=\"verein\" value=\"X\"></label>"));
}

#[test]
fn renders_listing_rows() {
    let runs = vec![ImportRunRow {
        id: 3,
        source_name: "lm".to_string(),
        run_kind: "podium".to_string(),
        parser_name: Some("p".to_string()),
        parser_version: Some("1".to_string()),
        input_path: None,
        status: "ok".to_string(),
        started_at: "a".to_string(),
        finished_at: Some("b".to_string()),
        result_count: 12,
    }];
    assert_eq!(
        import_run_rows_html(&runs),
        "<tr><td><a href=\"/import-runs/3/results\">#3</a></td><td>lm</td><td>podium</td><td>p 1</td><td>ok</td><td></td><td>a bis b</td><td class=\"num\">12</td></tr>\n"
    );
    let athletes = vec![AthleteRow { id: 1, canonical_name: "A & B".to_string(), result_count: 2, club_count: 1, latest_year: None }];
    assert_eq!(
        athlete_rows_html(&athletes),
        "<tr><td class=\"num\">1</td><td><a href=\"/athletes/1\">A &amp; B</a></td><td class=\"num\">2</td><td class=\"num\">1</td><td class=\"num\"></td></tr>\n"
    );
    let clubs = vec![ClubRow { id: 2, canonical_name: "SV".to_string(), association_code: Some("OD".to_string()), result_count: 5, athlete_count: 3, latest_year: Some(2026) }];
    assert_eq!(
        club_rows_html(&clubs),
        "<tr><td class=\"num\">2</td><td><a href=\"/clubs/2\">SV</a></td><td>OD</td><td class=\"num\">5</td><td class=\"num\">3</td><td class=\"num\">2026</td></tr>\n"
    );
    assert_eq!(club_rows_html(&Vec::new()), "");
    let sources = vec![SourceDocumentRow { id: 4, source_name: "lm".to_string(), url: "u".to_string(), local_path: None, sha256: None, classification: "david21".to_string(), result_count: 1, parser_row_count: 2 }];
    assert_eq!(
        source_rows_html(&sources),
        "<tr><td class=\"num\">4</td><td><a href=\"/sources/4\">lm</a></td><td><a href=\"u\">PDF</a></td><td>david21</td><td></td><td class=\"num\">1</td><td class=\"num\">2</td></tr>\n"
    );
    let parser_runs = vec![ParserRunRow { id: 5, source_name: "lm".to_string(), source_kind: "pdf".to_string(), parser_name: "p".to_string(), parser_version: "".to_string(), input_path: "in".to_string(), status: "ok".to_string(), started_at: "s".to_string(), finished_at: None, parsed_row_count: 7, issue_count: 0 }];
    assert_eq!(
        parser_run_rows_html(&parser_runs),
        "<tr><td class=\"num\"><a href=\"/parser-runs/5\">5</a></td><td>lm</td><td>pdf</td><td>p</td><td>ok</td><td>s</td><td>in</td><td class=\"num\">7</td><td class=\"num\">0</td></tr>\n"
    );
}

#[test]
fn renders_corrections_aliases_and_combined_rows() {
    let overrides = vec![
        ManualOverrideRow { id: 1, scope: "global".to_string(), entity_type: "club".to_string(), field_name: "canonical_name".to_string(), old_value: "a".to_string(), new_value: "b".to_string(), reason: None, status: "active".to_string(), created_at: "c".to_string(), updated_at: "u".to_string() },
        ManualOverrideRow { id: 2, scope: "global".to_string(), entity_type: "athlete".to_string(), field_name: "canonical_name".to_string(), old_value: "a".to_string(), new_value: "b".to_string(), reason: Some("r".to_string()), status: "revoked".to_string(), created_at: "c".to_string(), updated_at: "u".to_string() },
    ];
    assert_eq!(active_override_count(&overrides), 1);
    let html = correction_rows_html(&overrides);
    assert!(html.starts_with("<tr><td class=\"num\">1</td><td>Verein</td>"));
    assert!(html.contains("action=\"/corrections/1/revoke\""));
    assert!(!html.contains("/corrections/2/revoke"));
    assert!(html.contains("<td>Sportler</td>"));
    let aliases = vec![ClubAliasListRow { id: 7, club_id: 2, alias: "SV 1".to_string(), canonical_name: "SV".to_string(), association_code: None, source: Some("web".to_string()), status: "active".to_string() }];
    assert_eq!(
        club_alias_rows_html(&aliases),
        "<tr><td class=\"num\">7</td><td>SV 1</td><td><a href=\"/clubs/2\">SV</a></td><td></td><td>web</td><td>active</td><td><form class=\"inline\" method=\"post\" action=\"/club-aliases/7/deactivate\"><button type=\"submit\">Deaktivieren</button></form></td></tr>\n"
    );
    let combined = vec![CombinedEvaluationRow { athlete_id: Some(1), athlete_name: Some("T".to_string()), club_id: None, club_name: Some("SV".to_string()), year: 2026, lm_rank: Some(1), lm_medal: Some("Gold".to_string()), lm_result_kind: "individual".to_string(), lm_discipline: None, lm_event_class: None, has_dm_participation: 1 }];
    assert_eq!(
        combined_rows_html(&combined),
        "<tr><td><a href=\"/athletes/1\">T</a></td><td>SV</td><td class=\"num\">2026</td><td></td><td></td><td>Einzel</td><td class=\"num\">1</td><td>Gold</td><td>ja</td></tr>\n"
    );
}

#[test]
fn renders_parser_issue_cells() {
    let row = issue();
    assert_eq!(discipline_issue_cell(&row), "1.10 Luftgewehr");
    assert_eq!(
        correction_prefill_links(&row),
        "<a href=\"/corrections?entity_type=club&old_value=SV%20A\">Korrigieren</a> <a href=\"/corrections?entity_type=athlete&old_value=R%20hl%2C%20Eberhard\">Korrigieren</a>"
    );
    let html = parser_issue_rows_html(&vec![row]);
    assert!(html.starts_with("<tr><td class=\"num\">9</td><td>lm</td><td>LM 2026</td><td>conflict</td><td>R hl, Eberhard<br><span class=\"muted\">Rühl, Eberhard</span></td><td>SV A</td><td>1.10 Luftgewehr</td><td></td><td><a href=\"https://example.org/a.pdf\">PDF</a></td>"));
}

#[test]
fn labels_result_types() {
    assert_eq!(result_type_label(1, Some("Gold"), "individual", None), "Teilnahme");
    assert_eq!(result_type_label(0, Some("<Gold>"), "individual", None), "&lt;Gold&gt;");
    assert_eq!(result_type_label(0, Some(""), "team", None), "Mannschaft");
    assert_eq!(result_type_label(0, None, "individual", Some("Damen I")), "Damen I");
    assert_eq!(result_type_label(0, None, "individual", None), "Einzel");
}

#[test]
fn reads_the_correction_form() {
    let form = parse_form_urlencoded("entity_type=club&old_value=SchV+A&new_value=Sch%C3%BCtzenverein+A&reason=+");
    let o = manual_override_from_form(&form).unwrap();
    assert_eq!(o.scope, "global");
    assert_eq!(o.entity_type, "club");
    assert_eq!(o.field_name, "canonical_name");
    assert_eq!(o.old_value, "SchV A");
    assert_eq!(o.new_value, "Schützenverein A");
    assert_eq!(o.reason, None);
    assert_eq!(o.status, "active");
    let form = parse_form_urlencoded("entity_type=team&old_value=a&new_value=b");
    assert_eq!(manual_override_from_form(&form).unwrap_err(), "unknown correction type team");
    let form = parse_form_urlencoded("entity_type=club&new_value=b");
    assert_eq!(manual_override_from_form(&form).unwrap_err(), "missing form value old_value");
    assert_eq!(form_value(&form, "entity_type").unwrap(), "club");
}

#[test]
fn reads_the_alias_form() {
    let form = parse_form_urlencoded("alias=SV+1&club=SV&association_code=OD");
    let request = club_alias_request(&form).unwrap();
    assert_eq!(request.alias, "SV 1");
    assert_eq!(request.club_name, "SV");
    assert_eq!(request.association_code.as_deref(), Some("OD"));
    assert_eq!(request.source.as_deref(), Some("web"));
    let club = request.new_club();
    assert_eq!(club.canonical_name, "SV");
    assert_eq!(club.source.as_deref(), Some("web-alias"));
    let alias = request.new_alias(5);
    assert_eq!(alias.club_id, 5);
    assert_eq!(alias.status, "active");
    assert_eq!(alias.source.as_deref(), Some("web"));
    let form = parse_form_urlencoded("alias=SV+1");
    assert_eq!(club_alias_request(&form).unwrap_err(), "missing form value club");
}

#[test]
fn renders_result_team_and_member_rows() {
    let result = ResultRow {
        id: 5,
        athlete_id: Some(2),
        athlete_name: Some("Muster, Max".to_string()),
        club_id: Some(3),
        club_name: Some("SV A & B".to_string()),
        discipline: Some("1.10 Luftgewehr".to_string()),
        competition_name: "Landesmeisterschaft".to_string(),
        competition_scope: "LM".to_string(),
        competition_year: 2026,
        result_kind: "individual".to_string(),
        rank: Some(1),
        score_text: "398.5".to_string(),
        medal: Some("Gold".to_string()),
        participation_only: 0,
        event_class: Some("Herren".to_string()),
        source_document_id: None,
        source_url: Some("https://example.org/a.pdf".to_string()),
    };
    assert_eq!(
        result_rows_html(&vec![result]),
        "<tr><td class=\"num\">5</td><td><a href=\"/athletes/2\">Muster, Max</a></td><td><a href=\"/clubs/3\">SV A &amp; B</a></td><td>LM 2026</td><td>Landesmeisterschaft</td><td>1.10 Luftgewehr</td><td class=\"num\">1</td><td class=\"num\">398.5</td><td>Gold</td><td><a href=\"https://example.org/a.pdf\">PDF</a></td></tr>\n"
    );
    let team = TeamRow {
        id: 7,
        canonical_name: "SV A 1".to_string(),
        club_id: None,
        club_name: Some("SV A".to_string()),
        association_code: None,
        competition_scope: "DM".to_string(),
        competition_year: 2025,
        discipline: None,
        event_class: Some("Damen".to_string()),
        rank: None,
        score_text: String::new(),
        member_count: 3,
        source_document_id: Some(11),
        source_url: None,
    };
    assert_eq!(
        team_rows_html(&vec![team]),
        "<tr><td class=\"num\"><a href=\"/teams/7\">7</a></td><td><a href=\"/teams/7\">SV A 1</a></td><td>SV A</td><td></td><td>DM 2025</td><td></td><td>Damen</td><td class=\"num\"></td><td class=\"num\"></td><td class=\"num\">3</td><td><a href=\"/sources/11\">PDF</a></td></tr>\n"
    );
    let member = TeamMemberRow {
        member_order: 1,
        athlete_id: None,
        athlete_name: None,
        display_name: "Max <M>".to_string(),
        raw_name: None,
        score_text: "290".to_string(),
        medal: None,
        result_id: Some(44),
    };
    assert_eq!(
        team_member_rows_html(&vec![member]),
        "<tr><td class=\"num\">1</td><td></td><td>Max &lt;M&gt;</td><td></td><td class=\"num\">290</td><td></td><td class=\"num\">44</td></tr>\n"
    );
}
