use pdf_explorer::web::club_editor::{
    alias_rows, answer_query, club_edit_action, club_edit_id, editor_context, editor_notice,
    editor_view, failed_edit_query, merge_options, saved_location, url, ClubAliasEntry,
    ClubEditAction,
};
use pdf_explorer::web::parse_form_urlencoded;

fn pairs(items: &[(&str, &str)]) -> Vec<(String, String)> {
    let mut v: Vec<(String, String)> = items
        .iter()
        .map(|(k, v)| (k.to_string(), v.to_string()))
        .collect();
    v.sort();
    v
}

#[test]
fn editor_links_keep_the_context_and_drop_the_editor_state() {
    let query = pairs(&[("q", "<Club>"), ("page", "2"), ("edit", "1"), ("error", "x")]);
    let context = editor_context(&query, false);
    assert_eq!(context, pairs(&[("page", "2"), ("q", "<Club>")]));
    assert_eq!(url("/clubs/1/edit", &context), "/clubs/1/edit?page=2&q=%3CClub%3E");
    let detail = editor_context(&query, true);
    assert_eq!(detail, pairs(&[("detail", "1"), ("page", "2"), ("q", "<Club>")]));
}

#[test]
fn editor_view_escapes_names_and_carries_the_context() {
    let query = pairs(&[("q", "<Club>"), ("page", "2"), ("edit", "1")]);
    let aliases = vec![
        ClubAliasEntry { id: 3, alias: "SchV <A>".to_string(), status: "active".to_string() },
        ClubAliasEntry { id: 4, alias: "Old".to_string(), status: "inactive".to_string() },
    ];
    let options = vec![(2, "Taken & Co".to_string())];
    let view = editor_view(1, "<Club>", &query, false, &aliases, &options);
    assert_eq!(view.club_name, "&lt;Club&gt;");
    assert_eq!(view.name_value, "&lt;Club&gt;");
    assert_eq!(view.alias_value, "");
    assert!(view.action.contains("/clubs/1/edit?page=2&amp;q=%3CClub%3E"));
    assert_eq!(view.close_url, "/clubs?page=2&amp;q=%3CClub%3E");
    assert_eq!(view.notice, "");
    assert_eq!(view.aliases.len(), 2);
    assert!(view.aliases[0].editable);
    assert_eq!(view.aliases[0].alias_id, "3");
    assert_eq!(view.aliases[0].html, "SchV &lt;A&gt;");
    assert!(!view.aliases[1].editable);
    assert_eq!(view.aliases[1].html, "<p class=\"muted\">Old (inaktiv)</p>");
    assert_eq!(view.merge_options, "<option value=\"2\">Taken &amp; Co</option>\n");
    let on_page = editor_view(1, "<Club>", &query, true, &aliases, &options);
    assert_eq!(on_page.close_url, "/clubs/1");
}

#[test]
fn editor_shows_drafts_and_notices_of_a_failed_edit() {
    let query = pairs(&[
        ("draft", "Taken"),
        ("draft_operation", "rename"),
        ("error", "Name <belegt>"),
    ]);
    let view = editor_view(1, "Club", &query, false, &Vec::new(), &Vec::new());
    assert_eq!(view.name_value, "Taken");
    assert_eq!(view.notice, "<p role=\"alert\">Name &lt;belegt&gt;</p>");
    assert_eq!(view.aliases.len(), 1);
    assert_eq!(view.aliases[0].html, "<p class=\"muted\">Noch keine Aliase vorhanden.</p>");
    let new_alias = pairs(&[("draft", "Variant"), ("draft_operation", "alias-save")]);
    let view = editor_view(1, "Club", &new_alias, false, &Vec::new(), &Vec::new());
    assert_eq!(view.alias_value, "Variant");
    assert_eq!(editor_notice(&pairs(&[("saved", "1")])), "<p role=\"status\">Änderung gespeichert.</p>");
}

#[test]
fn alias_drafts_replace_only_their_alias() {
    let query = pairs(&[("draft", "New"), ("draft_alias_id", "4")]);
    let aliases = vec![
        ClubAliasEntry { id: 3, alias: "A".to_string(), status: "active".to_string() },
        ClubAliasEntry { id: 4, alias: "B".to_string(), status: "active".to_string() },
    ];
    let rows = alias_rows(&query, &aliases);
    assert_eq!(rows[0].html, "A");
    assert_eq!(rows[1].html, "New");
    assert_eq!(merge_options(&Vec::new()), "");
}

#[test]
fn reads_edit_paths_and_forms() {
    assert_eq!(club_edit_id("/clubs/1/edit"), Some(1));
    assert_eq!(club_edit_id("/clubs/x/edit"), None);
    assert_eq!(club_edit_id("/clubs/1"), None);
    let form = parse_form_urlencoded("operation=rename&name=Renamed");
    assert!(matches!(club_edit_action(&form), Ok(ClubEditAction::Rename { name }) if name == "Renamed"));
    let form = parse_form_urlencoded("operation=alias-save&name=Variant");
    assert!(matches!(
        club_edit_action(&form),
        Ok(ClubEditAction::SaveAlias { alias_id: None, name }) if name == "Variant"
    ));
    let form = parse_form_urlencoded("operation=alias-deactivate");
    assert_eq!(club_edit_action(&form).unwrap_err(), "Alias fehlt.");
    let form = parse_form_urlencoded("operation=merge&target_id=7");
    assert!(matches!(club_edit_action(&form), Ok(ClubEditAction::Merge { target_id: 7 })));
    let form = parse_form_urlencoded("name=x");
    assert_eq!(club_edit_action(&form).unwrap_err(), "missing form value operation");
    let form = parse_form_urlencoded("operation=rename");
    assert_eq!(club_edit_action(&form).unwrap_err(), "missing form value name");
    let form = parse_form_urlencoded("operation=delete");
    assert_eq!(club_edit_action(&form).unwrap_err(), "Unbekannte Aktion.");
    let form = parse_form_urlencoded("operation=alias-save&alias_id=abc&name=x");
    assert_eq!(club_edit_action(&form).unwrap_err(), "invalid digit found in string");
}

#[test]
fn saved_edits_redirect_back_to_the_editor() {
    let query = pairs(&[("q", "<Club>"), ("page", "2"), ("edit", "1")]);
    let (mut answer, detail) = answer_query(&query, 1);
    assert!(!detail);
    let location = saved_location(&mut answer, 1, detail);
    assert!(location.starts_with("/clubs?"));
    assert!(location.contains("page=2"));
    assert!(location.contains("q=%3CClub%3E"));
    assert!(location.contains("saved=1"));
    assert!(location.ends_with("#club-editor"));

    let (mut answer, detail) = answer_query(&pairs(&[("detail", "1")]), 1);
    assert!(detail);
    let location = saved_location(&mut answer, 1, detail);
    assert_eq!(location, "/clubs/1?edit=1&saved=1#club-editor");
}

#[test]
fn failed_edits_keep_the_form_as_drafts() {
    let (mut answer, _) = answer_query(&pairs(&[("page", "2")]), 1);
    let form = parse_form_urlencoded("operation=rename&name=Taken");
    failed_edit_query(&mut answer, "Name belegt", &form);
    assert_eq!(
        answer,
        pairs(&[
            ("draft", "Taken"),
            ("draft_operation", "rename"),
            ("edit", "1"),
            ("error", "Name belegt"),
            ("page", "2"),
        ])
    );
    let view = editor_view(1, "Club", &answer, false, &Vec::new(), &Vec::new());
    assert_eq!(view.name_value, "Taken");
}
