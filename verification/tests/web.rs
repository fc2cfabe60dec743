use pdf_explorer::web::{
    active_class, content_length, decode_form_value, detail_link, empty_rows, escape_html,
    format_time_range, issue_name_cell, page_fetch_limit, page_offset, page_size_options,
    page_state, page_url, pagination_controls, parse_form_urlencoded, parse_request_line,
    parser_label, prefill_link, request_body, request_query, source_detail_link, trim_page_rows,
    PageState,
};

#[test]
fn parses_get_request_path_without_query() {
    let parsed = parse_request_line("GET /import-runs?x=1 HTTP/1.1\r\n\r\n");
    assert_eq!(
        parsed.as_ref().map(|(m, p)| (m.as_str(), p.as_str())),
        Some(("GET", "/import-runs"))
    );
}

#[test]
fn escapes_html_control_characters() {
    assert_eq!(escape_html("<script>&\"\n"), "&lt;script&gt;&amp;&quot; ");
}

#[test]
fn renders_empty_table_row() {
    assert!(empty_rows(String::new(), 3).contains("colspan=\"3\""));
}

#[test]
fn keeps_rows_that_are_not_empty() {
    assert_eq!(empty_rows("<tr></tr>".to_string(), 3), "<tr></tr>");
}

#[test]
fn reads_query_parameters_as_a_map() {
    let query = request_query("GET /results?search=M%C3%BCller+Tim&page=2&page=3&x HTTP/1.1\r\n");
    assert_eq!(
        query,
        vec![
            ("page".to_string(), "3".to_string()),
            ("search".to_string(), "Müller Tim".to_string()),
        ]
    );
    assert_eq!(decode_form_value("a+b%21"), "a b!");
    assert_eq!(
        parse_form_urlencoded("b=2&a=1"),
        vec![("a".to_string(), "1".to_string()), ("b".to_string(), "2".to_string())]
    );
}

#[test]
fn reads_content_length_and_body() {
    let request = "POST /x HTTP/1.1\r\nHost: h\r\nContent-Length: 7\r\n\r\nname=ab";
    assert_eq!(content_length(request), 7);
    assert_eq!(request_body(request), "name=ab");
    assert_eq!(content_length("GET / HTTP/1.1\r\n\r\n"), 0);
}

#[test]
fn computes_pages_from_the_query() {
    let query = vec![
        ("page".to_string(), "3".to_string()),
        ("page_size".to_string(), "50".to_string()),
    ];
    let page = page_state(&query);
    assert_eq!((page.page, page.page_size), (3, 50));
    assert_eq!(page_fetch_limit(page), 51);
    assert_eq!(page_offset(page), 100);
    let fallback = page_state(&vec![("page_size".to_string(), "7".to_string())]);
    assert_eq!((fallback.page, fallback.page_size), (1, 100));
    let mut rows = vec![1, 2, 3];
    assert!(trim_page_rows(&mut rows, PageState { page: 1, page_size: 2 }));
    assert_eq!(rows, vec![1, 2]);
}

#[test]
fn builds_page_links_that_keep_filters() {
    let query = vec![
        ("page".to_string(), "2".to_string()),
        ("search".to_string(), "a b".to_string()),
        ("year".to_string(), " ".to_string()),
    ];
    assert_eq!(
        page_url("/results", &query, 3, 100),
        "/results?search=a+b&page=3&page_size=100"
    );
    let pager = pagination_controls(
        "/results",
        &query,
        PageState { page: 2, page_size: 100 },
        100,
        true,
    );
    assert!(pager.contains("Seite 2, Eintraege 101-200"));
    assert!(pager.contains("page=1&amp;") == false);
    assert!(pager.contains("<input type=\"hidden\" name=\"search\" value=\"a b\">"));
    assert!(page_size_options(250).contains("<option value=\"250\" selected>250</option>"));
}

#[test]
fn renders_small_cells_and_links() {
    assert_eq!(active_class("a", "a"), "active");
    assert_eq!(active_class("a", "b"), "");
    assert_eq!(format_time_range("s", Some("e")), "s bis e");
    assert_eq!(parser_label(Some("p"), Some("")), "p");
    assert_eq!(parser_label(Some("p"), Some("1")), "p 1");
    assert_eq!(
        issue_name_cell(Some("A"), Some("B")),
        "A<br><span class=\"muted\">B</span>"
    );
    assert_eq!(source_detail_link(Some(4), None), "<a href=\"/sources/4\">PDF</a>");
    assert_eq!(detail_link("/clubs", Some(2), Some("X")), "<a href=\"/clubs/2\">X</a>");
    assert!(prefill_link("athlete", "Müller, T").contains("old_value=M%C3%BCller%2C%20T\""));
    assert_eq!(
        prefill_link("club", "SV A"),
        "<a href=\"/corrections?entity_type=club&old_value=SV%20A\">Korrigieren</a>"
    );
}
