//! The frames of the podium, participation and combined reports, filled
//! with their rows and figures.
use vstd::prelude::*;

use crate::export::html::{escape_html, escaped, render_manual_review_rows, review_rows};
use crate::export::html_rows::{
    club_options, highest_rank, highest_rank_of, name_options, participation_html_rows,
    participation_rows, podium_html_rows, podium_rows, shooter_options,
};
use crate::export::matching::{display_name, pair_views, source_display_name, strs};
use crate::export::models::{ManualReviewPdf, ParticipationMatch, PodiumEntry};
use crate::template::{filled, render_template};
use crate::text::{decimal, decimal_chars, sorted_strict, string_of};

verus! {

broadcast use vstd::string::group_string_axioms;

/// The frame of the podium report.
pub const PODIUM_EXPORT_TEMPLATE: &'static str = "<!doctype html><html lang=\"de\"><head><meta charset=\"utf-8\"><title>Podest {{source_name}}</title></head><body><h1>Podestplaetze {{source_name}}</h1><p>Erzeugt {{generated_at}} - Kreis {{focus_code}} - bis Platz {{max_place}} (hoechster Platz {{highest_rank}}) - {{item_count}} Eintraege - {{manual_review_count}} zur Pruefung</p><label>Bis Platz <input id=\"maxRankFilter\" type=\"number\" min=\"1\" max=\"{{highest_rank}}\" value=\"{{max_place}}\"></label><table id=\"podium\"><thead><tr><th>Platz</th><th>Wertung</th><th>Schuetze</th><th>Verein</th><th>Kreis</th><th>Disziplin</th><th>Ergebnis</th><th>PDF</th></tr></thead><tbody>{{rows}}</tbody></table><script>function clampNumberControl(control){const min=Number(control.min),max=Number(control.max);let v=Number(control.value);if(!(v>=min))v=min;if(v>max)v=max;control.value=String(v);return v;}const control=document.getElementById('maxRankFilter');function applyRank(){const limit=clampNumberControl(control);document.querySelectorAll('#podium tbody tr').forEach(function(row){row.hidden=Number(row.dataset.rank)>limit;});}control.addEventListener('input',applyRank);applyRank();</script>{{manual_review_section}}<script type=\"application/json\" id=\"items\">{{items_json}}</script></body></html>";

/// The frame of the table of PDFs for manual review.
pub const PODIUM_MANUAL_REVIEW_TABLE_TEMPLATE: &'static str = "<h2>Zur manuellen Pruefung</h2><table><thead><tr><th>PDF</th><th>Grund</th><th>Zeichen</th><th>OCR</th></tr></thead><tbody>{{manual_review_rows}}</tbody></table>";

/// The frame of the participation report.
pub const PARTICIPATION_EXPORT_TEMPLATE: &'static str = "<!doctype html><html lang=\"de\"><head><meta charset=\"utf-8\"><title>Teilnahmen</title></head><body><h1>Teilnahmen {{results_source_name}}</h1><p>Vereine aus {{club_source_name}} - Kreis {{focus_code}} - erzeugt {{generated_at}} - {{known_club_count}} bekannte Vereine, {{matched_club_count}} gefunden, {{match_count}} Treffer</p><select id=\"club\"><option value=\"\">Alle Vereine</option>{{club_options}}</select><table><thead><tr><th>Verein</th><th>Schuetzen</th><th>Quelle</th><th>PDF</th><th>Datei</th></tr></thead><tbody>{{rows}}</tbody></table></body></html>";

/// The frame of the combined report.
pub const COMBINED_EXPORT_TEMPLATE: &'static str = "<!doctype html><html lang=\"de\"><head><meta charset=\"utf-8\"><title>Vereinsuebersicht</title></head><body><h1>Vereinsuebersicht Kreis {{focus_code}}</h1><p>Erzeugt {{generated_at}} - {{club_count}} Vereine, {{podium_item_count}} Podestplaetze, {{participation_match_count}} Teilnahmen</p><select id=\"club\"><option value=\"\">Alle Vereine</option>{{club_options}}</select><select id=\"shooter\"><option value=\"\">Alle Schuetzen</option>{{shooter_options}}</select><table><thead><tr><th>Verein</th><th>Art</th><th>Platz</th><th>Schuetze</th><th>Disziplin</th><th>Wertung</th><th>Datei</th></tr></thead><tbody>{{rows}}</tbody></table></body></html>";

fn push_value(values: &mut Vec<(String, String)>, name: &str, value: String)
    ensures
        pair_views(final(values)@) == pair_views(old(values)@).push((name@, value@)),
{
    let ghost before = values@;
    values.push((String::from_str(name), value));
    assert(pair_views(values@) =~= pair_views(before).push((name@, value@)));
}

fn number_text(n: u64) -> (r: String)
    ensures
        r@ == decimal(n as nat),
{
    string_of(&decimal_chars(n))
}

/// The manual-review table, or nothing where no PDF needs review.
pub open spec fn review_section(pdfs: Seq<ManualReviewPdf>) -> Seq<char> {
    if pdfs.len() == 0 {
        Seq::empty()
    } else {
        filled(PODIUM_MANUAL_REVIEW_TABLE_TEMPLATE@, seq![("manual_review_rows"@, review_rows(pdfs))])
    }
}

/// The manual-review table of the podium report, or nothing where no PDF
/// needs review.
pub fn manual_review_section(pdfs: &Vec<ManualReviewPdf>) -> (r: String)
    ensures
        r@ == review_section(pdfs@),
{
    if pdfs.len() == 0 {
        String::new()
    } else {
        let mut values: Vec<(String, String)> = Vec::new();
        push_value(&mut values, "manual_review_rows", render_manual_review_rows(pdfs));
        assert(pair_views(values@) =~= seq![("manual_review_rows"@, review_rows(pdfs@))]);
        render_template(PODIUM_MANUAL_REVIEW_TABLE_TEMPLATE, &values)
    }
}

/// The figures and parts that fill the podium report.
pub open spec fn podium_page_values(
    generated_at: Seq<char>,
    source_name: Seq<char>,
    focus_code: Seq<char>,
    max_place: u32,
    item_count: usize,
    manual_review_count: usize,
    items: Seq<PodiumEntry>,
    scores: Seq<Seq<char>>,
    pdfs: Seq<ManualReviewPdf>,
    items_json: Seq<char>,
) -> Seq<(Seq<char>, Seq<char>)> {
    seq![
        ("generated_at"@, escaped(generated_at)),
        ("source_name"@, escaped(display_name(source_name))),
        ("focus_code"@, escaped(focus_code)),
        ("max_place"@, decimal(max_place as nat)),
        ("highest_rank"@, decimal(highest_rank_of(items, max_place) as nat)),
        ("item_count"@, decimal(item_count as nat)),
        ("manual_review_count"@, decimal(manual_review_count as nat)),
        ("rows"@, podium_rows(items, scores)),
        ("manual_review_section"@, review_section(pdfs)),
        ("items_json"@, items_json),
    ]
}

/// The podium report: its figures, a row per entry with the score shown in
/// `scores`, the manual-review table and the items as JSON for the page's
/// filter.
pub fn render_podium_report(
    generated_at: &str,
    source_name: &str,
    focus_code: &str,
    max_place: u32,
    item_count: usize,
    manual_review_count: usize,
    items: &Vec<PodiumEntry>,
    scores: &Vec<String>,
    manual_review_pdfs: &Vec<ManualReviewPdf>,
    items_json: &str,
) -> (r: String)
    requires
        items.len() == scores.len(),
    ensures
        r@ == filled(
            PODIUM_EXPORT_TEMPLATE@,
            podium_page_values(
                generated_at@,
                source_name@,
                focus_code@,
                max_place,
                item_count,
                manual_review_count,
                items@,
                strs(scores@),
                manual_review_pdfs@,
                items_json@,
            ),
        ),
{
    let mut values: Vec<(String, String)> = Vec::new();
    push_value(&mut values, "generated_at", escape_html(generated_at));
    push_value(&mut values, "source_name", escape_html(source_display_name(source_name).as_str()));
    push_value(&mut values, "focus_code", escape_html(focus_code));
    push_value(&mut values, "max_place", number_text(max_place as u64));
    push_value(&mut values, "highest_rank", number_text(highest_rank(items, max_place) as u64));
    push_value(&mut values, "item_count", number_text(item_count as u64));
    push_value(&mut values, "manual_review_count", number_text(manual_review_count as u64));
    push_value(&mut values, "rows", podium_html_rows(items, scores));
    push_value(&mut values, "manual_review_section", manual_review_section(manual_review_pdfs));
    push_value(&mut values, "items_json", String::from_str(items_json));
    assert(pair_views(values@) =~= podium_page_values(
        generated_at@,
        source_name@,
        focus_code@,
        max_place,
        item_count,
        manual_review_count,
        items@,
        strs(scores@),
        manual_review_pdfs@,
        items_json@,
    ));
    render_template(PODIUM_EXPORT_TEMPLATE, &values)
}

/// The figures and parts that fill the participation report.
pub open spec fn participation_page_values(
    club_source_name: Seq<char>,
    results_source_name: Seq<char>,
    focus_code: Seq<char>,
    generated_at: Seq<char>,
    known_club_count: usize,
    matched_club_count: usize,
    match_count: usize,
    known_clubs: Seq<Seq<char>>,
    matches: Seq<ParticipationMatch>,
    links: Seq<Seq<char>>,
) -> Seq<(Seq<char>, Seq<char>)> {
    seq![
        ("club_source_name"@, escaped(display_name(club_source_name))),
        ("results_source_name"@, escaped(display_name(results_source_name))),
        ("focus_code"@, escaped(focus_code)),
        ("generated_at"@, escaped(generated_at)),
        ("known_club_count"@, decimal(known_club_count as nat)),
        ("matched_club_count"@, decimal(matched_club_count as nat)),
        ("match_count"@, decimal(match_count as nat)),
        ("club_options"@, name_options(known_clubs)),
        ("rows"@, participation_rows(matches, links)),
    ]
}

/// The participation report: its figures, the known clubs to filter by and
/// a row per match with the link to its local file in `links`.
pub fn render_participation_report(
    club_source_name: &str,
    results_source_name: &str,
    focus_code: &str,
    generated_at: &str,
    known_club_count: usize,
    matched_club_count: usize,
    match_count: usize,
    known_clubs: &Vec<String>,
    matches: &Vec<ParticipationMatch>,
    links: &Vec<String>,
) -> (r: String)
    requires
        matches.len() == links.len(),
    ensures
        r@ == filled(
            PARTICIPATION_EXPORT_TEMPLATE@,
            participation_page_values(
                club_source_name@,
                results_source_name@,
                focus_code@,
                generated_at@,
                known_club_count,
                matched_club_count,
                match_count,
                strs(known_clubs@),
                matches@,
                strs(links@),
            ),
        ),
{
    let mut values: Vec<(String, String)> = Vec::new();
    push_value(&mut values, "club_source_name", escape_html(source_display_name(club_source_name).as_str()));
    push_value(
        &mut values,
        "results_source_name",
        escape_html(source_display_name(results_source_name).as_str()),
    );
    push_value(&mut values, "focus_code", escape_html(focus_code));
    push_value(&mut values, "generated_at", escape_html(generated_at));
    push_value(&mut values, "known_club_count", number_text(known_club_count as u64));
    push_value(&mut values, "matched_club_count", number_text(matched_club_count as u64));
    push_value(&mut values, "match_count", number_text(match_count as u64));
    push_value(&mut values, "club_options", club_options(known_clubs));
    push_value(&mut values, "rows", participation_html_rows(matches, links));
    assert(pair_views(values@) =~= participation_page_values(
        club_source_name@,
        results_source_name@,
        focus_code@,
        generated_at@,
        known_club_count,
        matched_club_count,
        match_count,
        strs(known_clubs@),
        matches@,
        strs(links@),
    ));
    render_template(PARTICIPATION_EXPORT_TEMPLATE, &values)
}

/// The figures and parts that fill the combined report.
pub open spec fn combined_page_values(
    focus_code: Seq<char>,
    generated_at: Seq<char>,
    club_count: usize,
    podium_item_count: usize,
    participation_match_count: usize,
    clubs: Seq<Seq<char>>,
    shooter_names: Seq<Seq<char>>,
    rows: Seq<char>,
) -> Seq<(Seq<char>, Seq<char>)> {
    seq![
        ("focus_code"@, escaped(focus_code)),
        ("generated_at"@, escaped(generated_at)),
        ("club_count"@, decimal(club_count as nat)),
        ("podium_item_count"@, decimal(podium_item_count as nat)),
        ("participation_match_count"@, decimal(participation_match_count as nat)),
        ("club_options"@, name_options(clubs)),
        ("shooter_options"@, name_options(shooter_names)),
        ("rows"@, rows),
    ]
}

/// The combined report: its figures, the clubs and the shooters (each once,
/// in order) to filter by, and the rows of the clubs.
pub fn render_combined_report(
    focus_code: &str,
    generated_at: &str,
    club_count: usize,
    podium_item_count: usize,
    participation_match_count: usize,
    clubs: &Vec<String>,
    shooters: &Vec<String>,
    rows: &str,
) -> (r: String)
    ensures
        exists|names: Seq<Seq<char>>|
            sorted_strict(names) && names.to_set() == strs(shooters@).to_set() && r@ == filled(
                COMBINED_EXPORT_TEMPLATE@,
                combined_page_values(
                    focus_code@,
                    generated_at@,
                    club_count,
                    podium_item_count,
                    participation_match_count,
                    strs(clubs@),
                    names,
                    rows@,
                ),
            ),
{
    let shooter_html = shooter_options(shooters);
    let ghost names = choose|names: Seq<Seq<char>>|
        sorted_strict(names) && names.to_set() == strs(shooters@).to_set() && shooter_html@ == name_options(
            names,
        );
    let mut values: Vec<(String, String)> = Vec::new();
    push_value(&mut values, "focus_code", escape_html(focus_code));
    push_value(&mut values, "generated_at", escape_html(generated_at));
    push_value(&mut values, "club_count", number_text(club_count as u64));
    push_value(&mut values, "podium_item_count", number_text(podium_item_count as u64));
    push_value(&mut values, "participation_match_count", number_text(participation_match_count as u64));
    push_value(&mut values, "club_options", club_options(clubs));
    push_value(&mut values, "shooter_options", shooter_html);
    push_value(&mut values, "rows", String::from_str(rows));
    assert(pair_views(values@) =~= combined_page_values(
        focus_code@,
        generated_at@,
        club_count,
        podium_item_count,
        participation_match_count,
        strs(clubs@),
        names,
        rows@,
    ));
    render_template(COMBINED_EXPORT_TEMPLATE, &values)
}

} // verus!
