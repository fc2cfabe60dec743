//! The rows, filters and forms of the listing pages, built from the rows
//! that the application reads.
use vstd::prelude::*;

use crate::application::query::{
    AthleteFilters, AthleteRow, ClubFilters, ClubRow, CombinedEvaluationRow, ImportRunRow,
    ManualOverrideRow, ParsedIssueRow, ParserRunRow, ResultFilters, ResultRow, SourceDocumentRow,
    TeamFilters, TeamMemberRow, TeamRow,
};
use crate::export::html::{escape_chars, escaped};
use crate::export::matching::pair_views;
use crate::export::models::opt_seq;
use crate::storage::models::{NewClub, NewClubAlias, NewManualOverride};
use crate::text::{
    append_chars, append_str, chars_of, decimal, decimal_chars, eq_str, join, join_chars,
    parse_i64, signed_decimal, signed_decimal_chars, string_of, trim, trim_chars, views,
};
use crate::web::{
    detail_link, entity_label, entity_type_label, escape_html, escape_optional, format_time_range,
    issue_name_cell, kind_label, non_empty_query, parser_label, percent_encoded, query_text,
    result_kind_label, selected_str, source_detail_link, source_link, url_encode, yes_no,
    PageState,
};

verus! {

broadcast use vstd::string::group_string_axioms;

// ---------------------------------------------------------------------------
// Pieces of cells
// ---------------------------------------------------------------------------

/// Escaped text, or nothing.
pub open spec fn esc_opt(o: Option<Seq<char>>) -> Seq<char> {
    match o {
        Some(v) => escaped(v),
        None => Seq::empty(),
    }
}

/// A number, or nothing.
pub open spec fn opt_num(o: Option<i64>) -> Seq<char> {
    match o {
        Some(n) => signed_decimal(n as int),
        None => Seq::empty(),
    }
}

/// A link to a detail page where there is an id and a label, else the
/// escaped label (see `web::detail_link`).
pub open spec fn detail_link_of(base: Seq<char>, id: Option<i64>, label: Option<Seq<char>>) -> Seq<char> {
    match (id, label) {
        (Some(i), Some(l)) => if l.len() > 0 {
            "<a href=\""@ + base + "/"@ + signed_decimal(i as int) + "\">"@ + escaped(l) + "</a>"@
        } else {
            escaped(l)
        },
        (None, Some(l)) => escaped(l),
        _ => Seq::empty(),
    }
}

/// A link to the PDF of a source, where there is a URL.
pub open spec fn source_link_of(url: Option<Seq<char>>) -> Seq<char> {
    match url {
        Some(u) => if u.len() > 0 {
            "<a href=\""@ + escaped(u) + "\">PDF</a>"@
        } else {
            Seq::empty()
        },
        None => Seq::empty(),
    }
}

/// Parser name and version (see `web::parser_label`).
pub open spec fn parser_label_of(name: Option<Seq<char>>, version: Option<Seq<char>>) -> Seq<char> {
    match (name, version) {
        (Some(n), Some(v)) => if v.len() > 0 {
            escaped(n) + " "@ + escaped(v)
        } else {
            escaped(n)
        },
        (Some(n), None) => escaped(n),
        _ => Seq::empty(),
    }
}

/// `start bis end`, or the start alone.
pub open spec fn time_range_of(started: Seq<char>, finished: Option<Seq<char>>) -> Seq<char> {
    match finished {
        Some(f) => started + " bis "@ + f,
        None => started,
    }
}

/// A parsed name beside its normalized form (see `web::issue_name_cell`).
pub open spec fn issue_name_of(raw: Option<Seq<char>>, normalized: Option<Seq<char>>) -> Seq<char> {
    match (raw, normalized) {
        (Some(a), Some(b)) => if a != b {
            escaped(a) + "<br><span class=\"muted\">"@ + escaped(b) + "</span>"@
        } else {
            escaped(a)
        },
        (Some(a), None) => escaped(a),
        (None, Some(b)) => escaped(b),
        (None, None) => Seq::empty(),
    }
}

fn esc_opt_chars(o: &Option<String>) -> (r: Vec<char>)
    ensures
        r@ == esc_opt(opt_seq(*o)),
{
    match o {
        Some(v) => escape_chars(&chars_of(v.as_str())),
        None => Vec::new(),
    }
}

fn opt_num_chars(o: Option<i64>) -> (r: Vec<char>)
    ensures
        r@ == opt_num(o),
{
    match o {
        Some(n) => signed_decimal_chars(n),
        None => Vec::new(),
    }
}

fn as_deref(o: &Option<String>) -> (r: Option<&str>)
    ensures
        match (r, *o) {
            (Some(a), Some(b)) => a@ == b@,
            (None, None) => true,
            _ => false,
        },
{
    match o {
        Some(v) => Some(v.as_str()),
        None => None,
    }
}

fn push_str(out: &mut Vec<char>, s: String)
    ensures
        final(out)@ == old(out)@ + s@,
{
    append_chars(out, &chars_of(s.as_str()));
}

/// A row of the import runs.
pub open spec fn import_run_row(r: ImportRunRow) -> Seq<char> {
    "<tr><td><a href=\"/import-runs/"@
        + signed_decimal(r.id as int)
        + "/results\">#"@
        + signed_decimal(r.id as int)
        + "</a></td><td>"@
        + escaped(r.source_name@)
        + "</td><td>"@
        + escaped(r.run_kind@)
        + "</td><td>"@
        + parser_label_of(opt_seq(r.parser_name), opt_seq(r.parser_version))
        + "</td><td>"@
        + escaped(r.status@)
        + "</td><td>"@
        + esc_opt(opt_seq(r.input_path))
        + "</td><td>"@
        + escaped(time_range_of(r.started_at@, opt_seq(r.finished_at)))
        + "</td><td class=\"num\">"@
        + signed_decimal(r.result_count as int)
        + "</td></tr>"@
        + "\n"@
}

pub open spec fn import_run_rows(rows: Seq<ImportRunRow>) -> Seq<char>
    decreases rows.len(),
{
    if rows.len() == 0 {
        Seq::empty()
    } else {
        import_run_rows(rows.drop_last()) + import_run_row(rows.last())
    }
}

#[verifier::spinoff_prover]
#[verifier::rlimit(60)]
fn import_run_row_chars(r: &ImportRunRow, out: &mut Vec<char>)
    ensures
        final(out)@ == old(out)@ + import_run_row(*r),
{
    let ghost start = old(out)@;
    append_str(out, "<tr><td><a href=\"/import-runs/");
    let ghost mut acc: Seq<char> = "<tr><td><a href=\"/import-runs/"@;
    assert(out@ =~= start + acc);
    append_chars(out, &signed_decimal_chars(r.id));
    proof {
        acc = acc + signed_decimal(r.id as int);
    }
    assert(out@ =~= start + acc);
    append_str(out, "/results\">#");
    proof {
        acc = acc + "/results\">#"@;
    }
    assert(out@ =~= start + acc);
    append_chars(out, &signed_decimal_chars(r.id));
    proof {
        acc = acc + signed_decimal(r.id as int);
    }
    assert(out@ =~= start + acc);
    append_str(out, "</a></td><td>");
    proof {
        acc = acc + "</a></td><td>"@;
    }
    assert(out@ =~= start + acc);
    append_chars(out, &escape_chars(&chars_of(r.source_name.as_str())));
    proof {
        acc = acc + escaped(r.source_name@);
    }
    assert(out@ =~= start + acc);
    append_str(out, "</td><td>");
    proof {
        acc = acc + "</td><td>"@;
    }
    assert(out@ =~= start + acc);
    append_chars(out, &escape_chars(&chars_of(r.run_kind.as_str())));
    proof {
        acc = acc + escaped(r.run_kind@);
    }
    assert(out@ =~= start + acc);
    append_str(out, "</td><td>");
    proof {
        acc = acc + "</td><td>"@;
    }
    assert(out@ =~= start + acc);
    push_str(out, parser_label(as_deref(&r.parser_name), as_deref(&r.parser_version)));
    proof {
        acc = acc + parser_label_of(opt_seq(r.parser_name), opt_seq(r.parser_version));
    }
    assert(out@ =~= start + acc);
    append_str(out, "</td><td>");
    proof {
        acc = acc + "</td><td>"@;
    }
    assert(out@ =~= start + acc);
    append_chars(out, &escape_chars(&chars_of(r.status.as_str())));
    proof {
        acc = acc + escaped(r.status@);
    }
    assert(out@ =~= start + acc);
    append_str(out, "</td><td>");
    proof {
        acc = acc + "</td><td>"@;
    }
    assert(out@ =~= start + acc);
    append_chars(out, &esc_opt_chars(&r.input_path));
    proof {
        acc = acc + esc_opt(opt_seq(r.input_path));
    }
    assert(out@ =~= start + acc);
    append_str(out, "</td><td>");
    proof {
        acc = acc + "</td><td>"@;
    }
    assert(out@ =~= start + acc);
    append_chars(out, &escape_chars(&chars_of(format_time_range(r.started_at.as_str(), as_deref(&r.finished_at)).as_str())));
    proof {
        acc = acc + escaped(time_range_of(r.started_at@, opt_seq(r.finished_at)));
    }
    assert(out@ =~= start + acc);
    append_str(out, "</td><td class=\"num\">");
    proof {
        acc = acc + "</td><td class=\"num\">"@;
    }
    assert(out@ =~= start + acc);
    append_chars(out, &signed_decimal_chars(r.result_count));
    proof {
        acc = acc + signed_decimal(r.result_count as int);
    }
    assert(out@ =~= start + acc);
    append_str(out, "</td></tr>");
    proof {
        acc = acc + "</td></tr>"@;
    }
    assert(out@ =~= start + acc);
    append_str(out, "\n");
    proof {
        acc = acc + "\n"@;
    }
    assert(out@ =~= start + acc);
}

/// The table rows of a listing, one line each.
pub fn import_run_rows_html(rows: &Vec<ImportRunRow>) -> (r: String)
    ensures
        r@ == import_run_rows(rows@),
{
    let mut out: Vec<char> = Vec::new();
    let mut i: usize = 0;
    assert(rows@.take(0) =~= Seq::<ImportRunRow>::empty());
    while i < rows.len()
        invariant
            0 <= i <= rows.len(),
            out@ == import_run_rows(rows@.take(i as int)),
        decreases rows.len() - i,
    {
        assert(rows@.take(i + 1).drop_last() =~= rows@.take(i as int));
        assert(rows@.take(i + 1).last() == rows@[i as int]);
        import_run_row_chars(&rows[i], &mut out);
        i += 1;
    }
    assert(rows@.take(i as int) =~= rows@);
    string_of(&out)
}

/// A row of the athletes.
pub open spec fn athlete_row(r: AthleteRow) -> Seq<char> {
    "<tr><td class=\"num\">"@
        + signed_decimal(r.id as int)
        + "</td><td><a href=\"/athletes/"@
        + signed_decimal(r.id as int)
        + "\">"@
        + escaped(r.canonical_name@)
        + "</a></td><td class=\"num\">"@
        + signed_decimal(r.result_count as int)
        + "</td><td class=\"num\">"@
        + signed_decimal(r.club_count as int)
        + "</td><td class=\"num\">"@
        + opt_num(r.latest_year)
        + "</td></tr>"@
        + "\n"@
}

pub open spec fn athlete_rows(rows: Seq<AthleteRow>) -> Seq<char>
    decreases rows.len(),
{
    if rows.len() == 0 {
        Seq::empty()
    } else {
        athlete_rows(rows.drop_last()) + athlete_row(rows.last())
    }
}

#[verifier::spinoff_prover]
#[verifier::rlimit(60)]
fn athlete_row_chars(r: &AthleteRow, out: &mut Vec<char>)
    ensures
        final(out)@ == old(out)@ + athlete_row(*r),
{
    let ghost start = old(out)@;
    append_str(out, "<tr><td class=\"num\">");
    let ghost mut acc: Seq<char> = "<tr><td class=\"num\">"@;
    assert(out@ =~= start + acc);
    append_chars(out, &signed_decimal_chars(r.id));
    proof {
        acc = acc + signed_decimal(r.id as int);
    }
    assert(out@ =~= start + acc);
    append_str(out, "</td><td><a href=\"/athletes/");
    proof {
        acc = acc + "</td><td><a href=\"/athletes/"@;
    }
    assert(out@ =~= start + acc);
    append_chars(out, &signed_decimal_chars(r.id));
    proof {
        acc = acc + signed_decimal(r.id as int);
    }
    assert(out@ =~= start + acc);
    append_str(out, "\">");
    proof {
        acc = acc + "\">"@;
    }
    assert(out@ =~= start + acc);
    append_chars(out, &escape_chars(&chars_of(r.canonical_name.as_str())));
    proof {
        acc = acc + escaped(r.canonical_name@);
    }
    assert(out@ =~= start + acc);
    append_str(out, "</a></td><td class=\"num\">");
    proof {
        acc = acc + "</a></td><td class=\"num\">"@;
    }
    assert(out@ =~= start + acc);
    append_chars(out, &signed_decimal_chars(r.result_count));
    proof {
        acc = acc + signed_decimal(r.result_count as int);
    }
    assert(out@ =~= start + acc);
    append_str(out, "</td><td class=\"num\">");
    proof {
        acc = acc + "</td><td class=\"num\">"@;
    }
    assert(out@ =~= start + acc);
    append_chars(out, &signed_decimal_chars(r.club_count));
    proof {
        acc = acc + signed_decimal(r.club_count as int);
    }
    assert(out@ =~= start + acc);
    append_str(out, "</td><td class=\"num\">");
    proof {
        acc = acc + "</td><td class=\"num\">"@;
    }
    assert(out@ =~= start + acc);
    append_chars(out, &opt_num_chars(r.latest_year));
    proof {
        acc = acc + opt_num(r.latest_year);
    }
    assert(out@ =~= start + acc);
    append_str(out, "</td></tr>");
    proof {
        acc = acc + "</td></tr>"@;
    }
    assert(out@ =~= start + acc);
    append_str(out, "\n");
    proof {
        acc = acc + "\n"@;
    }
    assert(out@ =~= start + acc);
}

/// The table rows of a listing, one line each.
pub fn athlete_rows_html(rows: &Vec<AthleteRow>) -> (r: String)
    ensures
        r@ == athlete_rows(rows@),
{
    let mut out: Vec<char> = Vec::new();
    let mut i: usize = 0;
    assert(rows@.take(0) =~= Seq::<AthleteRow>::empty());
    while i < rows.len()
        invariant
            0 <= i <= rows.len(),
            out@ == athlete_rows(rows@.take(i as int)),
        decreases rows.len() - i,
    {
        assert(rows@.take(i + 1).drop_last() =~= rows@.take(i as int));
        assert(rows@.take(i + 1).last() == rows@[i as int]);
        athlete_row_chars(&rows[i], &mut out);
        i += 1;
    }
    assert(rows@.take(i as int) =~= rows@);
    string_of(&out)
}

/// A row of the clubs.
pub open spec fn club_row(r: ClubRow) -> Seq<char> {
    "<tr><td class=\"num\">"@
        + signed_decimal(r.id as int)
        + "</td><td><a href=\"/clubs/"@
        + signed_decimal(r.id as int)
        + "\">"@
        + escaped(r.canonical_name@)
        + "</a></td><td>"@
        + esc_opt(opt_seq(r.association_code))
        + "</td><td class=\"num\">"@
        + signed_decimal(r.result_count as int)
        + "</td><td class=\"num\">"@
        + signed_decimal(r.athlete_count as int)
        + "</td><td class=\"num\">"@
        + opt_num(r.latest_year)
        + "</td></tr>"@
        + "\n"@
}

pub open spec fn club_rows(rows: Seq<ClubRow>) -> Seq<char>
    decreases rows.len(),
{
    if rows.len() == 0 {
        Seq::empty()
    } else {
        club_rows(rows.drop_last()) + club_row(rows.last())
    }
}

#[verifier::spinoff_prover]
#[verifier::rlimit(60)]
fn club_row_chars(r: &ClubRow, out: &mut Vec<char>)
    ensures
        final(out)@ == old(out)@ + club_row(*r),
{
    let ghost start = old(out)@;
    append_str(out, "<tr><td class=\"num\">");
    let ghost mut acc: Seq<char> = "<tr><td class=\"num\">"@;
    assert(out@ =~= start + acc);
    append_chars(out, &signed_decimal_chars(r.id));
    proof {
        acc = acc + signed_decimal(r.id as int);
    }
    assert(out@ =~= start + acc);
    append_str(out, "</td><td><a href=\"/clubs/");
    proof {
        acc = acc + "</td><td><a href=\"/clubs/"@;
    }
    assert(out@ =~= start + acc);
    append_chars(out, &signed_decimal_chars(r.id));
    proof {
        acc = acc + signed_decimal(r.id as int);
    }
    assert(out@ =~= start + acc);
    append_str(out, "\">");
    proof {
        acc = acc + "\">"@;
    }
    assert(out@ =~= start + acc);
    append_chars(out, &escape_chars(&chars_of(r.canonical_name.as_str())));
    proof {
        acc = acc + escaped(r.canonical_name@);
    }
    assert(out@ =~= start + acc);
    append_str(out, "</a></td><td>");
    proof {
        acc = acc + "</a></td><td>"@;
    }
    assert(out@ =~= start + acc);
    append_chars(out, &esc_opt_chars(&r.association_code));
    proof {
        acc = acc + esc_opt(opt_seq(r.association_code));
    }
    assert(out@ =~= start + acc);
    append_str(out, "</td><td class=\"num\">");
    proof {
        acc = acc + "</td><td class=\"num\">"@;
    }
    assert(out@ =~= start + acc);
    append_chars(out, &signed_decimal_chars(r.result_count));
    proof {
        acc = acc + signed_decimal(r.result_count as int);
    }
    assert(out@ =~= start + acc);
    append_str(out, "</td><td class=\"num\">");
    proof {
        acc = acc + "</td><td class=\"num\">"@;
    }
    assert(out@ =~= start + acc);
    append_chars(out, &signed_decimal_chars(r.athlete_count));
    proof {
        acc = acc + signed_decimal(r.athlete_count as int);
    }
    assert(out@ =~= start + acc);
    append_str(out, "</td><td class=\"num\">");
    proof {
        acc = acc + "</td><td class=\"num\">"@;
    }
    assert(out@ =~= start + acc);
    append_chars(out, &opt_num_chars(r.latest_year));
    proof {
        acc = acc + opt_num(r.latest_year);
    }
    assert(out@ =~= start + acc);
    append_str(out, "</td></tr>");
    proof {
        acc = acc + "</td></tr>"@;
    }
    assert(out@ =~= start + acc);
    append_str(out, "\n");
    proof {
        acc = acc + "\n"@;
    }
    assert(out@ =~= start + acc);
}

/// The table rows of a listing, one line each.
pub fn club_rows_html(rows: &Vec<ClubRow>) -> (r: String)
    ensures
        r@ == club_rows(rows@),
{
    let mut out: Vec<char> = Vec::new();
    let mut i: usize = 0;
    assert(rows@.take(0) =~= Seq::<ClubRow>::empty());
    while i < rows.len()
        invariant
            0 <= i <= rows.len(),
            out@ == club_rows(rows@.take(i as int)),
        decreases rows.len() - i,
    {
        assert(rows@.take(i + 1).drop_last() =~= rows@.take(i as int));
        assert(rows@.take(i + 1).last() == rows@[i as int]);
        club_row_chars(&rows[i], &mut out);
        i += 1;
    }
    assert(rows@.take(i as int) =~= rows@);
    string_of(&out)
}

/// A row of the state medals beside national participation.
pub open spec fn combined_row(r: CombinedEvaluationRow) -> Seq<char> {
    "<tr><td>"@
        + detail_link_of("/athletes"@, r.athlete_id, opt_seq(r.athlete_name))
        + "</td><td>"@
        + detail_link_of("/clubs"@, r.club_id, opt_seq(r.club_name))
        + "</td><td class=\"num\">"@
        + signed_decimal(r.year as int)
        + "</td><td>"@
        + esc_opt(opt_seq(r.lm_discipline))
        + "</td><td>"@
        + esc_opt(opt_seq(r.lm_event_class))
        + "</td><td>"@
        + kind_label(r.lm_result_kind@)
        + "</td><td class=\"num\">"@
        + opt_num(r.lm_rank)
        + "</td><td>"@
        + esc_opt(opt_seq(r.lm_medal))
        + "</td><td>"@
        + (if r.has_dm_participation == 1 { "ja"@ } else { "nein"@ })
        + "</td></tr>"@
        + "\n"@
}

pub open spec fn combined_rows(rows: Seq<CombinedEvaluationRow>) -> Seq<char>
    decreases rows.len(),
{
    if rows.len() == 0 {
        Seq::empty()
    } else {
        combined_rows(rows.drop_last()) + combined_row(rows.last())
    }
}

#[verifier::spinoff_prover]
#[verifier::rlimit(60)]
fn combined_row_chars(r: &CombinedEvaluationRow, out: &mut Vec<char>)
    ensures
        final(out)@ == old(out)@ + combined_row(*r),
{
    let ghost start = old(out)@;
    append_str(out, "<tr><td>");
    let ghost mut acc: Seq<char> = "<tr><td>"@;
    assert(out@ =~= start + acc);
    push_str(out, detail_link("/athletes", r.athlete_id, as_deref(&r.athlete_name)));
    proof {
        acc = acc + detail_link_of("/athletes"@, r.athlete_id, opt_seq(r.athlete_name));
    }
    assert(out@ =~= start + acc);
    append_str(out, "</td><td>");
    proof {
        acc = acc + "</td><td>"@;
    }
    assert(out@ =~= start + acc);
    push_str(out, detail_link("/clubs", r.club_id, as_deref(&r.club_name)));
    proof {
        acc = acc + detail_link_of("/clubs"@, r.club_id, opt_seq(r.club_name));
    }
    assert(out@ =~= start + acc);
    append_str(out, "</td><td class=\"num\">");
    proof {
        acc = acc + "</td><td class=\"num\">"@;
    }
    assert(out@ =~= start + acc);
    append_chars(out, &signed_decimal_chars(r.year));
    proof {
        acc = acc + signed_decimal(r.year as int);
    }
    assert(out@ =~= start + acc);
    append_str(out, "</td><td>");
    proof {
        acc = acc + "</td><td>"@;
    }
    assert(out@ =~= start + acc);
    append_chars(out, &esc_opt_chars(&r.lm_discipline));
    proof {
        acc = acc + esc_opt(opt_seq(r.lm_discipline));
    }
    assert(out@ =~= start + acc);
    append_str(out, "</td><td>");
    proof {
        acc = acc + "</td><td>"@;
    }
    assert(out@ =~= start + acc);
    append_chars(out, &esc_opt_chars(&r.lm_event_class));
    proof {
        acc = acc + esc_opt(opt_seq(r.lm_event_class));
    }
    assert(out@ =~= start + acc);
    append_str(out, "</td><td>");
    proof {
        acc = acc + "</td><td>"@;
    }
    assert(out@ =~= start + acc);
    append_str(out, result_kind_label(r.lm_result_kind.as_str()));
    proof {
        acc = acc + kind_label(r.lm_result_kind@);
    }
    assert(out@ =~= start + acc);
    append_str(out, "</td><td class=\"num\">");
    proof {
        acc = acc + "</td><td class=\"num\">"@;
    }
    assert(out@ =~= start + acc);
    append_chars(out, &opt_num_chars(r.lm_rank));
    proof {
        acc = acc + opt_num(r.lm_rank);
    }
    assert(out@ =~= start + acc);
    append_str(out, "</td><td>");
    proof {
        acc = acc + "</td><td>"@;
    }
    assert(out@ =~= start + acc);
    append_chars(out, &esc_opt_chars(&r.lm_medal));
    proof {
        acc = acc + esc_opt(opt_seq(r.lm_medal));
    }
    assert(out@ =~= start + acc);
    append_str(out, "</td><td>");
    proof {
        acc = acc + "</td><td>"@;
    }
    assert(out@ =~= start + acc);
    append_str(out, yes_no(r.has_dm_participation == 1));
    proof {
        acc = acc + (if r.has_dm_participation == 1 { "ja"@ } else { "nein"@ });
    }
    assert(out@ =~= start + acc);
    append_str(out, "</td></tr>");
    proof {
        acc = acc + "</td></tr>"@;
    }
    assert(out@ =~= start + acc);
    append_str(out, "\n");
    proof {
        acc = acc + "\n"@;
    }
    assert(out@ =~= start + acc);
}

/// The table rows of a listing, one line each.
pub fn combined_rows_html(rows: &Vec<CombinedEvaluationRow>) -> (r: String)
    ensures
        r@ == combined_rows(rows@),
{
    let mut out: Vec<char> = Vec::new();
    let mut i: usize = 0;
    assert(rows@.take(0) =~= Seq::<CombinedEvaluationRow>::empty());
    while i < rows.len()
        invariant
            0 <= i <= rows.len(),
            out@ == combined_rows(rows@.take(i as int)),
        decreases rows.len() - i,
    {
        assert(rows@.take(i + 1).drop_last() =~= rows@.take(i as int));
        assert(rows@.take(i + 1).last() == rows@[i as int]);
        combined_row_chars(&rows[i], &mut out);
        i += 1;
    }
    assert(rows@.take(i as int) =~= rows@);
    string_of(&out)
}

/// A link to the page of a stored source, else to its PDF (see
/// `web::source_detail_link`).
pub open spec fn source_detail_of(id: Option<i64>, url: Option<Seq<char>>) -> Seq<char> {
    match id {
        Some(i) => "<a href=\"/sources/"@ + signed_decimal(i as int) + "\">PDF</a>"@,
        None => source_link_of(url),
    }
}

/// A row of the stored results.
pub open spec fn result_row(r: ResultRow) -> Seq<char> {
    "<tr><td class=\"num\">"@
        + signed_decimal(r.id as int)
        + "</td><td>"@
        + detail_link_of("/athletes"@, r.athlete_id, opt_seq(r.athlete_name))
        + "</td><td>"@
        + detail_link_of("/clubs"@, r.club_id, opt_seq(r.club_name))
        + "</td><td>"@
        + escaped(r.competition_scope@)
        + " "@
        + signed_decimal(r.competition_year as int)
        + "</td><td>"@
        + escaped(r.competition_name@)
        + "</td><td>"@
        + esc_opt(opt_seq(r.discipline))
        + "</td><td class=\"num\">"@
        + opt_num(r.rank)
        + "</td><td class=\"num\">"@
        + r.score_text@
        + "</td><td>"@
        + result_type_of(r.participation_only, opt_seq(r.medal), r.result_kind@, opt_seq(r.event_class))
        + "</td><td>"@
        + source_detail_of(r.source_document_id, opt_seq(r.source_url))
        + "</td></tr>"@
        + "\n"@
}

pub open spec fn result_rows(rows: Seq<ResultRow>) -> Seq<char>
    decreases rows.len(),
{
    if rows.len() == 0 {
        Seq::empty()
    } else {
        result_rows(rows.drop_last()) + result_row(rows.last())
    }
}

#[verifier::spinoff_prover]
#[verifier::rlimit(80)]
fn result_row_chars(r: &ResultRow, out: &mut Vec<char>)
    ensures
        final(out)@ == old(out)@ + result_row(*r),
{
    let ghost start = old(out)@;
    append_str(out, "<tr><td class=\"num\">");
    let ghost mut acc: Seq<char> = "<tr><td class=\"num\">"@;
    assert(out@ =~= start + acc);
    append_chars(out, &signed_decimal_chars(r.id));
    proof {
        acc = acc + signed_decimal(r.id as int);
    }
    assert(out@ =~= start + acc);
    append_str(out, "</td><td>");
    proof {
        acc = acc + "</td><td>"@;
    }
    assert(out@ =~= start + acc);
    push_str(out, detail_link("/athletes", r.athlete_id, as_deref(&r.athlete_name)));
    proof {
        acc = acc + detail_link_of("/athletes"@, r.athlete_id, opt_seq(r.athlete_name));
    }
    assert(out@ =~= start + acc);
    append_str(out, "</td><td>");
    proof {
        acc = acc + "</td><td>"@;
    }
    assert(out@ =~= start + acc);
    push_str(out, detail_link("/clubs", r.club_id, as_deref(&r.club_name)));
    proof {
        acc = acc + detail_link_of("/clubs"@, r.club_id, opt_seq(r.club_name));
    }
    assert(out@ =~= start + acc);
    append_str(out, "</td><td>");
    proof {
        acc = acc + "</td><td>"@;
    }
    assert(out@ =~= start + acc);
    append_chars(out, &escape_chars(&chars_of(r.competition_scope.as_str())));
    proof {
        acc = acc + escaped(r.competition_scope@);
    }
    assert(out@ =~= start + acc);
    append_str(out, " ");
    proof {
        acc = acc + " "@;
    }
    assert(out@ =~= start + acc);
    append_chars(out, &signed_decimal_chars(r.competition_year));
    proof {
        acc = acc + signed_decimal(r.competition_year as int);
    }
    assert(out@ =~= start + acc);
    append_str(out, "</td><td>");
    proof {
        acc = acc + "</td><td>"@;
    }
    assert(out@ =~= start + acc);
    append_chars(out, &escape_chars(&chars_of(r.competition_name.as_str())));
    proof {
        acc = acc + escaped(r.competition_name@);
    }
    assert(out@ =~= start + acc);
    append_str(out, "</td><td>");
    proof {
        acc = acc + "</td><td>"@;
    }
    assert(out@ =~= start + acc);
    append_chars(out, &esc_opt_chars(&r.discipline));
    proof {
        acc = acc + esc_opt(opt_seq(r.discipline));
    }
    assert(out@ =~= start + acc);
    append_str(out, "</td><td class=\"num\">");
    proof {
        acc = acc + "</td><td class=\"num\">"@;
    }
    assert(out@ =~= start + acc);
    append_chars(out, &opt_num_chars(r.rank));
    proof {
        acc = acc + opt_num(r.rank);
    }
    assert(out@ =~= start + acc);
    append_str(out, "</td><td class=\"num\">");
    proof {
        acc = acc + "</td><td class=\"num\">"@;
    }
    assert(out@ =~= start + acc);
    append_chars(out, &chars_of(r.score_text.as_str()));
    proof {
        acc = acc + r.score_text@;
    }
    assert(out@ =~= start + acc);
    append_str(out, "</td><td>");
    proof {
        acc = acc + "</td><td>"@;
    }
    assert(out@ =~= start + acc);
    push_str(out, result_type_label(r.participation_only, as_deref(&r.medal), r.result_kind.as_str(), as_deref(&r.event_class)));
    proof {
        acc = acc + result_type_of(r.participation_only, opt_seq(r.medal), r.result_kind@, opt_seq(r.event_class));
    }
    assert(out@ =~= start + acc);
    append_str(out, "</td><td>");
    proof {
        acc = acc + "</td><td>"@;
    }
    assert(out@ =~= start + acc);
    push_str(out, source_detail_link(r.source_document_id, as_deref(&r.source_url)));
    proof {
        acc = acc + source_detail_of(r.source_document_id, opt_seq(r.source_url));
    }
    assert(out@ =~= start + acc);
    append_str(out, "</td></tr>");
    proof {
        acc = acc + "</td></tr>"@;
    }
    assert(out@ =~= start + acc);
    append_str(out, "\n");
    proof {
        acc = acc + "\n"@;
    }
    assert(out@ =~= start + acc);
}

/// The table rows of the result lists, one line each.
pub fn result_rows_html(rows: &Vec<ResultRow>) -> (r: String)
    ensures
        r@ == result_rows(rows@),
{
    let mut out: Vec<char> = Vec::new();
    let mut i: usize = 0;
    assert(rows@.take(0) =~= Seq::<ResultRow>::empty());
    while i < rows.len()
        invariant
            0 <= i <= rows.len(),
            out@ == result_rows(rows@.take(i as int)),
        decreases rows.len() - i,
    {
        assert(rows@.take(i + 1).drop_last() =~= rows@.take(i as int));
        assert(rows@.take(i + 1).last() == rows@[i as int]);
        result_row_chars(&rows[i], &mut out);
        i += 1;
    }
    assert(rows@.take(i as int) =~= rows@);
    string_of(&out)
}

/// A row of the team list.
pub open spec fn team_row(r: TeamRow) -> Seq<char> {
    "<tr><td class=\"num\"><a href=\"/teams/"@
        + signed_decimal(r.id as int)
        + "\">"@
        + signed_decimal(r.id as int)
        + "</a></td><td><a href=\"/teams/"@
        + signed_decimal(r.id as int)
        + "\">"@
        + escaped(r.canonical_name@)
        + "</a></td><td>"@
        + detail_link_of("/clubs"@, r.club_id, opt_seq(r.club_name))
        + "</td><td>"@
        + esc_opt(opt_seq(r.association_code))
        + "</td><td>"@
        + escaped(r.competition_scope@)
        + " "@
        + signed_decimal(r.competition_year as int)
        + "</td><td>"@
        + esc_opt(opt_seq(r.discipline))
        + "</td><td>"@
        + esc_opt(opt_seq(r.event_class))
        + "</td><td class=\"num\">"@
        + opt_num(r.rank)
        + "</td><td class=\"num\">"@
        + r.score_text@
        + "</td><td class=\"num\">"@
        + signed_decimal(r.member_count as int)
        + "</td><td>"@
        + source_detail_of(r.source_document_id, opt_seq(r.source_url))
        + "</td></tr>"@
        + "\n"@
}

pub open spec fn team_rows(rows: Seq<TeamRow>) -> Seq<char>
    decreases rows.len(),
{
    if rows.len() == 0 {
        Seq::empty()
    } else {
        team_rows(rows.drop_last()) + team_row(rows.last())
    }
}

#[verifier::spinoff_prover]
#[verifier::rlimit(100)]
fn team_row_chars(r: &TeamRow, out: &mut Vec<char>)
    ensures
        final(out)@ == old(out)@ + team_row(*r),
{
    let ghost start = old(out)@;
    append_str(out, "<tr><td class=\"num\"><a href=\"/teams/");
    let ghost mut acc: Seq<char> = "<tr><td class=\"num\"><a href=\"/teams/"@;
    assert(out@ =~= start + acc);
    append_chars(out, &signed_decimal_chars(r.id));
    proof {
        acc = acc + signed_decimal(r.id as int);
    }
    assert(out@ =~= start + acc);
    append_str(out, "\">");
    proof {
        acc = acc + "\">"@;
    }
    assert(out@ =~= start + acc);
    append_chars(out, &signed_decimal_chars(r.id));
    proof {
        acc = acc + signed_decimal(r.id as int);
    }
    assert(out@ =~= start + acc);
    append_str(out, "</a></td><td><a href=\"/teams/");
    proof {
        acc = acc + "</a></td><td><a href=\"/teams/"@;
    }
    assert(out@ =~= start + acc);
    append_chars(out, &signed_decimal_chars(r.id));
    proof {
        acc = acc + signed_decimal(r.id as int);
    }
    assert(out@ =~= start + acc);
    append_str(out, "\">");
    proof {
        acc = acc + "\">"@;
    }
    assert(out@ =~= start + acc);
    append_chars(out, &escape_chars(&chars_of(r.canonical_name.as_str())));
    proof {
        acc = acc + escaped(r.canonical_name@);
    }
    assert(out@ =~= start + acc);
    append_str(out, "</a></td><td>");
    proof {
        acc = acc + "</a></td><td>"@;
    }
    assert(out@ =~= start + acc);
    push_str(out, detail_link("/clubs", r.club_id, as_deref(&r.club_name)));
    proof {
        acc = acc + detail_link_of("/clubs"@, r.club_id, opt_seq(r.club_name));
    }
    assert(out@ =~= start + acc);
    append_str(out, "</td><td>");
    proof {
        acc = acc + "</td><td>"@;
    }
    assert(out@ =~= start + acc);
    append_chars(out, &esc_opt_chars(&r.association_code));
    proof {
        acc = acc + esc_opt(opt_seq(r.association_code));
    }
    assert(out@ =~= start + acc);
    append_str(out, "</td><td>");
    proof {
        acc = acc + "</td><td>"@;
    }
    assert(out@ =~= start + acc);
    append_chars(out, &escape_chars(&chars_of(r.competition_scope.as_str())));
    proof {
        acc = acc + escaped(r.competition_scope@);
    }
    assert(out@ =~= start + acc);
    append_str(out, " ");
    proof {
        acc = acc + " "@;
    }
    assert(out@ =~= start + acc);
    append_chars(out, &signed_decimal_chars(r.competition_year));
    proof {
        acc = acc + signed_decimal(r.competition_year as int);
    }
    assert(out@ =~= start + acc);
    append_str(out, "</td><td>");
    proof {
        acc = acc + "</td><td>"@;
    }
    assert(out@ =~= start + acc);
    append_chars(out, &esc_opt_chars(&r.discipline));
    proof {
        acc = acc + esc_opt(opt_seq(r.discipline));
    }
    assert(out@ =~= start + acc);
    append_str(out, "</td><td>");
    proof {
        acc = acc + "</td><td>"@;
    }
    assert(out@ =~= start + acc);
    append_chars(out, &esc_opt_chars(&r.event_class));
    proof {
        acc = acc + esc_opt(opt_seq(r.event_class));
    }
    assert(out@ =~= start + acc);
    append_str(out, "</td><td class=\"num\">");
    proof {
        acc = acc + "</td><td class=\"num\">"@;
    }
    assert(out@ =~= start + acc);
    append_chars(out, &opt_num_chars(r.rank));
    proof {
        acc = acc + opt_num(r.rank);
    }
    assert(out@ =~= start + acc);
    append_str(out, "</td><td class=\"num\">");
    proof {
        acc = acc + "</td><td class=\"num\">"@;
    }
    assert(out@ =~= start + acc);
    append_chars(out, &chars_of(r.score_text.as_str()));
    proof {
        acc = acc + r.score_text@;
    }
    assert(out@ =~= start + acc);
    append_str(out, "</td><td class=\"num\">");
    proof {
        acc = acc + "</td><td class=\"num\">"@;
    }
    assert(out@ =~= start + acc);
    append_chars(out, &signed_decimal_chars(r.member_count));
    proof {
        acc = acc + signed_decimal(r.member_count as int);
    }
    assert(out@ =~= start + acc);
    append_str(out, "</td><td>");
    proof {
        acc = acc + "</td><td>"@;
    }
    assert(out@ =~= start + acc);
    push_str(out, source_detail_link(r.source_document_id, as_deref(&r.source_url)));
    proof {
        acc = acc + source_detail_of(r.source_document_id, opt_seq(r.source_url));
    }
    assert(out@ =~= start + acc);
    append_str(out, "</td></tr>");
    proof {
        acc = acc + "</td></tr>"@;
    }
    assert(out@ =~= start + acc);
    append_str(out, "\n");
    proof {
        acc = acc + "\n"@;
    }
    assert(out@ =~= start + acc);
}

/// The table rows, one line each.
pub fn team_rows_html(rows: &Vec<TeamRow>) -> (r: String)
    ensures
        r@ == team_rows(rows@),
{
    let mut out: Vec<char> = Vec::new();
    let mut i: usize = 0;
    assert(rows@.take(0) =~= Seq::<TeamRow>::empty());
    while i < rows.len()
        invariant
            0 <= i <= rows.len(),
            out@ == team_rows(rows@.take(i as int)),
        decreases rows.len() - i,
    {
        assert(rows@.take(i + 1).drop_last() =~= rows@.take(i as int));
        assert(rows@.take(i + 1).last() == rows@[i as int]);
        team_row_chars(&rows[i], &mut out);
        i += 1;
    }
    assert(rows@.take(i as int) =~= rows@);
    string_of(&out)
}

/// A row of the members of a team.
pub open spec fn team_member_row(r: TeamMemberRow) -> Seq<char> {
    "<tr><td class=\"num\">"@
        + signed_decimal(r.member_order as int)
        + "</td><td>"@
        + detail_link_of("/athletes"@, r.athlete_id, opt_seq(r.athlete_name))
        + "</td><td>"@
        + escaped(r.display_name@)
        + "</td><td>"@
        + esc_opt(opt_seq(r.raw_name))
        + "</td><td class=\"num\">"@
        + r.score_text@
        + "</td><td>"@
        + esc_opt(opt_seq(r.medal))
        + "</td><td class=\"num\">"@
        + opt_num(r.result_id)
        + "</td></tr>"@
        + "\n"@
}

pub open spec fn team_member_rows(rows: Seq<TeamMemberRow>) -> Seq<char>
    decreases rows.len(),
{
    if rows.len() == 0 {
        Seq::empty()
    } else {
        team_member_rows(rows.drop_last()) + team_member_row(rows.last())
    }
}

#[verifier::spinoff_prover]
#[verifier::rlimit(80)]
fn team_member_row_chars(r: &TeamMemberRow, out: &mut Vec<char>)
    ensures
        final(out)@ == old(out)@ + team_member_row(*r),
{
    let ghost start = old(out)@;
    append_str(out, "<tr><td class=\"num\">");
    let ghost mut acc: Seq<char> = "<tr><td class=\"num\">"@;
    assert(out@ =~= start + acc);
    append_chars(out, &signed_decimal_chars(r.member_order));
    proof {
        acc = acc + signed_decimal(r.member_order as int);
    }
    assert(out@ =~= start + acc);
    append_str(out, "</td><td>");
    proof {
        acc = acc + "</td><td>"@;
    }
    assert(out@ =~= start + acc);
    push_str(out, detail_link("/athletes", r.athlete_id, as_deref(&r.athlete_name)));
    proof {
        acc = acc + detail_link_of("/athletes"@, r.athlete_id, opt_seq(r.athlete_name));
    }
    assert(out@ =~= start + acc);
    append_str(out, "</td><td>");
    proof {
        acc = acc + "</td><td>"@;
    }
    assert(out@ =~= start + acc);
    append_chars(out, &escape_chars(&chars_of(r.display_name.as_str())));
    proof {
        acc = acc + escaped(r.display_name@);
    }
    assert(out@ =~= start + acc);
    append_str(out, "</td><td>");
    proof {
        acc = acc + "</td><td>"@;
    }
    assert(out@ =~= start + acc);
    append_chars(out, &esc_opt_chars(&r.raw_name));
    proof {
        acc = acc + esc_opt(opt_seq(r.raw_name));
    }
    assert(out@ =~= start + acc);
    append_str(out, "</td><td class=\"num\">");
    proof {
        acc = acc + "</td><td class=\"num\">"@;
    }
    assert(out@ =~= start + acc);
    append_chars(out, &chars_of(r.score_text.as_str()));
    proof {
        acc = acc + r.score_text@;
    }
    assert(out@ =~= start + acc);
    append_str(out, "</td><td>");
    proof {
        acc = acc + "</td><td>"@;
    }
    assert(out@ =~= start + acc);
    append_chars(out, &esc_opt_chars(&r.medal));
    proof {
        acc = acc + esc_opt(opt_seq(r.medal));
    }
    assert(out@ =~= start + acc);
    append_str(out, "</td><td class=\"num\">");
    proof {
        acc = acc + "</td><td class=\"num\">"@;
    }
    assert(out@ =~= start + acc);
    append_chars(out, &opt_num_chars(r.result_id));
    proof {
        acc = acc + opt_num(r.result_id);
    }
    assert(out@ =~= start + acc);
    append_str(out, "</td></tr>");
    proof {
        acc = acc + "</td></tr>"@;
    }
    assert(out@ =~= start + acc);
    append_str(out, "\n");
    proof {
        acc = acc + "\n"@;
    }
    assert(out@ =~= start + acc);
}

/// The table rows, one line each.
pub fn team_member_rows_html(rows: &Vec<TeamMemberRow>) -> (r: String)
    ensures
        r@ == team_member_rows(rows@),
{
    let mut out: Vec<char> = Vec::new();
    let mut i: usize = 0;
    assert(rows@.take(0) =~= Seq::<TeamMemberRow>::empty());
    while i < rows.len()
        invariant
            0 <= i <= rows.len(),
            out@ == team_member_rows(rows@.take(i as int)),
        decreases rows.len() - i,
    {
        assert(rows@.take(i + 1).drop_last() =~= rows@.take(i as int));
        assert(rows@.take(i + 1).last() == rows@[i as int]);
        team_member_row_chars(&rows[i], &mut out);
        i += 1;
    }
    assert(rows@.take(i as int) =~= rows@);
    string_of(&out)
}

/// A row of the source documents.
pub open spec fn source_row(r: SourceDocumentRow) -> Seq<char> {
    "<tr><td class=\"num\">"@
        + signed_decimal(r.id as int)
        + "</td><td><a href=\"/sources/"@
        + signed_decimal(r.id as int)
        + "\">"@
        + escaped(r.source_name@)
        + "</a></td><td>"@
        + source_link_of(Some(r.url@))
        + "</td><td>"@
        + escaped(r.classification@)
        + "</td><td>"@
        + esc_opt(opt_seq(r.sha256))
        + "</td><td class=\"num\">"@
        + signed_decimal(r.result_count as int)
        + "</td><td class=\"num\">"@
        + signed_decimal(r.parser_row_count as int)
        + "</td></tr>"@
        + "\n"@
}

pub open spec fn source_rows(rows: Seq<SourceDocumentRow>) -> Seq<char>
    decreases rows.len(),
{
    if rows.len() == 0 {
        Seq::empty()
    } else {
        source_rows(rows.drop_last()) + source_row(rows.last())
    }
}

#[verifier::spinoff_prover]
#[verifier::rlimit(60)]
fn source_row_chars(r: &SourceDocumentRow, out: &mut Vec<char>)
    ensures
        final(out)@ == old(out)@ + source_row(*r),
{
    let ghost start = old(out)@;
    append_str(out, "<tr><td class=\"num\">");
    let ghost mut acc: Seq<char> = "<tr><td class=\"num\">"@;
    assert(out@ =~= start + acc);
    append_chars(out, &signed_decimal_chars(r.id));
    proof {
        acc = acc + signed_decimal(r.id as int);
    }
    assert(out@ =~= start + acc);
    append_str(out, "</td><td><a href=\"/sources/");
    proof {
        acc = acc + "</td><td><a href=\"/sources/"@;
    }
    assert(out@ =~= start + acc);
    append_chars(out, &signed_decimal_chars(r.id));
    proof {
        acc = acc + signed_decimal(r.id as int);
    }
    assert(out@ =~= start + acc);
    append_str(out, "\">");
    proof {
        acc = acc + "\">"@;
    }
    assert(out@ =~= start + acc);
    append_chars(out, &escape_chars(&chars_of(r.source_name.as_str())));
    proof {
        acc = acc + escaped(r.source_name@);
    }
    assert(out@ =~= start + acc);
    append_str(out, "</a></td><td>");
    proof {
        acc = acc + "</a></td><td>"@;
    }
    assert(out@ =~= start + acc);
    push_str(out, source_link(Some(r.url.as_str())));
    proof {
        acc = acc + source_link_of(Some(r.url@));
    }
    assert(out@ =~= start + acc);
    append_str(out, "</td><td>");
    proof {
        acc = acc + "</td><td>"@;
    }
    assert(out@ =~= start + acc);
    append_chars(out, &escape_chars(&chars_of(r.classification.as_str())));
    proof {
        acc = acc + escaped(r.classification@);
    }
    assert(out@ =~= start + acc);
    append_str(out, "</td><td>");
    proof {
        acc = acc + "</td><td>"@;
    }
    assert(out@ =~= start + acc);
    append_chars(out, &esc_opt_chars(&r.sha256));
    proof {
        acc = acc + esc_opt(opt_seq(r.sha256));
    }
    assert(out@ =~= start + acc);
    append_str(out, "</td><td class=\"num\">");
    proof {
        acc = acc + "</td><td class=\"num\">"@;
    }
    assert(out@ =~= start + acc);
    append_chars(out, &signed_decimal_chars(r.result_count));
    proof {
        acc = acc + signed_decimal(r.result_count as int);
    }
    assert(out@ =~= start + acc);
    append_str(out, "</td><td class=\"num\">");
    proof {
        acc = acc + "</td><td class=\"num\">"@;
    }
    assert(out@ =~= start + acc);
    append_chars(out, &signed_decimal_chars(r.parser_row_count));
    proof {
        acc = acc + signed_decimal(r.parser_row_count as int);
    }
    assert(out@ =~= start + acc);
    append_str(out, "</td></tr>");
    proof {
        acc = acc + "</td></tr>"@;
    }
    assert(out@ =~= start + acc);
    append_str(out, "\n");
    proof {
        acc = acc + "\n"@;
    }
    assert(out@ =~= start + acc);
}

/// The table rows of a listing, one line each.
pub fn source_rows_html(rows: &Vec<SourceDocumentRow>) -> (r: String)
    ensures
        r@ == source_rows(rows@),
{
    let mut out: Vec<char> = Vec::new();
    let mut i: usize = 0;
    assert(rows@.take(0) =~= Seq::<SourceDocumentRow>::empty());
    while i < rows.len()
        invariant
            0 <= i <= rows.len(),
            out@ == source_rows(rows@.take(i as int)),
        decreases rows.len() - i,
    {
        assert(rows@.take(i + 1).drop_last() =~= rows@.take(i as int));
        assert(rows@.take(i + 1).last() == rows@[i as int]);
        source_row_chars(&rows[i], &mut out);
        i += 1;
    }
    assert(rows@.take(i as int) =~= rows@);
    string_of(&out)
}

/// A row of the parser runs.
pub open spec fn parser_run_row(r: ParserRunRow) -> Seq<char> {
    "<tr><td class=\"num\"><a href=\"/parser-runs/"@
        + signed_decimal(r.id as int)
        + "\">"@
        + signed_decimal(r.id as int)
        + "</a></td><td>"@
        + escaped(r.source_name@)
        + "</td><td>"@
        + escaped(r.source_kind@)
        + "</td><td>"@
        + parser_label_of(Some(r.parser_name@), Some(r.parser_version@))
        + "</td><td>"@
        + escaped(r.status@)
        + "</td><td>"@
        + escaped(time_range_of(r.started_at@, opt_seq(r.finished_at)))
        + "</td><td>"@
        + escaped(r.input_path@)
        + "</td><td class=\"num\">"@
        + signed_decimal(r.parsed_row_count as int)
        + "</td><td class=\"num\">"@
        + signed_decimal(r.issue_count as int)
        + "</td></tr>"@
        + "\n"@
}

pub open spec fn parser_run_rows(rows: Seq<ParserRunRow>) -> Seq<char>
    decreases rows.len(),
{
    if rows.len() == 0 {
        Seq::empty()
    } else {
        parser_run_rows(rows.drop_last()) + parser_run_row(rows.last())
    }
}

#[verifier::spinoff_prover]
#[verifier::rlimit(60)]
fn parser_run_row_chars(r: &ParserRunRow, out: &mut Vec<char>)
    ensures
        final(out)@ == old(out)@ + parser_run_row(*r),
{
    let ghost start = old(out)@;
    append_str(out, "<tr><td class=\"num\"><a href=\"/parser-runs/");
    let ghost mut acc: Seq<char> = "<tr><td class=\"num\"><a href=\"/parser-runs/"@;
    assert(out@ =~= start + acc);
    append_chars(out, &signed_decimal_chars(r.id));
    proof {
        acc = acc + signed_decimal(r.id as int);
    }
    assert(out@ =~= start + acc);
    append_str(out, "\">");
    proof {
        acc = acc + "\">"@;
    }
    assert(out@ =~= start + acc);
    append_chars(out, &signed_decimal_chars(r.id));
    proof {
        acc = acc + signed_decimal(r.id as int);
    }
    assert(out@ =~= start + acc);
    append_str(out, "</a></td><td>");
    proof {
        acc = acc + "</a></td><td>"@;
    }
    assert(out@ =~= start + acc);
    append_chars(out, &escape_chars(&chars_of(r.source_name.as_str())));
    proof {
        acc = acc + escaped(r.source_name@);
    }
    assert(out@ =~= start + acc);
    append_str(out, "</td><td>");
    proof {
        acc = acc + "</td><td>"@;
    }
    assert(out@ =~= start + acc);
    append_chars(out, &escape_chars(&chars_of(r.source_kind.as_str())));
    proof {
        acc = acc + escaped(r.source_kind@);
    }
    assert(out@ =~= start + acc);
    append_str(out, "</td><td>");
    proof {
        acc = acc + "</td><td>"@;
    }
    assert(out@ =~= start + acc);
    push_str(out, parser_label(Some(r.parser_name.as_str()), Some(r.parser_version.as_str())));
    proof {
        acc = acc + parser_label_of(Some(r.parser_name@), Some(r.parser_version@));
    }
    assert(out@ =~= start + acc);
    append_str(out, "</td><td>");
    proof {
        acc = acc + "</td><td>"@;
    }
    assert(out@ =~= start + acc);
    append_chars(out, &escape_chars(&chars_of(r.status.as_str())));
    proof {
        acc = acc + escaped(r.status@);
    }
    assert(out@ =~= start + acc);
    append_str(out, "</td><td>");
    proof {
        acc = acc + "</td><td>"@;
    }
    assert(out@ =~= start + acc);
    append_chars(out, &escape_chars(&chars_of(format_time_range(r.started_at.as_str(), as_deref(&r.finished_at)).as_str())));
    proof {
        acc = acc + escaped(time_range_of(r.started_at@, opt_seq(r.finished_at)));
    }
    assert(out@ =~= start + acc);
    append_str(out, "</td><td>");
    proof {
        acc = acc + "</td><td>"@;
    }
    assert(out@ =~= start + acc);
    append_chars(out, &escape_chars(&chars_of(r.input_path.as_str())));
    proof {
        acc = acc + escaped(r.input_path@);
    }
    assert(out@ =~= start + acc);
    append_str(out, "</td><td class=\"num\">");
    proof {
        acc = acc + "</td><td class=\"num\">"@;
    }
    assert(out@ =~= start + acc);
    append_chars(out, &signed_decimal_chars(r.parsed_row_count));
    proof {
        acc = acc + signed_decimal(r.parsed_row_count as int);
    }
    assert(out@ =~= start + acc);
    append_str(out, "</td><td class=\"num\">");
    proof {
        acc = acc + "</td><td class=\"num\">"@;
    }
    assert(out@ =~= start + acc);
    append_chars(out, &signed_decimal_chars(r.issue_count));
    proof {
        acc = acc + signed_decimal(r.issue_count as int);
    }
    assert(out@ =~= start + acc);
    append_str(out, "</td></tr>");
    proof {
        acc = acc + "</td></tr>"@;
    }
    assert(out@ =~= start + acc);
    append_str(out, "\n");
    proof {
        acc = acc + "\n"@;
    }
    assert(out@ =~= start + acc);
}

/// The table rows of a listing, one line each.
pub fn parser_run_rows_html(rows: &Vec<ParserRunRow>) -> (r: String)
    ensures
        r@ == parser_run_rows(rows@),
{
    let mut out: Vec<char> = Vec::new();
    let mut i: usize = 0;
    assert(rows@.take(0) =~= Seq::<ParserRunRow>::empty());
    while i < rows.len()
        invariant
            0 <= i <= rows.len(),
            out@ == parser_run_rows(rows@.take(i as int)),
        decreases rows.len() - i,
    {
        assert(rows@.take(i + 1).drop_last() =~= rows@.take(i as int));
        assert(rows@.take(i + 1).last() == rows@[i as int]);
        parser_run_row_chars(&rows[i], &mut out);
        i += 1;
    }
    assert(rows@.take(i as int) =~= rows@);
    string_of(&out)
}

/// A row of the manual corrections; an active one can be revoked.
pub open spec fn correction_row(r: ManualOverrideRow) -> Seq<char> {
    "<tr><td class=\"num\">"@
        + signed_decimal(r.id as int)
        + "</td><td>"@
        + entity_label(r.entity_type@)
        + "</td><td>"@
        + escaped(r.field_name@)
        + "</td><td>"@
        + escaped(r.scope@)
        + "</td><td>"@
        + escaped(r.old_value@)
        + "</td><td>"@
        + escaped(r.new_value@)
        + "</td><td>"@
        + esc_opt(opt_seq(r.reason))
        + "</td><td>"@
        + escaped(r.status@)
        + "</td><td>"@
        + escaped(r.created_at@)
        + "</td><td>"@
        + escaped(r.updated_at@)
        + "</td><td>"@
        + revoke_action(r.status@, r.id)
        + "</td></tr>"@
        + "\n"@
}

pub open spec fn correction_rows(rows: Seq<ManualOverrideRow>) -> Seq<char>
    decreases rows.len(),
{
    if rows.len() == 0 {
        Seq::empty()
    } else {
        correction_rows(rows.drop_last()) + correction_row(rows.last())
    }
}

#[verifier::spinoff_prover]
#[verifier::rlimit(60)]
fn correction_row_chars(r: &ManualOverrideRow, out: &mut Vec<char>)
    ensures
        final(out)@ == old(out)@ + correction_row(*r),
{
    let ghost start = old(out)@;
    append_str(out, "<tr><td class=\"num\">");
    let ghost mut acc: Seq<char> = "<tr><td class=\"num\">"@;
    assert(out@ =~= start + acc);
    append_chars(out, &signed_decimal_chars(r.id));
    proof {
        acc = acc + signed_decimal(r.id as int);
    }
    assert(out@ =~= start + acc);
    append_str(out, "</td><td>");
    proof {
        acc = acc + "</td><td>"@;
    }
    assert(out@ =~= start + acc);
    append_str(out, entity_type_label(r.entity_type.as_str()));
    proof {
        acc = acc + entity_label(r.entity_type@);
    }
    assert(out@ =~= start + acc);
    append_str(out, "</td><td>");
    proof {
        acc = acc + "</td><td>"@;
    }
    assert(out@ =~= start + acc);
    append_chars(out, &escape_chars(&chars_of(r.field_name.as_str())));
    proof {
        acc = acc + escaped(r.field_name@);
    }
    assert(out@ =~= start + acc);
    append_str(out, "</td><td>");
    proof {
        acc = acc + "</td><td>"@;
    }
    assert(out@ =~= start + acc);
    append_chars(out, &escape_chars(&chars_of(r.scope.as_str())));
    proof {
        acc = acc + escaped(r.scope@);
    }
    assert(out@ =~= start + acc);
    append_str(out, "</td><td>");
    proof {
        acc = acc + "</td><td>"@;
    }
    assert(out@ =~= start + acc);
    append_chars(out, &escape_chars(&chars_of(r.old_value.as_str())));
    proof {
        acc = acc + escaped(r.old_value@);
    }
    assert(out@ =~= start + acc);
    append_str(out, "</td><td>");
    proof {
        acc = acc + "</td><td>"@;
    }
    assert(out@ =~= start + acc);
    append_chars(out, &escape_chars(&chars_of(r.new_value.as_str())));
    proof {
        acc = acc + escaped(r.new_value@);
    }
    assert(out@ =~= start + acc);
    append_str(out, "</td><td>");
    proof {
        acc = acc + "</td><td>"@;
    }
    assert(out@ =~= start + acc);
    append_chars(out, &esc_opt_chars(&r.reason));
    proof {
        acc = acc + esc_opt(opt_seq(r.reason));
    }
    assert(out@ =~= start + acc);
    append_str(out, "</td><td>");
    proof {
        acc = acc + "</td><td>"@;
    }
    assert(out@ =~= start + acc);
    append_chars(out, &escape_chars(&chars_of(r.status.as_str())));
    proof {
        acc = acc + escaped(r.status@);
    }
    assert(out@ =~= start + acc);
    append_str(out, "</td><td>");
    proof {
        acc = acc + "</td><td>"@;
    }
    assert(out@ =~= start + acc);
    append_chars(out, &escape_chars(&chars_of(r.created_at.as_str())));
    proof {
        acc = acc + escaped(r.created_at@);
    }
    assert(out@ =~= start + acc);
    append_str(out, "</td><td>");
    proof {
        acc = acc + "</td><td>"@;
    }
    assert(out@ =~= start + acc);
    append_chars(out, &escape_chars(&chars_of(r.updated_at.as_str())));
    proof {
        acc = acc + escaped(r.updated_at@);
    }
    assert(out@ =~= start + acc);
    append_str(out, "</td><td>");
    proof {
        acc = acc + "</td><td>"@;
    }
    assert(out@ =~= start + acc);
    append_chars(out, &revoke_action_chars(&r.status, r.id));
    proof {
        acc = acc + revoke_action(r.status@, r.id);
    }
    assert(out@ =~= start + acc);
    append_str(out, "</td></tr>");
    proof {
        acc = acc + "</td></tr>"@;
    }
    assert(out@ =~= start + acc);
    append_str(out, "\n");
    proof {
        acc = acc + "\n"@;
    }
    assert(out@ =~= start + acc);
}

/// The table rows of a listing, one line each.
pub fn correction_rows_html(rows: &Vec<ManualOverrideRow>) -> (r: String)
    ensures
        r@ == correction_rows(rows@),
{
    let mut out: Vec<char> = Vec::new();
    let mut i: usize = 0;
    assert(rows@.take(0) =~= Seq::<ManualOverrideRow>::empty());
    while i < rows.len()
        invariant
            0 <= i <= rows.len(),
            out@ == correction_rows(rows@.take(i as int)),
        decreases rows.len() - i,
    {
        assert(rows@.take(i + 1).drop_last() =~= rows@.take(i as int));
        assert(rows@.take(i + 1).last() == rows@[i as int]);
        correction_row_chars(&rows[i], &mut out);
        i += 1;
    }
    assert(rows@.take(i as int) =~= rows@);
    string_of(&out)
}

/// A row of the parser issues.
pub open spec fn parser_issue_row(r: ParsedIssueRow) -> Seq<char> {
    "<tr><td class=\"num\">"@
        + signed_decimal(r.id as int)
        + "</td><td>"@
        + escaped(r.source_name@)
        + "</td><td>"@
        + escaped(r.competition_scope@)
        + " "@
        + signed_decimal(r.competition_year as int)
        + "</td><td>"@
        + escaped(r.conflict_status@)
        + "</td><td>"@
        + issue_name_of(opt_seq(r.raw_shooter_name), opt_seq(r.normalized_shooter_name))
        + "</td><td>"@
        + issue_name_of(opt_seq(r.raw_club_name), opt_seq(r.normalized_club_name))
        + "</td><td>"@
        + discipline_cell_of(r)
        + "</td><td>"@
        + esc_opt(opt_seq(r.event_name))
        + "</td><td>"@
        + source_link_of(opt_seq(r.pdf_url))
        + "</td><td>"@
        + prefill_links_of(r)
        + "</td></tr>"@
        + "\n"@
}

pub open spec fn parser_issue_rows(rows: Seq<ParsedIssueRow>) -> Seq<char>
    decreases rows.len(),
{
    if rows.len() == 0 {
        Seq::empty()
    } else {
        parser_issue_rows(rows.drop_last()) + parser_issue_row(rows.last())
    }
}

#[verifier::spinoff_prover]
#[verifier::rlimit(60)]
fn parser_issue_row_chars(r: &ParsedIssueRow, out: &mut Vec<char>)
    ensures
        final(out)@ == old(out)@ + parser_issue_row(*r),
{
    let ghost start = old(out)@;
    append_str(out, "<tr><td class=\"num\">");
    let ghost mut acc: Seq<char> = "<tr><td class=\"num\">"@;
    assert(out@ =~= start + acc);
    append_chars(out, &signed_decimal_chars(r.id));
    proof {
        acc = acc + signed_decimal(r.id as int);
    }
    assert(out@ =~= start + acc);
    append_str(out, "</td><td>");
    proof {
        acc = acc + "</td><td>"@;
    }
    assert(out@ =~= start + acc);
    append_chars(out, &escape_chars(&chars_of(r.source_name.as_str())));
    proof {
        acc = acc + escaped(r.source_name@);
    }
    assert(out@ =~= start + acc);
    append_str(out, "</td><td>");
    proof {
        acc = acc + "</td><td>"@;
    }
    assert(out@ =~= start + acc);
    append_chars(out, &escape_chars(&chars_of(r.competition_scope.as_str())));
    proof {
        acc = acc + escaped(r.competition_scope@);
    }
    assert(out@ =~= start + acc);
    append_str(out, " ");
    proof {
        acc = acc + " "@;
    }
    assert(out@ =~= start + acc);
    append_chars(out, &signed_decimal_chars(r.competition_year));
    proof {
        acc = acc + signed_decimal(r.competition_year as int);
    }
    assert(out@ =~= start + acc);
    append_str(out, "</td><td>");
    proof {
        acc = acc + "</td><td>"@;
    }
    assert(out@ =~= start + acc);
    append_chars(out, &escape_chars(&chars_of(r.conflict_status.as_str())));
    proof {
        acc = acc + escaped(r.conflict_status@);
    }
    assert(out@ =~= start + acc);
    append_str(out, "</td><td>");
    proof {
        acc = acc + "</td><td>"@;
    }
    assert(out@ =~= start + acc);
    push_str(out, issue_name_cell(as_deref(&r.raw_shooter_name), as_deref(&r.normalized_shooter_name)));
    proof {
        acc = acc + issue_name_of(opt_seq(r.raw_shooter_name), opt_seq(r.normalized_shooter_name));
    }
    assert(out@ =~= start + acc);
    append_str(out, "</td><td>");
    proof {
        acc = acc + "</td><td>"@;
    }
    assert(out@ =~= start + acc);
    push_str(out, issue_name_cell(as_deref(&r.raw_club_name), as_deref(&r.normalized_club_name)));
    proof {
        acc = acc + issue_name_of(opt_seq(r.raw_club_name), opt_seq(r.normalized_club_name));
    }
    assert(out@ =~= start + acc);
    append_str(out, "</td><td>");
    proof {
        acc = acc + "</td><td>"@;
    }
    assert(out@ =~= start + acc);
    push_str(out, discipline_issue_cell(r));
    proof {
        acc = acc + discipline_cell_of(*r);
    }
    assert(out@ =~= start + acc);
    append_str(out, "</td><td>");
    proof {
        acc = acc + "</td><td>"@;
    }
    assert(out@ =~= start + acc);
    append_chars(out, &esc_opt_chars(&r.event_name));
    proof {
        acc = acc + esc_opt(opt_seq(r.event_name));
    }
    assert(out@ =~= start + acc);
    append_str(out, "</td><td>");
    proof {
        acc = acc + "</td><td>"@;
    }
    assert(out@ =~= start + acc);
    push_str(out, source_link(as_deref(&r.pdf_url)));
    proof {
        acc = acc + source_link_of(opt_seq(r.pdf_url));
    }
    assert(out@ =~= start + acc);
    append_str(out, "</td><td>");
    proof {
        acc = acc + "</td><td>"@;
    }
    assert(out@ =~= start + acc);
    push_str(out, correction_prefill_links(r));
    proof {
        acc = acc + prefill_links_of(*r);
    }
    assert(out@ =~= start + acc);
    append_str(out, "</td></tr>");
    proof {
        acc = acc + "</td></tr>"@;
    }
    assert(out@ =~= start + acc);
    append_str(out, "\n");
    proof {
        acc = acc + "\n"@;
    }
    assert(out@ =~= start + acc);
}

/// The table rows of a listing, one line each.
pub fn parser_issue_rows_html(rows: &Vec<ParsedIssueRow>) -> (r: String)
    ensures
        r@ == parser_issue_rows(rows@),
{
    let mut out: Vec<char> = Vec::new();
    let mut i: usize = 0;
    assert(rows@.take(0) =~= Seq::<ParsedIssueRow>::empty());
    while i < rows.len()
        invariant
            0 <= i <= rows.len(),
            out@ == parser_issue_rows(rows@.take(i as int)),
        decreases rows.len() - i,
    {
        assert(rows@.take(i + 1).drop_last() =~= rows@.take(i as int));
        assert(rows@.take(i + 1).last() == rows@[i as int]);
        parser_issue_row_chars(&rows[i], &mut out);
        i += 1;
    }
    assert(rows@.take(i as int) =~= rows@);
    string_of(&out)
}

/// A row of the club aliases; an active one can be deactivated.
pub open spec fn club_alias_row(r: ClubAliasListRow) -> Seq<char> {
    "<tr><td class=\"num\">"@
        + signed_decimal(r.id as int)
        + "</td><td>"@
        + escaped(r.alias@)
        + "</td><td><a href=\"/clubs/"@
        + signed_decimal(r.club_id as int)
        + "\">"@
        + escaped(r.canonical_name@)
        + "</a></td><td>"@
        + esc_opt(opt_seq(r.association_code))
        + "</td><td>"@
        + esc_opt(opt_seq(r.source))
        + "</td><td>"@
        + escaped(r.status@)
        + "</td><td>"@
        + deactivate_action(r.status@, r.id)
        + "</td></tr>"@
        + "\n"@
}

pub open spec fn club_alias_rows(rows: Seq<ClubAliasListRow>) -> Seq<char>
    decreases rows.len(),
{
    if rows.len() == 0 {
        Seq::empty()
    } else {
        club_alias_rows(rows.drop_last()) + club_alias_row(rows.last())
    }
}

#[verifier::spinoff_prover]
#[verifier::rlimit(60)]
fn club_alias_row_chars(r: &ClubAliasListRow, out: &mut Vec<char>)
    ensures
        final(out)@ == old(out)@ + club_alias_row(*r),
{
    let ghost start = old(out)@;
    append_str(out, "<tr><td class=\"num\">");
    let ghost mut acc: Seq<char> = "<tr><td class=\"num\">"@;
    assert(out@ =~= start + acc);
    append_chars(out, &signed_decimal_chars(r.id));
    proof {
        acc = acc + signed_decimal(r.id as int);
    }
    assert(out@ =~= start + acc);
    append_str(out, "</td><td>");
    proof {
        acc = acc + "</td><td>"@;
    }
    assert(out@ =~= start + acc);
    append_chars(out, &escape_chars(&chars_of(r.alias.as_str())));
    proof {
        acc = acc + escaped(r.alias@);
    }
    assert(out@ =~= start + acc);
    append_str(out, "</td><td><a href=\"/clubs/");
    proof {
        acc = acc + "</td><td><a href=\"/clubs/"@;
    }
    assert(out@ =~= start + acc);
    append_chars(out, &signed_decimal_chars(r.club_id));
    proof {
        acc = acc + signed_decimal(r.club_id as int);
    }
    assert(out@ =~= start + acc);
    append_str(out, "\">");
    proof {
        acc = acc + "\">"@;
    }
    assert(out@ =~= start + acc);
    append_chars(out, &escape_chars(&chars_of(r.canonical_name.as_str())));
    proof {
        acc = acc + escaped(r.canonical_name@);
    }
    assert(out@ =~= start + acc);
    append_str(out, "</a></td><td>");
    proof {
        acc = acc + "</a></td><td>"@;
    }
    assert(out@ =~= start + acc);
    append_chars(out, &esc_opt_chars(&r.association_code));
    proof {
        acc = acc + esc_opt(opt_seq(r.association_code));
    }
    assert(out@ =~= start + acc);
    append_str(out, "</td><td>");
    proof {
        acc = acc + "</td><td>"@;
    }
    assert(out@ =~= start + acc);
    append_chars(out, &esc_opt_chars(&r.source));
    proof {
        acc = acc + esc_opt(opt_seq(r.source));
    }
    assert(out@ =~= start + acc);
    append_str(out, "</td><td>");
    proof {
        acc = acc + "</td><td>"@;
    }
    assert(out@ =~= start + acc);
    append_chars(out, &escape_chars(&chars_of(r.status.as_str())));
    proof {
        acc = acc + escaped(r.status@);
    }
    assert(out@ =~= start + acc);
    append_str(out, "</td><td>");
    proof {
        acc = acc + "</td><td>"@;
    }
    assert(out@ =~= start + acc);
    append_chars(out, &deactivate_action_chars(&r.status, r.id));
    proof {
        acc = acc + deactivate_action(r.status@, r.id);
    }
    assert(out@ =~= start + acc);
    append_str(out, "</td></tr>");
    proof {
        acc = acc + "</td></tr>"@;
    }
    assert(out@ =~= start + acc);
    append_str(out, "\n");
    proof {
        acc = acc + "\n"@;
    }
    assert(out@ =~= start + acc);
}

/// The table rows of a listing, one line each.
pub fn club_alias_rows_html(rows: &Vec<ClubAliasListRow>) -> (r: String)
    ensures
        r@ == club_alias_rows(rows@),
{
    let mut out: Vec<char> = Vec::new();
    let mut i: usize = 0;
    assert(rows@.take(0) =~= Seq::<ClubAliasListRow>::empty());
    while i < rows.len()
        invariant
            0 <= i <= rows.len(),
            out@ == club_alias_rows(rows@.take(i as int)),
        decreases rows.len() - i,
    {
        assert(rows@.take(i + 1).drop_last() =~= rows@.take(i as int));
        assert(rows@.take(i + 1).last() == rows@[i as int]);
        club_alias_row_chars(&rows[i], &mut out);
        i += 1;
    }
    assert(rows@.take(i as int) =~= rows@);
    string_of(&out)
}

// ---------------------------------------------------------------------------
// Row actions and issue cells
// ---------------------------------------------------------------------------

/// An alias of a club as the alias list shows it.
#[derive(Debug, Clone)]
pub struct ClubAliasListRow {
    pub id: i64,
    pub club_id: i64,
    pub alias: String,
    pub canonical_name: String,
    pub association_code: Option<String>,
    pub source: Option<String>,
    pub status: String,
}

/// The form that revokes an active correction; nothing for another.
pub open spec fn revoke_action(status: Seq<char>, id: i64) -> Seq<char> {
    if status == "active"@ {
        "<form class=\"inline\" method=\"post\" action=\"/corrections/"@ + signed_decimal(id as int)
            + "/revoke\"><button type=\"submit\">Zuruecknehmen</button></form>"@
    } else {
        Seq::empty()
    }
}

fn revoke_action_chars(status: &String, id: i64) -> (r: Vec<char>)
    ensures
        r@ == revoke_action(status@, id),
{
    if eq_str(&chars_of(status.as_str()), "active") {
        let mut out = chars_of("<form class=\"inline\" method=\"post\" action=\"/corrections/");
        append_chars(&mut out, &signed_decimal_chars(id));
        append_str(&mut out, "/revoke\"><button type=\"submit\">Zuruecknehmen</button></form>");
        out
    } else {
        Vec::new()
    }
}

/// The form that deactivates an active alias; nothing for another.
pub open spec fn deactivate_action(status: Seq<char>, id: i64) -> Seq<char> {
    if status == "active"@ {
        "<form class=\"inline\" method=\"post\" action=\"/club-aliases/"@ + signed_decimal(id as int)
            + "/deactivate\"><button type=\"submit\">Deaktivieren</button></form>"@
    } else {
        Seq::empty()
    }
}

fn deactivate_action_chars(status: &String, id: i64) -> (r: Vec<char>)
    ensures
        r@ == deactivate_action(status@, id),
{
    if eq_str(&chars_of(status.as_str()), "active") {
        let mut out = chars_of("<form class=\"inline\" method=\"post\" action=\"/club-aliases/");
        append_chars(&mut out, &signed_decimal_chars(id));
        append_str(&mut out, "/deactivate\"><button type=\"submit\">Deaktivieren</button></form>");
        out
    } else {
        Vec::new()
    }
}

/// The number of corrections that are active.
pub open spec fn active_count_of(rows: Seq<ManualOverrideRow>) -> nat
    decreases rows.len(),
{
    if rows.len() == 0 {
        0
    } else {
        active_count_of(rows.drop_last()) + if rows.last().status@ == "active"@ {
            1nat
        } else {
            0nat
        }
    }
}

pub fn active_override_count(rows: &Vec<ManualOverrideRow>) -> (r: usize)
    ensures
        r == active_count_of(rows@),
{
    let mut n: usize = 0;
    let mut i: usize = 0;
    assert(rows@.take(0) =~= Seq::<ManualOverrideRow>::empty());
    while i < rows.len()
        invariant
            0 <= i <= rows.len(),
            n == active_count_of(rows@.take(i as int)),
            n <= i,
        decreases rows.len() - i,
    {
        assert(rows@.take(i + 1).drop_last() =~= rows@.take(i as int));
        assert(rows@.take(i + 1).last() == rows@[i as int]);
        if eq_str(&chars_of(rows[i].status.as_str()), "active") {
            n += 1;
        }
        i += 1;
    }
    assert(rows@.take(i as int) =~= rows@);
    n
}

/// The escaped values that are not blank, in order.
pub open spec fn nonblank_escaped(vals: Seq<Option<Seq<char>>>) -> Seq<Seq<char>>
    decreases vals.len(),
{
    if vals.len() == 0 {
        Seq::empty()
    } else {
        let prev = nonblank_escaped(vals.drop_last());
        match vals.last() {
            Some(v) => if trim(v).len() > 0 {
                prev.push(escaped(v))
            } else {
                prev
            },
            None => prev,
        }
    }
}

/// The discipline of a parser issue: code, discipline and class where
/// given, escaped and separated by spaces.
pub open spec fn discipline_cell_of(r: ParsedIssueRow) -> Seq<char> {
    join(
        nonblank_escaped(seq![opt_seq(r.discipline_code), opt_seq(r.raw_discipline), opt_seq(r.class_name)]),
        " "@,
    )
}

fn push_nonblank(parts: &mut Vec<Vec<char>>, v: &Option<String>)
    ensures
        views(final(parts)@) == match opt_seq(*v) {
            Some(s) => if trim(s).len() > 0 {
                views(old(parts)@).push(escaped(s))
            } else {
                views(old(parts)@)
            },
            None => views(old(parts)@),
        },
{
    match v {
        Some(s) => {
            let c = chars_of(s.as_str());
            if trim_chars(&c).len() > 0 {
                let ghost before = views(parts@);
                parts.push(escape_chars(&c));
                assert(views(parts@) =~= before.push(escaped(s@)));
            }
        },
        None => {},
    }
}

pub fn discipline_issue_cell(r: &ParsedIssueRow) -> (out: String)
    ensures
        out@ == discipline_cell_of(*r),
{
    let mut parts: Vec<Vec<char>> = Vec::new();
    let ghost vals = seq![opt_seq(r.discipline_code), opt_seq(r.raw_discipline), opt_seq(r.class_name)];
    assert(vals.take(0) =~= Seq::<Option<Seq<char>>>::empty());
    assert(views(parts@) =~= nonblank_escaped(vals.take(0)));
    push_nonblank(&mut parts, &r.discipline_code);
    assert(vals.take(1).drop_last() =~= vals.take(0));
    assert(vals.take(1).last() == opt_seq(r.discipline_code));
    assert(views(parts@) == nonblank_escaped(vals.take(1)));
    push_nonblank(&mut parts, &r.raw_discipline);
    assert(vals.take(2).drop_last() =~= vals.take(1));
    assert(vals.take(2).last() == opt_seq(r.raw_discipline));
    assert(views(parts@) == nonblank_escaped(vals.take(2)));
    push_nonblank(&mut parts, &r.class_name);
    assert(vals.take(3).drop_last() =~= vals.take(2));
    assert(vals.take(3).last() == opt_seq(r.class_name));
    assert(views(parts@) == nonblank_escaped(vals.take(3)));
    assert(vals.take(3) =~= vals);
    string_of(&join_chars(&parts, &chars_of(" ")))
}

/// A link that opens the correction form for a value (see
/// `web::prefill_link`).
pub open spec fn prefill_of(entity_type: Seq<char>, old_value: Seq<char>) -> Seq<char> {
    "<a href=\"/corrections?entity_type="@ + escaped(entity_type) + "&old_value="@ + percent_encoded(
        vstd::utf8::encode_utf8(old_value),
    ) + "\">Korrigieren</a>"@
}

/// The links that correct the raw club and the raw shooter of a parser
/// issue, where they are not empty.
pub open spec fn prefill_links_of(r: ParsedIssueRow) -> Seq<char> {
    let club = match opt_seq(r.raw_club_name) {
        Some(c) => if c.len() > 0 {
            seq![prefill_of("club"@, c)]
        } else {
            Seq::empty()
        },
        None => Seq::empty(),
    };
    let athlete = match opt_seq(r.raw_shooter_name) {
        Some(a) => if a.len() > 0 {
            seq![prefill_of("athlete"@, a)]
        } else {
            Seq::empty()
        },
        None => Seq::empty(),
    };
    join(club + athlete, " "@)
}

pub fn correction_prefill_links(r: &ParsedIssueRow) -> (out: String)
    ensures
        out@ == prefill_links_of(*r),
{
    proof {
        reveal_strlit("club");
        reveal_strlit("athlete");
    }
    let mut links: Vec<Vec<char>> = Vec::new();
    match &r.raw_club_name {
        Some(c) => {
            if chars_of(c.as_str()).len() > 0 {
                links.push(chars_of(crate::web::prefill_link("club", c.as_str()).as_str()));
            }
        },
        None => {},
    }
    let ghost after_club = views(links@);
    match &r.raw_shooter_name {
        Some(a) => {
            if chars_of(a.as_str()).len() > 0 {
                links.push(chars_of(crate::web::prefill_link("athlete", a.as_str()).as_str()));
            }
        },
        None => {},
    }
    assert(views(links@) =~= ({
        let club = match opt_seq(r.raw_club_name) {
            Some(c) => if c.len() > 0 {
                seq![prefill_of("club"@, c)]
            } else {
                Seq::empty()
            },
            None => Seq::empty(),
        };
        let athlete = match opt_seq(r.raw_shooter_name) {
            Some(a) => if a.len() > 0 {
                seq![prefill_of("athlete"@, a)]
            } else {
                Seq::empty()
            },
            None => Seq::empty(),
        };
        club + athlete
    }));
    string_of(&join_chars(&links, &chars_of(" ")))
}

/// The label of a stored result: participation, its medal, team, or its
/// class (`Einzel` where it has none).
pub open spec fn result_type_of(
    participation_only: i64,
    medal: Option<Seq<char>>,
    result_kind: Seq<char>,
    event_class: Option<Seq<char>>,
) -> Seq<char> {
    if participation_only == 1 {
        "Teilnahme"@
    } else if medal is Some && medal->0.len() > 0 {
        escaped(medal->0)
    } else if result_kind == "team"@ {
        "Mannschaft"@
    } else {
        escaped(
            match event_class {
                Some(c) => c,
                None => "Einzel"@,
            },
        )
    }
}

pub fn result_type_label(
    participation_only: i64,
    medal: Option<&str>,
    result_kind: &str,
    event_class: Option<&str>,
) -> (r: String)
    ensures
        r@ == result_type_of(
            participation_only,
            match medal {
                Some(m) => Some(m@),
                None => None,
            },
            result_kind@,
            match event_class {
                Some(c) => Some(c@),
                None => None,
            },
        ),
{
    if participation_only == 1 {
        return String::from_str("Teilnahme");
    }
    match medal {
        Some(m) => {
            if chars_of(m).len() > 0 {
                return escape_html(m);
            }
        },
        None => {},
    }
    if eq_str(&chars_of(result_kind), "team") {
        String::from_str("Mannschaft")
    } else {
        match event_class {
            Some(c) => escape_html(c),
            None => escape_html("Einzel"),
        }
    }
}

// ---------------------------------------------------------------------------
// Filters of the listings
// ---------------------------------------------------------------------------

/// A query parameter read as an `i64`.
pub open spec fn query_i64_of(query: Seq<(Seq<char>, Seq<char>)>, key: Seq<char>) -> Option<i64> {
    match query_text(query, key) {
        Some(t) => parse_i64(t),
        None => None,
    }
}

pub fn query_i64(query: &Vec<(String, String)>, key: &str) -> (r: Option<i64>)
    ensures
        r == query_i64_of(pair_views(query@), key@),
{
    match non_empty_query(query, key) {
        Some(t) => crate::text::parse_i64_chars(&chars_of(t.as_str())),
        None => None,
    }
}

pub open spec fn text_of(o: Option<String>) -> Option<Seq<char>> {
    opt_seq(o)
}

/// The filters of the result list: `q`, `year`, `scope`, `kreis` and
/// `wertung`.
pub fn result_filters(query: &Vec<(String, String)>) -> (r: ResultFilters)
    ensures
        text_of(r.search) == query_text(pair_views(query@), "q"@),
        r.year == query_i64_of(pair_views(query@), "year"@),
        text_of(r.scope) == query_text(pair_views(query@), "scope"@),
        text_of(r.association_code) == query_text(pair_views(query@), "kreis"@),
        text_of(r.result_kind) == query_text(pair_views(query@), "wertung"@),
        r.import_run_id is None && r.athlete_id is None && r.club_id is None,
        r.source_document_id is None,
{
    ResultFilters {
        search: non_empty_query(query, "q"),
        year: query_i64(query, "year"),
        scope: non_empty_query(query, "scope"),
        association_code: non_empty_query(query, "kreis"),
        result_kind: non_empty_query(query, "wertung"),
        import_run_id: None,
        athlete_id: None,
        club_id: None,
        source_document_id: None,
    }
}

/// The filters of the combined evaluation: `q`, `year`, and the club in
/// `verein`.
pub fn combined_filters(query: &Vec<(String, String)>) -> (r: ResultFilters)
    ensures
        text_of(r.search) == query_text(pair_views(query@), "q"@),
        r.year == query_i64_of(pair_views(query@), "year"@),
        text_of(r.association_code) == query_text(pair_views(query@), "verein"@),
        r.scope is None && r.result_kind is None,
        r.import_run_id is None && r.athlete_id is None && r.club_id is None,
        r.source_document_id is None,
{
    ResultFilters {
        search: non_empty_query(query, "q"),
        year: query_i64(query, "year"),
        scope: None,
        association_code: non_empty_query(query, "verein"),
        result_kind: None,
        import_run_id: None,
        athlete_id: None,
        club_id: None,
        source_document_id: None,
    }
}

/// The filters of the athlete list: `q`, `verein` and `year`.
pub fn athlete_filters(query: &Vec<(String, String)>) -> (r: AthleteFilters)
    ensures
        text_of(r.search) == query_text(pair_views(query@), "q"@),
        text_of(r.club) == query_text(pair_views(query@), "verein"@),
        r.year == query_i64_of(pair_views(query@), "year"@),
{
    AthleteFilters {
        search: non_empty_query(query, "q"),
        club: non_empty_query(query, "verein"),
        year: query_i64(query, "year"),
    }
}

/// The filters of the club list: `q`, `kreis` and `year`.
pub fn club_filters(query: &Vec<(String, String)>) -> (r: ClubFilters)
    ensures
        text_of(r.search) == query_text(pair_views(query@), "q"@),
        text_of(r.association_code) == query_text(pair_views(query@), "kreis"@),
        r.year == query_i64_of(pair_views(query@), "year"@),
{
    ClubFilters {
        search: non_empty_query(query, "q"),
        association_code: non_empty_query(query, "kreis"),
        year: query_i64(query, "year"),
    }
}

/// The filters of the team list: `q`, `year`, `scope` and `kreis`.
pub fn team_filters(query: &Vec<(String, String)>) -> (r: TeamFilters)
    ensures
        text_of(r.search) == query_text(pair_views(query@), "q"@),
        r.year == query_i64_of(pair_views(query@), "year"@),
        text_of(r.scope) == query_text(pair_views(query@), "scope"@),
        text_of(r.association_code) == query_text(pair_views(query@), "kreis"@),
{
    TeamFilters {
        search: non_empty_query(query, "q"),
        year: query_i64(query, "year"),
        scope: non_empty_query(query, "scope"),
        association_code: non_empty_query(query, "kreis"),
    }
}

// ---------------------------------------------------------------------------
// Filter forms
// ---------------------------------------------------------------------------

/// An optional text escaped, or nothing.
pub open spec fn field_value(o: Option<String>) -> Seq<char> {
    match o {
        Some(s) => escaped(s@),
        None => Seq::empty(),
    }
}

fn field_value_chars(o: &Option<String>) -> (r: Vec<char>)
    ensures
        r@ == field_value(*o),
{
    match o {
        Some(s) => escape_chars(&chars_of(s.as_str())),
        None => Vec::new(),
    }
}

/// `selected` where an optional value is the expected one.
pub open spec fn selected_of(o: Option<String>, expected: Seq<char>) -> Seq<char> {
    match o {
        Some(v) => if v@ == expected {
            "selected"@
        } else {
            ""@
        },
        None => ""@,
    }
}

/// The end of every filter form: the page size kept, and the buttons.
pub open spec fn form_end(action: Seq<char>, page_size: nat) -> Seq<char> {
    "\n  <input type=\"hidden\" name=\"page_size\" value=\""@ + decimal(page_size)
        + "\">\n  <div class=\"actions\"><button type=\"submit\">Filtern</button><a href=\""@ + action
        + "\">Zuruecksetzen</a></div>\n</form>"@
}

fn form_end_chars(out: &mut Vec<char>, action: &str, page: PageState)
    ensures
        final(out)@ == old(out)@ + form_end(action@, page.page_size as nat),
{
    append_str(out, "\n  <input type=\"hidden\" name=\"page_size\" value=\"");
    append_chars(out, &decimal_chars(page.page_size as u64));
    append_str(out, "\">\n  <div class=\"actions\"><button type=\"submit\">Filtern</button><a href=\"");
    append_chars(out, &chars_of(action));
    append_str(out, "\">Zuruecksetzen</a></div>\n</form>");
}

/// The start of every filter form, up to the search field's value.
pub open spec fn form_start(action: Seq<char>) -> Seq<char> {
    "<form class=\"filter-bar\" method=\"get\" action=\""@ + action
        + "\">\n  <label>Suche <input name=\"q\" value=\""@
}

fn form_start_chars(action: &str) -> (r: Vec<char>)
    ensures
        r@ == form_start(action@),
{
    let mut out = chars_of("<form class=\"filter-bar\" method=\"get\" action=\"");
    append_chars(&mut out, &chars_of(action));
    append_str(&mut out, "\">\n  <label>Suche <input name=\"q\" value=\"");
    out
}

/// The year field with its value.
pub open spec fn year_field(year: Option<i64>) -> Seq<char> {
    "\"></label>\n  <label>Jahr <input name=\"year\" inputmode=\"numeric\" value=\""@ + opt_num(year)
}

fn year_field_chars(out: &mut Vec<char>, year: Option<i64>)
    ensures
        final(out)@ == old(out)@ + year_field(year),
{
    append_str(out, "\"></label>\n  <label>Jahr <input name=\"year\" inputmode=\"numeric\" value=\"");
    append_chars(out, &opt_num_chars(year));
}

/// The filter form of the result list.
pub open spec fn result_form_of(f: ResultFilters, action: Seq<char>, page_size: nat) -> Seq<char> {
    form_start(action) + field_value(f.search) + year_field(f.year)
        + "\"></label>\n  <label>Ursprung <input name=\"scope\" value=\""@ + field_value(f.scope)
        + "\" placeholder=\"LM, DM, KM\"></label>\n  <label>Kreis <input name=\"kreis\" value=\""@
        + field_value(f.association_code)
        + "\" placeholder=\"OD\"></label>\n  <label>Wertung <select name=\"wertung\">\n    <option value=\"\">Alle</option>\n    <option value=\"individual\" "@
        + selected_of(f.result_kind, "individual"@)
        + ">Einzel</option>\n    <option value=\"team\" "@ + selected_of(f.result_kind, "team"@)
        + ">Mannschaft</option>\n  </select></label>"@ + form_end(action, page_size)
}

fn selected_chars(o: &Option<String>, expected: &str) -> (r: Vec<char>)
    ensures
        r@ == selected_of(*o, expected@),
{
    chars_of(selected_str(as_deref(o), expected))
}

pub fn result_filter_form(filters: &ResultFilters, action: &str, page: PageState) -> (r: String)
    ensures
        r@ == result_form_of(*filters, action@, page.page_size as nat),
{
    let mut out = form_start_chars(action);
    append_chars(&mut out, &field_value_chars(&filters.search));
    year_field_chars(&mut out, filters.year);
    append_str(&mut out, "\"></label>\n  <label>Ursprung <input name=\"scope\" value=\"");
    append_chars(&mut out, &field_value_chars(&filters.scope));
    append_str(&mut out, "\" placeholder=\"LM, DM, KM\"></label>\n  <label>Kreis <input name=\"kreis\" value=\"");
    append_chars(&mut out, &field_value_chars(&filters.association_code));
    append_str(
        &mut out,
        "\" placeholder=\"OD\"></label>\n  <label>Wertung <select name=\"wertung\">\n    <option value=\"\">Alle</option>\n    <option value=\"individual\" ",
    );
    append_chars(&mut out, &selected_chars(&filters.result_kind, "individual"));
    append_str(&mut out, ">Einzel</option>\n    <option value=\"team\" ");
    append_chars(&mut out, &selected_chars(&filters.result_kind, "team"));
    append_str(&mut out, ">Mannschaft</option>\n  </select></label>");
    form_end_chars(&mut out, action, page);
    string_of(&out)
}

/// The filter form of the athlete list.
pub open spec fn athlete_form_of(f: AthleteFilters, action: Seq<char>, page_size: nat) -> Seq<char> {
    form_start(action) + field_value(f.search)
        + "\"></label>\n  <label>Verein <input name=\"verein\" value=\""@ + field_value(f.club)
        + year_field(f.year) + "\"></label>"@ + form_end(action, page_size)
}

pub fn athlete_filter_form(filters: &AthleteFilters, action: &str, page: PageState) -> (r: String)
    ensures
        r@ == athlete_form_of(*filters, action@, page.page_size as nat),
{
    let mut out = form_start_chars(action);
    append_chars(&mut out, &field_value_chars(&filters.search));
    append_str(&mut out, "\"></label>\n  <label>Verein <input name=\"verein\" value=\"");
    append_chars(&mut out, &field_value_chars(&filters.club));
    year_field_chars(&mut out, filters.year);
    append_str(&mut out, "\"></label>");
    form_end_chars(&mut out, action, page);
    string_of(&out)
}

/// The filter form of the club list.
pub open spec fn club_form_of(f: ClubFilters, action: Seq<char>, page_size: nat) -> Seq<char> {
    form_start(action) + field_value(f.search)
        + "\"></label>\n  <label>Kreis <input name=\"kreis\" value=\""@ + field_value(f.association_code)
        + "\" placeholder=\"OD"@ + year_field(f.year) + "\"></label>"@ + form_end(action, page_size)
}

pub fn club_filter_form(filters: &ClubFilters, action: &str, page: PageState) -> (r: String)
    ensures
        r@ == club_form_of(*filters, action@, page.page_size as nat),
{
    let mut out = form_start_chars(action);
    append_chars(&mut out, &field_value_chars(&filters.search));
    append_str(&mut out, "\"></label>\n  <label>Kreis <input name=\"kreis\" value=\"");
    append_chars(&mut out, &field_value_chars(&filters.association_code));
    append_str(&mut out, "\" placeholder=\"OD");
    year_field_chars(&mut out, filters.year);
    append_str(&mut out, "\"></label>");
    form_end_chars(&mut out, action, page);
    string_of(&out)
}

/// The filter form of the team list.
pub open spec fn team_form_of(f: TeamFilters, action: Seq<char>, page_size: nat) -> Seq<char> {
    form_start(action) + field_value(f.search) + year_field(f.year)
        + "\"></label>\n  <label>Ursprung <input name=\"scope\" value=\""@ + field_value(f.scope)
        + "\" placeholder=\"LM, DM, KM\"></label>\n  <label>Kreis <input name=\"kreis\" value=\""@
        + field_value(f.association_code) + "\" placeholder=\"OD\"></label>"@ + form_end(action, page_size)
}

pub fn team_filter_form(filters: &TeamFilters, action: &str, page: PageState) -> (r: String)
    ensures
        r@ == team_form_of(*filters, action@, page.page_size as nat),
{
    let mut out = form_start_chars(action);
    append_chars(&mut out, &field_value_chars(&filters.search));
    year_field_chars(&mut out, filters.year);
    append_str(&mut out, "\"></label>\n  <label>Ursprung <input name=\"scope\" value=\"");
    append_chars(&mut out, &field_value_chars(&filters.scope));
    append_str(&mut out, "\" placeholder=\"LM, DM, KM\"></label>\n  <label>Kreis <input name=\"kreis\" value=\"");
    append_chars(&mut out, &field_value_chars(&filters.association_code));
    append_str(&mut out, "\" placeholder=\"OD\"></label>");
    form_end_chars(&mut out, action, page);
    string_of(&out)
}

/// The filter form of the combined evaluation; the club field shows the
/// club filter.
pub open spec fn combined_form_of(f: ResultFilters, action: Seq<char>, page_size: nat) -> Seq<char> {
    form_start(action) + field_value(f.search) + year_field(f.year)
        + "\"></label>\n  <label>Verein <input name=\"verein\" value=\""@ + field_value(f.association_code)
        + "\"></label>"@ + form_end(action, page_size)
}

pub fn combined_filter_form(filters: &ResultFilters, action: &str, page: PageState) -> (r: String)
    ensures
        r@ == combined_form_of(*filters, action@, page.page_size as nat),
{
    let mut out = form_start_chars(action);
    append_chars(&mut out, &field_value_chars(&filters.search));
    year_field_chars(&mut out, filters.year);
    append_str(&mut out, "\"></label>\n  <label>Verein <input name=\"verein\" value=\"");
    append_chars(&mut out, &field_value_chars(&filters.association_code));
    append_str(&mut out, "\"></label>");
    form_end_chars(&mut out, action, page);
    string_of(&out)
}


// ---------------------------------------------------------------------------
// Forms that change data
// ---------------------------------------------------------------------------

/// The message of a form that lacks a field.
pub open spec fn missing_value(key: Seq<char>) -> Seq<char> {
    "missing form value "@ + key
}

/// The trimmed value of a required form field, or the message that it is
/// missing.
pub fn form_value(form: &Vec<(String, String)>, key: &str) -> (r: Result<String, String>)
    ensures
        match (r, query_text(pair_views(form@), key@)) {
            (Ok(a), Some(b)) => a@ == b,
            (Err(m), None) => m@ == missing_value(key@),
            _ => false,
        },
{
    match non_empty_query(form, key) {
        Some(v) => Ok(v),
        None => {
            let mut m = chars_of("missing form value ");
            append_str(&mut m, key);
            Err(string_of(&m))
        },
    }
}

/// How the correction form reads: the entity type, the old and the new
/// value are required (in this order), the type must be `club` or
/// `athlete`, and a reason that is not blank is kept. The correction is
/// global, active, of the canonical name.
pub open spec fn override_form_ok(r: Result<NewManualOverride, String>, form: Seq<(Seq<char>, Seq<char>)>) -> bool {
    match (query_text(form, "entity_type"@), query_text(form, "old_value"@), query_text(form, "new_value"@)) {
        (None, _, _) => r matches Err(m) && m@ == missing_value("entity_type"@),
        (Some(_), None, _) => r matches Err(m) && m@ == missing_value("old_value"@),
        (Some(_), Some(_), None) => r matches Err(m) && m@ == missing_value("new_value"@),
        (Some(t), Some(o), Some(n)) => if t == "club"@ || t == "athlete"@ {
            r matches Ok(v) && v.scope@ == "global"@ && v.entity_type@ == t && v.entity_id is None
                && v.source_document_id is None && v.parsed_result_row_id is None && v.field_name@
                == "canonical_name"@ && v.old_value@ == o && v.new_value@ == n && opt_seq(v.reason)
                == query_text(form, "reason"@) && v.status@ == "active"@
        } else {
            r matches Err(m) && m@ == "unknown correction type "@ + t
        },
    }
}

pub fn manual_override_from_form(form: &Vec<(String, String)>) -> (r: Result<NewManualOverride, String>)
    ensures
        override_form_ok(r, pair_views(form@)),
{
    let entity_type = match form_value(form, "entity_type") {
        Ok(v) => v,
        Err(e) => {
            return Err(e);
        },
    };
    let old_value = match form_value(form, "old_value") {
        Ok(v) => v,
        Err(e) => {
            return Err(e);
        },
    };
    let new_value = match form_value(form, "new_value") {
        Ok(v) => v,
        Err(e) => {
            return Err(e);
        },
    };
    let reason = non_empty_query(form, "reason");
    let t = chars_of(entity_type.as_str());
    if !(eq_str(&t, "club") || eq_str(&t, "athlete")) {
        let mut m = chars_of("unknown correction type ");
        append_chars(&mut m, &t);
        return Err(string_of(&m));
    }
    Ok(
        NewManualOverride {
            scope: String::from_str("global"),
            entity_type,
            entity_id: None,
            source_document_id: None,
            parsed_result_row_id: None,
            field_name: String::from_str("canonical_name"),
            old_value,
            new_value,
            reason,
            status: String::from_str("active"),
        },
    )
}

/// What the alias form asks for.
#[derive(Debug, Clone)]
pub struct ClubAliasRequest {
    pub alias: String,
    pub club_name: String,
    pub association_code: Option<String>,
    pub source: Option<String>,
}

/// How the alias form reads: alias and club are required (in this order);
/// the association code is kept where it is not blank, the source too,
/// and `web` stands for a missing source.
pub open spec fn alias_form_ok(r: Result<ClubAliasRequest, String>, form: Seq<(Seq<char>, Seq<char>)>) -> bool {
    match (query_text(form, "alias"@), query_text(form, "club"@)) {
        (None, _) => r matches Err(m) && m@ == missing_value("alias"@),
        (Some(_), None) => r matches Err(m) && m@ == missing_value("club"@),
        (Some(a), Some(c)) => r matches Ok(v) && v.alias@ == a && v.club_name@ == c && opt_seq(
            v.association_code,
        ) == query_text(form, "association_code"@) && opt_seq(v.source) == Some(
            match query_text(form, "source"@) {
                Some(s) => s,
                None => "web"@,
            },
        ),
    }
}

pub fn club_alias_request(form: &Vec<(String, String)>) -> (r: Result<ClubAliasRequest, String>)
    ensures
        alias_form_ok(r, pair_views(form@)),
{
    let alias = match form_value(form, "alias") {
        Ok(v) => v,
        Err(e) => {
            return Err(e);
        },
    };
    let club_name = match form_value(form, "club") {
        Ok(v) => v,
        Err(e) => {
            return Err(e);
        },
    };
    let association_code = non_empty_query(form, "association_code");
    let source = match non_empty_query(form, "source") {
        Some(s) => Some(s),
        None => Some(String::from_str("web")),
    };
    Ok(ClubAliasRequest { alias, club_name, association_code, source })
}

impl ClubAliasRequest {
    /// The club that an alias request creates where no club has its name.
    pub fn new_club(&self) -> (r: NewClub)
        ensures
            r.canonical_name@ == self.club_name@,
            opt_seq(r.association_code) == opt_seq(self.association_code),
            opt_seq(r.source) == Some("web-alias"@),
    {
        NewClub {
            canonical_name: self.club_name.clone(),
            association_code: match &self.association_code {
                Some(a) => Some(a.clone()),
                None => None,
            },
            source: Some(String::from_str("web-alias")),
        }
    }

    /// The active alias of the request for the club it belongs to.
    pub fn new_alias(&self, club_id: i64) -> (r: NewClubAlias)
        ensures
            r.club_id == club_id,
            r.alias@ == self.alias@,
            opt_seq(r.association_code) == opt_seq(self.association_code),
            opt_seq(r.source) == opt_seq(self.source),
            r.status@ == "active"@,
    {
        NewClubAlias {
            club_id,
            alias: self.alias.clone(),
            association_code: match &self.association_code {
                Some(a) => Some(a.clone()),
                None => None,
            },
            source: match &self.source {
                Some(s) => Some(s.clone()),
                None => None,
            },
            status: String::from_str("active"),
        }
    }
}

} // verus!
