//! The rows of the HTML reports: what the podium, participation and
//! combined reports list of each item.
use vstd::prelude::*;

use crate::export::html::{
    discipline_cell, escape_chars, escaped, kind_label, link, link_html, present, result_kind_label,
    shooters_display,
};
use crate::export::matching::{association_label, display_name, label_of, source_display_name, strs};
use crate::export::models::{ParticipationMatch, PodiumEntry};
use crate::text::{
    append_chars, append_str, chars_of, decimal, decimal_chars, join, replace, replace_str,
    sorted_insert, sorted_strict, string_of, views,
};

verus! {

broadcast use vstd::string::group_string_axioms;

/// An optional text, or nothing.
pub open spec fn opt_text(o: Option<String>) -> Seq<char> {
    match o {
        Some(s) => s@,
        None => Seq::empty(),
    }
}

fn opt_text_chars(o: &Option<String>) -> (r: Vec<char>)
    ensures
        r@ == opt_text(*o),
{
    match o {
        Some(s) => chars_of(s.as_str()),
        None => Vec::new(),
    }
}

/// The discipline column of an entry (see `html::discipline_cell`).
pub open spec fn discipline_text(e: PodiumEntry) -> Seq<char> {
    escaped(join(present(seq![e.discipline_code, e.discipline, e.class_name]), " - "@))
}

/// What the podium report's search looks through: shooter, club, canonical
/// club, district, discipline and PDF, separated by spaces.
pub open spec fn podium_search_text(e: PodiumEntry) -> Seq<char> {
    e.shooter@ + " "@ + e.club@ + " "@ + e.canonical_club@ + " "@ + e.association_code@ + " "@
        + opt_text(e.discipline) + " "@ + e.pdf_url@
}

fn podium_search_chars(e: &PodiumEntry) -> (r: Vec<char>)
    ensures
        r@ == podium_search_text(*e),
{
    let mut out = chars_of(e.shooter.as_str());
    append_str(&mut out, " ");
    append_chars(&mut out, &chars_of(e.club.as_str()));
    append_str(&mut out, " ");
    append_chars(&mut out, &chars_of(e.canonical_club.as_str()));
    append_str(&mut out, " ");
    append_chars(&mut out, &chars_of(e.association_code.as_str()));
    append_str(&mut out, " ");
    append_chars(&mut out, &opt_text_chars(&e.discipline));
    append_str(&mut out, " ");
    append_chars(&mut out, &chars_of(e.pdf_url.as_str()));
    out
}

fn match_search_chars(m: &ParticipationMatch) -> (r: Vec<char>)
    ensures
        r@ == m.club@ + " "@ + join(strs(m.shooters@), ", "@) + " "@ + m.pdf_url@,
{
    let mut out = chars_of(m.club.as_str());
    append_str(&mut out, " ");
    append_chars(&mut out, &chars_of(shooters_display(&m.shooters).as_str()));
    append_str(&mut out, " ");
    append_chars(&mut out, &chars_of(m.pdf_url.as_str()));
    out
}

fn combined_search_chars(club: &str, e: &PodiumEntry) -> (r: Vec<char>)
    ensures
        r@ == club@ + " "@ + e.shooter@ + " "@ + e.club@ + " "@ + opt_text(e.discipline),
{
    let mut out = chars_of(club);
    append_str(&mut out, " ");
    append_chars(&mut out, &chars_of(e.shooter.as_str()));
    append_str(&mut out, " ");
    append_chars(&mut out, &chars_of(e.club.as_str()));
    append_str(&mut out, " ");
    append_chars(&mut out, &opt_text_chars(&e.discipline));
    out
}

fn club_match_search_chars(club: &str, m: &ParticipationMatch) -> (r: Vec<char>)
    ensures
        r@ == club@ + " "@ + join(strs(m.shooters@), ", "@) + " "@ + m.pdf_url@,
{
    let mut out = chars_of(club);
    append_str(&mut out, " ");
    append_chars(&mut out, &chars_of(shooters_display(&m.shooters).as_str()));
    append_str(&mut out, " ");
    append_chars(&mut out, &chars_of(m.pdf_url.as_str()));
    out
}

/// The start of a row of the podium report: the data its filters read.
pub open spec fn podium_row_data(e: PodiumEntry) -> Seq<char> {
    "<tr data-rank=\""@
        + decimal(e.rank as nat)
        + "\" data-kind=\""@
        + kind_label(e.result_kind)
        + "\" data-shooter=\""@
        + escaped(e.shooter@)
        + "\" data-club=\""@
        + escaped(e.club@)
        + "\" data-canonical-club=\""@
        + escaped(e.canonical_club@)
        + "\" data-association=\""@
        + escaped(e.association_code@)
        + "\" data-text=\""@
        + escaped(podium_search_text(e))
}

#[verifier::spinoff_prover]
#[verifier::rlimit(60)]
fn push_podium_row_data(e: &PodiumEntry, out: &mut Vec<char>)
    ensures
        final(out)@ == old(out)@ + podium_row_data(*e),
{
    let ghost start = old(out)@;
    append_str(out, "<tr data-rank=\"");
    let ghost mut acc: Seq<char> = "<tr data-rank=\""@;
    assert(out@ =~= start + acc);
    append_chars(out, &decimal_chars(e.rank as u64));
    proof {
        acc = acc + decimal(e.rank as nat);
    }
    assert(out@ =~= start + acc);
    append_str(out, "\" data-kind=\"");
    proof {
        acc = acc + "\" data-kind=\""@;
    }
    assert(out@ =~= start + acc);
    append_str(out, result_kind_label(&e.result_kind));
    proof {
        acc = acc + kind_label(e.result_kind);
    }
    assert(out@ =~= start + acc);
    append_str(out, "\" data-shooter=\"");
    proof {
        acc = acc + "\" data-shooter=\""@;
    }
    assert(out@ =~= start + acc);
    append_chars(out, &escape_chars(&chars_of(e.shooter.as_str())));
    proof {
        acc = acc + escaped(e.shooter@);
    }
    assert(out@ =~= start + acc);
    append_str(out, "\" data-club=\"");
    proof {
        acc = acc + "\" data-club=\""@;
    }
    assert(out@ =~= start + acc);
    append_chars(out, &escape_chars(&chars_of(e.club.as_str())));
    proof {
        acc = acc + escaped(e.club@);
    }
    assert(out@ =~= start + acc);
    append_str(out, "\" data-canonical-club=\"");
    proof {
        acc = acc + "\" data-canonical-club=\""@;
    }
    assert(out@ =~= start + acc);
    append_chars(out, &escape_chars(&chars_of(e.canonical_club.as_str())));
    proof {
        acc = acc + escaped(e.canonical_club@);
    }
    assert(out@ =~= start + acc);
    append_str(out, "\" data-association=\"");
    proof {
        acc = acc + "\" data-association=\""@;
    }
    assert(out@ =~= start + acc);
    append_chars(out, &escape_chars(&chars_of(e.association_code.as_str())));
    proof {
        acc = acc + escaped(e.association_code@);
    }
    assert(out@ =~= start + acc);
    append_str(out, "\" data-text=\"");
    proof {
        acc = acc + "\" data-text=\""@;
    }
    assert(out@ =~= start + acc);
    append_chars(out, &escape_chars(&podium_search_chars(e)));
    proof {
        acc = acc + escaped(podium_search_text(*e));
    }
    assert(out@ =~= start + acc);
}

/// The cells of a row of the podium report: rank, kind, shooter, club, district, discipline, score and PDF.
pub open spec fn podium_row_cells(e: PodiumEntry, score: Seq<char>) -> Seq<char> {
    "\"><td>"@
        + decimal(e.rank as nat)
        + "</td><td>"@
        + escaped(kind_label(e.result_kind))
        + "</td><td>"@
        + escaped(e.shooter@)
        + "</td><td>"@
        + escaped(e.canonical_club@)
        + "</td><td>"@
        + escaped(label_of(e.association_code@, e.association_name@))
        + "</td><td>"@
        + discipline_text(e)
        + "</td><td>"@
        + score
        + "</td><td>"@
        + link(e.pdf_url@, e.pdf_url@)
        + "</td></tr>"@
        + "\n"@
}

#[verifier::spinoff_prover]
#[verifier::rlimit(60)]
fn push_podium_row_cells(e: &PodiumEntry, score: &str, out: &mut Vec<char>)
    ensures
        final(out)@ == old(out)@ + podium_row_cells(*e, score@),
{
    let ghost start = old(out)@;
    append_str(out, "\"><td>");
    let ghost mut acc: Seq<char> = "\"><td>"@;
    assert(out@ =~= start + acc);
    append_chars(out, &decimal_chars(e.rank as u64));
    proof {
        acc = acc + decimal(e.rank as nat);
    }
    assert(out@ =~= start + acc);
    append_str(out, "</td><td>");
    proof {
        acc = acc + "</td><td>"@;
    }
    assert(out@ =~= start + acc);
    append_chars(out, &escape_chars(&chars_of(result_kind_label(&e.result_kind))));
    proof {
        acc = acc + escaped(kind_label(e.result_kind));
    }
    assert(out@ =~= start + acc);
    append_str(out, "</td><td>");
    proof {
        acc = acc + "</td><td>"@;
    }
    assert(out@ =~= start + acc);
    append_chars(out, &escape_chars(&chars_of(e.shooter.as_str())));
    proof {
        acc = acc + escaped(e.shooter@);
    }
    assert(out@ =~= start + acc);
    append_str(out, "</td><td>");
    proof {
        acc = acc + "</td><td>"@;
    }
    assert(out@ =~= start + acc);
    append_chars(out, &escape_chars(&chars_of(e.canonical_club.as_str())));
    proof {
        acc = acc + escaped(e.canonical_club@);
    }
    assert(out@ =~= start + acc);
    append_str(out, "</td><td>");
    proof {
        acc = acc + "</td><td>"@;
    }
    assert(out@ =~= start + acc);
    append_chars(out, &escape_chars(&chars_of(association_label(e.association_code.as_str(), e.association_name.as_str()).as_str())));
    proof {
        acc = acc + escaped(label_of(e.association_code@, e.association_name@));
    }
    assert(out@ =~= start + acc);
    append_str(out, "</td><td>");
    proof {
        acc = acc + "</td><td>"@;
    }
    assert(out@ =~= start + acc);
    append_chars(out, &chars_of(discipline_cell(&e.discipline_code, &e.discipline, &e.class_name).as_str()));
    proof {
        acc = acc + discipline_text(*e);
    }
    assert(out@ =~= start + acc);
    append_str(out, "</td><td>");
    proof {
        acc = acc + "</td><td>"@;
    }
    assert(out@ =~= start + acc);
    append_str(out, score);
    proof {
        acc = acc + score@;
    }
    assert(out@ =~= start + acc);
    append_str(out, "</td><td>");
    proof {
        acc = acc + "</td><td>"@;
    }
    assert(out@ =~= start + acc);
    append_chars(out, &chars_of(link_html(e.pdf_url.as_str(), e.pdf_url.as_str()).as_str()));
    proof {
        acc = acc + link(e.pdf_url@, e.pdf_url@);
    }
    assert(out@ =~= start + acc);
    append_str(out, "</td></tr>");
    proof {
        acc = acc + "</td></tr>"@;
    }
    assert(out@ =~= start + acc);
    append_str(out, "\n");
    proof {
        acc = acc + "\n"@;
    }
    assert(out@ =~= start + acc);
}

/// A row of the podium report: the data its filters read, then its cells.
pub open spec fn podium_html_row(e: PodiumEntry, score: Seq<char>) -> Seq<char> {
    podium_row_data(e) + podium_row_cells(e, score)
}

fn push_podium_html_row(e: &PodiumEntry, score: &str, out: &mut Vec<char>)
    ensures
        final(out)@ == old(out)@ + podium_html_row(*e, score@),
{
    let ghost start = old(out)@;
    push_podium_row_data(e, out);
    push_podium_row_cells(e, score, out);
    assert(out@ =~= start + podium_html_row(*e, score@));
}

/// A row of the participation report: club, shooters, source, PDF and local file.
pub open spec fn participation_html_row(m: ParticipationMatch, local_link: Seq<char>) -> Seq<char> {
    "<tr data-club=\""@
        + escaped(m.club@)
        + "\" data-text=\""@
        + escaped(m.club@ + " "@ + join(strs(m.shooters@), ", "@) + " "@ + m.pdf_url@)
        + "\"><td>"@
        + escaped(m.club@)
        + "</td><td>"@
        + escaped(join(strs(m.shooters@), ", "@))
        + "</td><td>"@
        + escaped(display_name(m.source_name@))
        + "</td><td>"@
        + link(m.pdf_url@, m.pdf_url@)
        + "</td><td>"@
        + local_link
        + "</td></tr>"@
        + "\n"@
}

#[verifier::spinoff_prover]
#[verifier::rlimit(60)]
fn push_participation_html_row(m: &ParticipationMatch, local_link: &str, out: &mut Vec<char>)
    ensures
        final(out)@ == old(out)@ + participation_html_row(*m, local_link@),
{
    let ghost start = old(out)@;
    append_str(out, "<tr data-club=\"");
    let ghost mut acc: Seq<char> = "<tr data-club=\""@;
    assert(out@ =~= start + acc);
    append_chars(out, &escape_chars(&chars_of(m.club.as_str())));
    proof {
        acc = acc + escaped(m.club@);
    }
    assert(out@ =~= start + acc);
    append_str(out, "\" data-text=\"");
    proof {
        acc = acc + "\" data-text=\""@;
    }
    assert(out@ =~= start + acc);
    append_chars(out, &escape_chars(&match_search_chars(m)));
    proof {
        acc = acc + escaped(m.club@ + " "@ + join(strs(m.shooters@), ", "@) + " "@ + m.pdf_url@);
    }
    assert(out@ =~= start + acc);
    append_str(out, "\"><td>");
    proof {
        acc = acc + "\"><td>"@;
    }
    assert(out@ =~= start + acc);
    append_chars(out, &escape_chars(&chars_of(m.club.as_str())));
    proof {
        acc = acc + escaped(m.club@);
    }
    assert(out@ =~= start + acc);
    append_str(out, "</td><td>");
    proof {
        acc = acc + "</td><td>"@;
    }
    assert(out@ =~= start + acc);
    append_chars(out, &escape_chars(&chars_of(shooters_display(&m.shooters).as_str())));
    proof {
        acc = acc + escaped(join(strs(m.shooters@), ", "@));
    }
    assert(out@ =~= start + acc);
    append_str(out, "</td><td>");
    proof {
        acc = acc + "</td><td>"@;
    }
    assert(out@ =~= start + acc);
    append_chars(out, &escape_chars(&chars_of(source_display_name(m.source_name.as_str()).as_str())));
    proof {
        acc = acc + escaped(display_name(m.source_name@));
    }
    assert(out@ =~= start + acc);
    append_str(out, "</td><td>");
    proof {
        acc = acc + "</td><td>"@;
    }
    assert(out@ =~= start + acc);
    append_chars(out, &chars_of(link_html(m.pdf_url.as_str(), m.pdf_url.as_str()).as_str()));
    proof {
        acc = acc + link(m.pdf_url@, m.pdf_url@);
    }
    assert(out@ =~= start + acc);
    append_str(out, "</td><td>");
    proof {
        acc = acc + "</td><td>"@;
    }
    assert(out@ =~= start + acc);
    append_str(out, local_link);
    proof {
        acc = acc + local_link@;
    }
    assert(out@ =~= start + acc);
    append_str(out, "</td></tr>");
    proof {
        acc = acc + "</td></tr>"@;
    }
    assert(out@ =~= start + acc);
    append_str(out, "\n");
    proof {
        acc = acc + "\n"@;
    }
    assert(out@ =~= start + acc);
}

/// A podium row of the combined report under its club.
pub open spec fn combined_podium_row(club: Seq<char>, e: PodiumEntry, local_link: Seq<char>) -> Seq<char> {
    "<tr data-club=\""@
        + escaped(club)
        + "\" data-shooter=\""@
        + escaped(e.shooter@)
        + "\" data-type=\"podium\" data-text=\""@
        + escaped(club + " "@ + e.shooter@ + " "@ + e.club@ + " "@ + opt_text(e.discipline))
        + "\"><td>"@
        + escaped(club)
        + "</td><td>Podest</td><td>"@
        + decimal(e.rank as nat)
        + "</td><td>"@
        + escaped(e.shooter@)
        + "</td><td>"@
        + discipline_text(e)
        + "</td><td>"@
        + kind_label(e.result_kind)
        + "</td><td>"@
        + local_link
        + "</td></tr>"@
        + "\n"@
}

#[verifier::spinoff_prover]
#[verifier::rlimit(60)]
fn push_combined_podium_row(club: &str, e: &PodiumEntry, local_link: &str, out: &mut Vec<char>)
    ensures
        final(out)@ == old(out)@ + combined_podium_row(club@, *e, local_link@),
{
    let ghost start = old(out)@;
    append_str(out, "<tr data-club=\"");
    let ghost mut acc: Seq<char> = "<tr data-club=\""@;
    assert(out@ =~= start + acc);
    append_chars(out, &escape_chars(&chars_of(club)));
    proof {
        acc = acc + escaped(club@);
    }
    assert(out@ =~= start + acc);
    append_str(out, "\" data-shooter=\"");
    proof {
        acc = acc + "\" data-shooter=\""@;
    }
    assert(out@ =~= start + acc);
    append_chars(out, &escape_chars(&chars_of(e.shooter.as_str())));
    proof {
        acc = acc + escaped(e.shooter@);
    }
    assert(out@ =~= start + acc);
    append_str(out, "\" data-type=\"podium\" data-text=\"");
    proof {
        acc = acc + "\" data-type=\"podium\" data-text=\""@;
    }
    assert(out@ =~= start + acc);
    append_chars(out, &escape_chars(&combined_search_chars(club, e)));
    proof {
        acc = acc + escaped(club@ + " "@ + e.shooter@ + " "@ + e.club@ + " "@ + opt_text(e.discipline));
    }
    assert(out@ =~= start + acc);
    append_str(out, "\"><td>");
    proof {
        acc = acc + "\"><td>"@;
    }
    assert(out@ =~= start + acc);
    append_chars(out, &escape_chars(&chars_of(club)));
    proof {
        acc = acc + escaped(club@);
    }
    assert(out@ =~= start + acc);
    append_str(out, "</td><td>Podest</td><td>");
    proof {
        acc = acc + "</td><td>Podest</td><td>"@;
    }
    assert(out@ =~= start + acc);
    append_chars(out, &decimal_chars(e.rank as u64));
    proof {
        acc = acc + decimal(e.rank as nat);
    }
    assert(out@ =~= start + acc);
    append_str(out, "</td><td>");
    proof {
        acc = acc + "</td><td>"@;
    }
    assert(out@ =~= start + acc);
    append_chars(out, &escape_chars(&chars_of(e.shooter.as_str())));
    proof {
        acc = acc + escaped(e.shooter@);
    }
    assert(out@ =~= start + acc);
    append_str(out, "</td><td>");
    proof {
        acc = acc + "</td><td>"@;
    }
    assert(out@ =~= start + acc);
    append_chars(out, &chars_of(discipline_cell(&e.discipline_code, &e.discipline, &e.class_name).as_str()));
    proof {
        acc = acc + discipline_text(*e);
    }
    assert(out@ =~= start + acc);
    append_str(out, "</td><td>");
    proof {
        acc = acc + "</td><td>"@;
    }
    assert(out@ =~= start + acc);
    append_str(out, result_kind_label(&e.result_kind));
    proof {
        acc = acc + kind_label(e.result_kind);
    }
    assert(out@ =~= start + acc);
    append_str(out, "</td><td>");
    proof {
        acc = acc + "</td><td>"@;
    }
    assert(out@ =~= start + acc);
    append_str(out, local_link);
    proof {
        acc = acc + local_link@;
    }
    assert(out@ =~= start + acc);
    append_str(out, "</td></tr>");
    proof {
        acc = acc + "</td></tr>"@;
    }
    assert(out@ =~= start + acc);
    append_str(out, "\n");
    proof {
        acc = acc + "\n"@;
    }
    assert(out@ =~= start + acc);
}

/// A participation row of the combined report under its club.
pub open spec fn combined_match_row(club: Seq<char>, m: ParticipationMatch, local_link: Seq<char>) -> Seq<char> {
    "<tr data-club=\""@
        + escaped(club)
        + "\" data-shooter=\""@
        + escaped(join(strs(m.shooters@), ", "@))
        + "\" data-type=\"participation\" data-text=\""@
        + escaped(club + " "@ + join(strs(m.shooters@), ", "@) + " "@ + m.pdf_url@)
        + "\"><td>"@
        + escaped(club)
        + "</td><td>Teilnahme</td><td></td><td>"@
        + escaped(join(strs(m.shooters@), ", "@))
        + "</td><td>"@
        + escaped(display_name(m.source_name@))
        + "</td><td>"@
        + link(m.pdf_url@, m.pdf_url@)
        + "</td><td>"@
        + local_link
        + "</td></tr>"@
        + "\n"@
}

#[verifier::spinoff_prover]
#[verifier::rlimit(60)]
fn push_combined_match_row(club: &str, m: &ParticipationMatch, local_link: &str, out: &mut Vec<char>)
    ensures
        final(out)@ == old(out)@ + combined_match_row(club@, *m, local_link@),
{
    let ghost start = old(out)@;
    append_str(out, "<tr data-club=\"");
    let ghost mut acc: Seq<char> = "<tr data-club=\""@;
    assert(out@ =~= start + acc);
    append_chars(out, &escape_chars(&chars_of(club)));
    proof {
        acc = acc + escaped(club@);
    }
    assert(out@ =~= start + acc);
    append_str(out, "\" data-shooter=\"");
    proof {
        acc = acc + "\" data-shooter=\""@;
    }
    assert(out@ =~= start + acc);
    append_chars(out, &escape_chars(&chars_of(shooters_display(&m.shooters).as_str())));
    proof {
        acc = acc + escaped(join(strs(m.shooters@), ", "@));
    }
    assert(out@ =~= start + acc);
    append_str(out, "\" data-type=\"participation\" data-text=\"");
    proof {
        acc = acc + "\" data-type=\"participation\" data-text=\""@;
    }
    assert(out@ =~= start + acc);
    append_chars(out, &escape_chars(&club_match_search_chars(club, m)));
    proof {
        acc = acc + escaped(club@ + " "@ + join(strs(m.shooters@), ", "@) + " "@ + m.pdf_url@);
    }
    assert(out@ =~= start + acc);
    append_str(out, "\"><td>");
    proof {
        acc = acc + "\"><td>"@;
    }
    assert(out@ =~= start + acc);
    append_chars(out, &escape_chars(&chars_of(club)));
    proof {
        acc = acc + escaped(club@);
    }
    assert(out@ =~= start + acc);
    append_str(out, "</td><td>Teilnahme</td><td></td><td>");
    proof {
        acc = acc + "</td><td>Teilnahme</td><td></td><td>"@;
    }
    assert(out@ =~= start + acc);
    append_chars(out, &escape_chars(&chars_of(shooters_display(&m.shooters).as_str())));
    proof {
        acc = acc + escaped(join(strs(m.shooters@), ", "@));
    }
    assert(out@ =~= start + acc);
    append_str(out, "</td><td>");
    proof {
        acc = acc + "</td><td>"@;
    }
    assert(out@ =~= start + acc);
    append_chars(out, &escape_chars(&chars_of(source_display_name(m.source_name.as_str()).as_str())));
    proof {
        acc = acc + escaped(display_name(m.source_name@));
    }
    assert(out@ =~= start + acc);
    append_str(out, "</td><td>");
    proof {
        acc = acc + "</td><td>"@;
    }
    assert(out@ =~= start + acc);
    append_chars(out, &chars_of(link_html(m.pdf_url.as_str(), m.pdf_url.as_str()).as_str()));
    proof {
        acc = acc + link(m.pdf_url@, m.pdf_url@);
    }
    assert(out@ =~= start + acc);
    append_str(out, "</td><td>");
    proof {
        acc = acc + "</td><td>"@;
    }
    assert(out@ =~= start + acc);
    append_str(out, local_link);
    proof {
        acc = acc + local_link@;
    }
    assert(out@ =~= start + acc);
    append_str(out, "</td></tr>");
    proof {
        acc = acc + "</td></tr>"@;
    }
    assert(out@ =~= start + acc);
    append_str(out, "\n");
    proof {
        acc = acc + "\n"@;
    }
    assert(out@ =~= start + acc);
}

// ---------------------------------------------------------------------------
// Tables
// ---------------------------------------------------------------------------

pub open spec fn podium_rows(items: Seq<PodiumEntry>, scores: Seq<Seq<char>>) -> Seq<char>
    decreases items.len(),
{
    if items.len() == 0 {
        Seq::empty()
    } else {
        podium_rows(items.drop_last(), scores.take(items.len() - 1)) + podium_html_row(
            items.last(),
            scores[items.len() - 1],
        )
    }
}

/// The rows of the podium report, one per item with its score as shown.
pub fn podium_html_rows(items: &Vec<PodiumEntry>, scores: &Vec<String>) -> (r: String)
    requires
        items.len() == scores.len(),
    ensures
        r@ == podium_rows(items@, strs(scores@)),
{
    let ghost sv = strs(scores@);
    let mut out: Vec<char> = Vec::new();
    let mut i: usize = 0;
    assert(items@.take(0) =~= Seq::<PodiumEntry>::empty());
    while i < items.len()
        invariant
            0 <= i <= items.len(),
            items.len() == scores.len(),
            sv == strs(scores@),
            out@ == podium_rows(items@.take(i as int), sv.take(i as int)),
        decreases items.len() - i,
    {
        assert(items@.take(i + 1).drop_last() =~= items@.take(i as int));
        assert(items@.take(i + 1).last() == items@[i as int]);
        assert(sv.take(i + 1).take(i as int) =~= sv.take(i as int));
        assert(sv.take(i + 1)[i as int] == scores@[i as int]@);
        push_podium_html_row(&items[i], scores[i].as_str(), &mut out);
        i += 1;
    }
    assert(items@.take(i as int) =~= items@);
    assert(sv.take(i as int) =~= sv);
    string_of(&out)
}

pub open spec fn participation_rows(matches: Seq<ParticipationMatch>, links: Seq<Seq<char>>) -> Seq<char>
    decreases matches.len(),
{
    if matches.len() == 0 {
        Seq::empty()
    } else {
        participation_rows(matches.drop_last(), links.take(matches.len() - 1)) + participation_html_row(
            matches.last(),
            links[matches.len() - 1],
        )
    }
}

/// The rows of the participation report, one per match with the link to
/// its local file.
pub fn participation_html_rows(matches: &Vec<ParticipationMatch>, local_links: &Vec<String>) -> (r:
    String)
    requires
        matches.len() == local_links.len(),
    ensures
        r@ == participation_rows(matches@, strs(local_links@)),
{
    let ghost lv = strs(local_links@);
    let mut out: Vec<char> = Vec::new();
    let mut i: usize = 0;
    assert(matches@.take(0) =~= Seq::<ParticipationMatch>::empty());
    while i < matches.len()
        invariant
            0 <= i <= matches.len(),
            matches.len() == local_links.len(),
            lv == strs(local_links@),
            out@ == participation_rows(matches@.take(i as int), lv.take(i as int)),
        decreases matches.len() - i,
    {
        assert(matches@.take(i + 1).drop_last() =~= matches@.take(i as int));
        assert(matches@.take(i + 1).last() == matches@[i as int]);
        assert(lv.take(i + 1).take(i as int) =~= lv.take(i as int));
        assert(lv.take(i + 1)[i as int] == local_links@[i as int]@);
        push_participation_html_row(&matches[i], local_links[i].as_str(), &mut out);
        i += 1;
    }
    assert(matches@.take(i as int) =~= matches@);
    assert(lv.take(i as int) =~= lv);
    string_of(&out)
}

pub open spec fn combined_podium_rows(club: Seq<char>, items: Seq<PodiumEntry>, links: Seq<Seq<char>>) -> Seq<char>
    decreases items.len(),
{
    if items.len() == 0 {
        Seq::empty()
    } else {
        combined_podium_rows(club, items.drop_last(), links.take(items.len() - 1)) + combined_podium_row(
            club,
            items.last(),
            links[items.len() - 1],
        )
    }
}

pub open spec fn combined_match_rows(club: Seq<char>, matches: Seq<ParticipationMatch>, links: Seq<Seq<char>>) -> Seq<char>
    decreases matches.len(),
{
    if matches.len() == 0 {
        Seq::empty()
    } else {
        combined_match_rows(club, matches.drop_last(), links.take(matches.len() - 1)) + combined_match_row(
            club,
            matches.last(),
            links[matches.len() - 1],
        )
    }
}

/// The rows of one club of the combined report: its podium items, then its
/// matches, each with the link to its local file.
pub fn combined_club_rows(
    club: &str,
    items: &Vec<PodiumEntry>,
    item_links: &Vec<String>,
    matches: &Vec<ParticipationMatch>,
    match_links: &Vec<String>,
) -> (r: String)
    requires
        items.len() == item_links.len(),
        matches.len() == match_links.len(),
    ensures
        r@ == combined_podium_rows(club@, items@, strs(item_links@)) + combined_match_rows(
            club@,
            matches@,
            strs(match_links@),
        ),
{
    let ghost iv = strs(item_links@);
    let ghost mv = strs(match_links@);
    let mut out: Vec<char> = Vec::new();
    let mut i: usize = 0;
    assert(items@.take(0) =~= Seq::<PodiumEntry>::empty());
    while i < items.len()
        invariant
            0 <= i <= items.len(),
            items.len() == item_links.len(),
            iv == strs(item_links@),
            out@ == combined_podium_rows(club@, items@.take(i as int), iv.take(i as int)),
        decreases items.len() - i,
    {
        assert(items@.take(i + 1).drop_last() =~= items@.take(i as int));
        assert(items@.take(i + 1).last() == items@[i as int]);
        assert(iv.take(i + 1).take(i as int) =~= iv.take(i as int));
        assert(iv.take(i + 1)[i as int] == item_links@[i as int]@);
        push_combined_podium_row(club, &items[i], item_links[i].as_str(), &mut out);
        i += 1;
    }
    assert(items@.take(i as int) =~= items@);
    assert(iv.take(i as int) =~= iv);
    let ghost podium_part = out@;
    let mut j: usize = 0;
    assert(matches@.take(0) =~= Seq::<ParticipationMatch>::empty());
    assert(out@ =~= podium_part + combined_match_rows(club@, matches@.take(0), mv.take(0)));
    while j < matches.len()
        invariant
            0 <= j <= matches.len(),
            matches.len() == match_links.len(),
            mv == strs(match_links@),
            out@ == podium_part + combined_match_rows(club@, matches@.take(j as int), mv.take(j as int)),
        decreases matches.len() - j,
    {
        assert(matches@.take(j + 1).drop_last() =~= matches@.take(j as int));
        assert(matches@.take(j + 1).last() == matches@[j as int]);
        assert(mv.take(j + 1).take(j as int) =~= mv.take(j as int));
        assert(mv.take(j + 1)[j as int] == match_links@[j as int]@);
        let ghost before = out@;
        push_combined_match_row(club, &matches[j], match_links[j].as_str(), &mut out);
        assert(out@ =~= podium_part + combined_match_rows(club@, matches@.take(j + 1), mv.take(j + 1)));
        j += 1;
    }
    assert(matches@.take(j as int) =~= matches@);
    assert(mv.take(j as int) =~= mv);
    string_of(&out)
}

/// One `<option>` per name, escaped.
pub open spec fn name_options(names: Seq<Seq<char>>) -> Seq<char>
    decreases names.len(),
{
    if names.len() == 0 {
        Seq::empty()
    } else {
        name_options(names.drop_last()) + "<option value=\""@ + escaped(names.last()) + "\">"@ + escaped(
            names.last(),
        ) + "</option>"@
    }
}

fn options_of(names: &Vec<Vec<char>>) -> (r: String)
    ensures
        r@ == name_options(views(names@)),
{
    let ghost nv = views(names@);
    let mut out: Vec<char> = Vec::new();
    let mut i: usize = 0;
    assert(nv.take(0) =~= Seq::<Seq<char>>::empty());
    while i < names.len()
        invariant
            0 <= i <= names.len(),
            nv == views(names@),
            out@ == name_options(nv.take(i as int)),
        decreases names.len() - i,
    {
        assert(nv.take(i + 1).drop_last() =~= nv.take(i as int));
        assert(nv.take(i + 1).last() == names@[i as int]@);
        let e = escape_chars(&names[i]);
        append_str(&mut out, "<option value=\"");
        append_chars(&mut out, &e);
        append_str(&mut out, "\">");
        append_chars(&mut out, &e);
        append_str(&mut out, "</option>");
        i += 1;
    }
    assert(nv.take(i as int) =~= nv);
    string_of(&out)
}

/// The distinct names of a list in ascending order, each once (what a
/// `BTreeSet` of them holds).
fn distinct_sorted(names: &Vec<String>) -> (r: Vec<String>)
    ensures
        sorted_strict(strs(r@)),
        strs(r@).to_set() == strs(names@).to_set(),
{
    let ghost ns = strs(names@);
    let mut keys: Vec<Vec<char>> = Vec::new();
    let mut i: usize = 0;
    assert(ns.take(0).to_set() =~= Set::<Seq<char>>::empty());
    assert(views(keys@).to_set() =~= Set::<Seq<char>>::empty());
    while i < names.len()
        invariant
            0 <= i <= names.len(),
            ns == strs(names@),
            sorted_strict(views(keys@)),
            views(keys@).to_set() == ns.take(i as int).to_set(),
        decreases names.len() - i,
    {
        sorted_insert(&mut keys, chars_of(names[i].as_str()));
        assert(ns.take(i + 1) =~= ns.take(i as int).push(names@[i as int]@));
        proof {
            crate::text::lemma_push_to_set(ns.take(i as int), names@[i as int]@);
        }
        i += 1;
    }
    assert(ns.take(i as int) =~= ns);
    let mut out: Vec<String> = Vec::new();
    let mut k: usize = 0;
    while k < keys.len()
        invariant
            0 <= k <= keys.len(),
            strs(out@) == views(keys@).take(k as int),
        decreases keys.len() - k,
    {
        let ghost before = strs(out@);
        let t = string_of(&keys[k]);
        out.push(t);
        assert(strs(out@) =~= before.push(keys@[k as int]@));
        assert(views(keys@).take(k + 1) =~= views(keys@).take(k as int).push(keys@[k as int]@));
        k += 1;
    }
    assert(views(keys@).take(k as int) =~= views(keys@));
    out
}

/// The number of distinct clubs among matches.
pub fn matched_club_count(matches: &Vec<ParticipationMatch>) -> (r: usize)
    ensures
        exists|d: Seq<Seq<char>>|
            sorted_strict(d) && d.len() == r && d.to_set() == matches@.map_values(
                |m: ParticipationMatch| m.club@,
            ).to_set(),
{
    let mut clubs: Vec<String> = Vec::new();
    let mut i: usize = 0;
    while i < matches.len()
        invariant
            0 <= i <= matches.len(),
            strs(clubs@) == matches@.map_values(|m: ParticipationMatch| m.club@).take(i as int),
        decreases matches.len() - i,
    {
        let ghost before = strs(clubs@);
        let c = crate::sport_results::copy_string(&matches[i].club);
        clubs.push(c);
        assert(strs(clubs@) =~= before.push(matches@[i as int].club@));
        assert(matches@.map_values(|m: ParticipationMatch| m.club@).take(i + 1) =~= matches@.map_values(
            |m: ParticipationMatch| m.club@,
        ).take(i as int).push(matches@[i as int].club@));
        i += 1;
    }
    assert(matches@.map_values(|m: ParticipationMatch| m.club@).take(i as int) =~= matches@.map_values(
        |m: ParticipationMatch| m.club@,
    ));
    let d = distinct_sorted(&clubs);
    assert(sorted_strict(strs(d@)) && strs(d@).len() == d.len());
    d.len()
}

/// The club filter of a report: one option per club, in the given order.
pub fn club_options(clubs: &Vec<String>) -> (r: String)
    ensures
        r@ == name_options(strs(clubs@)),
{
    let mut names: Vec<Vec<char>> = Vec::new();
    let mut i: usize = 0;
    while i < clubs.len()
        invariant
            0 <= i <= clubs.len(),
            views(names@) == strs(clubs@).take(i as int),
        decreases clubs.len() - i,
    {
        let ghost before = views(names@);
        names.push(chars_of(clubs[i].as_str()));
        assert(views(names@) =~= before.push(clubs@[i as int]@));
        assert(strs(clubs@).take(i + 1) =~= strs(clubs@).take(i as int).push(clubs@[i as int]@));
        i += 1;
    }
    assert(strs(clubs@).take(i as int) =~= strs(clubs@));
    options_of(&names)
}

/// The shooter filter of the combined report: one option per shooter
/// name, each once, in ascending order.
pub fn shooter_options(shooters: &Vec<String>) -> (r: String)
    ensures
        exists|names: Seq<Seq<char>>|
            sorted_strict(names) && names.to_set() == strs(shooters@).to_set() && r@ == name_options(
                names,
            ),
{
    let mut names: Vec<Vec<char>> = Vec::new();
    let mut i: usize = 0;
    assert(views(names@).to_set() =~= strs(shooters@).take(0).to_set());
    while i < shooters.len()
        invariant
            0 <= i <= shooters.len(),
            sorted_strict(views(names@)),
            views(names@).to_set() == strs(shooters@).take(i as int).to_set(),
        decreases shooters.len() - i,
    {
        sorted_insert(&mut names, chars_of(shooters[i].as_str()));
        assert(strs(shooters@).take(i + 1) =~= strs(shooters@).take(i as int).push(shooters@[i as int]@));
        proof {
            crate::text::lemma_push_to_set(strs(shooters@).take(i as int), shooters@[i as int]@);
        }
        i += 1;
    }
    assert(strs(shooters@).take(i as int) =~= strs(shooters@));
    options_of(&names)
}

/// The highest rank among the items, or the highest place asked for where
/// there are none.
pub open spec fn highest_rank_of(items: Seq<PodiumEntry>, max_place: u32) -> u32
    decreases items.len(),
{
    if items.len() == 0 {
        max_place
    } else if items.len() == 1 {
        items[0].rank
    } else {
        let prev = highest_rank_of(items.drop_last(), max_place);
        if items.last().rank >= prev {
            items.last().rank
        } else {
            prev
        }
    }
}

pub fn highest_rank(items: &Vec<PodiumEntry>, max_place: u32) -> (r: u32)
    ensures
        r == highest_rank_of(items@, max_place),
{
    if items.len() == 0 {
        return max_place;
    }
    let mut best = items[0].rank;
    let mut i: usize = 1;
    assert(items@.take(1).len() == 1);
    while i < items.len()
        invariant
            1 <= i <= items.len(),
            best == highest_rank_of(items@.take(i as int), max_place),
        decreases items.len() - i,
    {
        assert(items@.take(i + 1).drop_last() =~= items@.take(i as int));
        assert(items@.take(i + 1).last() == items@[i as int]);
        if items[i].rank >= best {
            best = items[i].rank;
        }
        i += 1;
    }
    assert(items@.take(i as int) =~= items@);
    best
}

// ---------------------------------------------------------------------------
// Links to local files
// ---------------------------------------------------------------------------

/// Whether `Path::is_absolute` holds of a path given as text.
pub uninterp spec fn absolute_path(path: Seq<char>) -> bool;

/// For each component of a path given as text, whether it is a normal one
/// (a name, not a root, prefix, `.` or `..`).
pub uninterp spec fn normal_components(path: Seq<char>) -> Seq<bool>;

/// `Path::is_absolute`.
#[verifier::external_body]
fn path_is_absolute(path: &str) -> (r: bool)
    ensures
        r == absolute_path(path@),
{
    std::path::Path::new(path).is_absolute()
}

/// `Path::components`, each told apart as normal or not.
#[verifier::external_body]
fn path_normal_flags(path: &str) -> (r: Vec<bool>)
    ensures
        r@ == normal_components(path@),
{
    let mut flags: Vec<bool> = Vec::new();
    for c in std::path::Path::new(path).components() {
        flags.push(
            match c {
                std::path::Component::Prefix(_) => false,
                std::path::Component::RootDir => false,
                std::path::Component::CurDir => false,
                std::path::Component::ParentDir => false,
                std::path::Component::Normal(_) => true,
            },
        );
    }
    flags
}

/// The number of `true` in a sequence.
pub open spec fn count_true(s: Seq<bool>) -> nat
    decreases s.len(),
{
    if s.len() == 0 {
        0
    } else {
        count_true(s.drop_last()) + if s.last() {
            1nat
        } else {
            0nat
        }
    }
}

/// `../` repeated.
pub open spec fn parent_hops(n: nat) -> Seq<char>
    decreases n,
{
    if n == 0 {
        Seq::empty()
    } else {
        parent_hops((n - 1) as nat) + "../"@
    }
}

/// The link from a report's folder to a local file: none for an absolute
/// file, no folder or an absolute folder; else one `../` per named folder
/// and the file's path with spaces written `%20`.
pub open spec fn relative_href(path: Seq<char>, report_dir: Option<Seq<char>>) -> Option<Seq<char>> {
    if absolute_path(path) {
        None
    } else {
        match report_dir {
            None => None,
            Some(d) => if absolute_path(d) {
                None
            } else {
                Some(parent_hops(count_true(normal_components(d))) + replace(path, " "@, "%20"@))
            },
        }
    }
}

pub fn relative_local_href(path: &str, report_dir: Option<&str>) -> (r: Option<String>)
    ensures
        match (r, relative_href(path@, match report_dir {
            Some(d) => Some(d@),
            None => None,
        })) {
            (Some(a), Some(b)) => a@ == b,
            (None, None) => true,
            _ => false,
        },
{
    if path_is_absolute(path) {
        return None;
    }
    let dir = match report_dir {
        None => {
            return None;
        },
        Some(d) => d,
    };
    if path_is_absolute(dir) {
        return None;
    }
    let flags = path_normal_flags(dir);
    let mut href: Vec<char> = Vec::new();
    let mut i: usize = 0;
    assert(flags@.take(0) =~= Seq::<bool>::empty());
    while i < flags.len()
        invariant
            0 <= i <= flags.len(),
            href@ == parent_hops(count_true(flags@.take(i as int))),
        decreases flags.len() - i,
    {
        assert(flags@.take(i + 1).drop_last() =~= flags@.take(i as int));
        assert(flags@.take(i + 1).last() == flags@[i as int]);
        if flags[i] {
            append_str(&mut href, "../");
        }
        i += 1;
    }
    assert(flags@.take(i as int) =~= flags@);
    proof {
        reveal_strlit(" ");
    }
    append_chars(&mut href, &replace_str(&chars_of(path), " ", "%20"));
    Some(string_of(&href))
}

/// The local file of an item: a link from the report's folder where there
/// is one, else the path as text.
pub open spec fn local_link(path: Seq<char>, report_dir: Option<Seq<char>>) -> Seq<char> {
    match relative_href(path, report_dir) {
        None => escaped(path),
        Some(h) => "<a href=\""@ + h + "\"><code>"@ + escaped(path) + "</code></a>"@,
    }
}

pub fn local_path_link(path: &str, report_dir: Option<&str>) -> (r: String)
    ensures
        r@ == local_link(path@, match report_dir {
            Some(d) => Some(d@),
            None => None,
        }),
{
    match relative_local_href(path, report_dir) {
        None => string_of(&escape_chars(&chars_of(path))),
        Some(h) => {
            let mut out = chars_of("<a href=\"");
            append_chars(&mut out, &chars_of(h.as_str()));
            append_str(&mut out, "\"><code>");
            append_chars(&mut out, &escape_chars(&chars_of(path)));
            append_str(&mut out, "</code></a>");
            string_of(&out)
        },
    }
}

} // verus!
