//! Filters of the application views and the rows they list.
use vstd::prelude::*;

verus! {

/// The pattern a text filter searches with: the trimmed value between `%`
/// wildcards; none for a missing or blank value.
pub open spec fn like_pattern(value: Option<Seq<char>>) -> Option<Seq<char>> {
    match value {
        Some(v) => if crate::text::trim(v).len() == 0 {
            None
        } else {
            Some(seq!['%'] + crate::text::trim(v) + seq!['%'])
        },
        None => None,
    }
}

/// The pattern a text filter searches with.
pub fn like_filter(value: Option<&str>) -> (r: Option<String>)
    ensures
        match r {
            Some(p) => like_pattern(match value { Some(v) => Some(v@), None => None }) == Some(p@),
            None => like_pattern(match value { Some(v) => Some(v@), None => None }) is None,
        },
{
    match value {
        None => None,
        Some(v) => {
            let t = crate::text::trim_chars(&crate::text::chars_of(v));
            if t.len() == 0 {
                None
            } else {
                let mut out: Vec<char> = Vec::new();
                out.push('%');
                crate::text::append_chars(&mut out, &t);
                out.push('%');
                proof {
                    assert(out@ =~= seq!['%'] + crate::text::trim(v@) + seq!['%']);
                }
                Some(crate::text::string_of(&out))
            }
        }
    }
}

/// Filters of the result list.
#[derive(Debug, Clone)]
pub struct ResultFilters {
    pub search: Option<String>,
    pub year: Option<i64>,
    pub scope: Option<String>,
    pub association_code: Option<String>,
    pub result_kind: Option<String>,
    pub import_run_id: Option<i64>,
    pub athlete_id: Option<i64>,
    pub club_id: Option<i64>,
    pub source_document_id: Option<i64>,
}

impl Default for ResultFilters {
    fn default() -> (r: Self)
        ensures
            r.search is None && r.year is None && r.scope is None && r.association_code is None,
            r.result_kind is None && r.import_run_id is None && r.athlete_id is None,
            r.club_id is None && r.source_document_id is None,
    {
        ResultFilters {
            search: None,
            year: None,
            scope: None,
            association_code: None,
            result_kind: None,
            import_run_id: None,
            athlete_id: None,
            club_id: None,
            source_document_id: None,
        }
    }
}

/// Filters of the athlete list.
#[derive(Debug, Clone)]
pub struct AthleteFilters {
    pub search: Option<String>,
    pub club: Option<String>,
    pub year: Option<i64>,
}

impl Default for AthleteFilters {
    fn default() -> (r: Self)
        ensures
            r.search is None && r.club is None && r.year is None,
    {
        AthleteFilters { search: None, club: None, year: None }
    }
}

/// Filters of the club list.
#[derive(Debug, Clone)]
pub struct ClubFilters {
    pub search: Option<String>,
    pub association_code: Option<String>,
    pub year: Option<i64>,
}

impl Default for ClubFilters {
    fn default() -> (r: Self)
        ensures
            r.search is None && r.association_code is None && r.year is None,
    {
        ClubFilters { search: None, association_code: None, year: None }
    }
}

/// Filters of the team list.
#[derive(Debug, Clone)]
pub struct TeamFilters {
    pub search: Option<String>,
    pub year: Option<i64>,
    pub scope: Option<String>,
    pub association_code: Option<String>,
}

impl Default for TeamFilters {
    fn default() -> (r: Self)
        ensures
            r.search is None && r.year is None && r.scope is None && r.association_code is None,
    {
        TeamFilters { search: None, year: None, scope: None, association_code: None }
    }
}

/// An import run as listed.
#[derive(Debug)]
pub struct ImportRunRow {
    pub id: i64,
    pub source_name: String,
    pub run_kind: String,
    pub parser_name: Option<String>,
    pub parser_version: Option<String>,
    pub input_path: Option<String>,
    pub status: String,
    pub started_at: String,
    pub finished_at: Option<String>,
    pub result_count: i64,
}

/// An athlete as listed.
#[derive(Debug)]
pub struct AthleteRow {
    pub id: i64,
    pub canonical_name: String,
    pub result_count: i64,
    pub club_count: i64,
    pub latest_year: Option<i64>,
}

/// A club as listed.
#[derive(Debug)]
pub struct ClubRow {
    pub id: i64,
    pub canonical_name: String,
    pub association_code: Option<String>,
    pub result_count: i64,
    pub athlete_count: i64,
    pub latest_year: Option<i64>,
}

/// A manual correction as listed.
#[derive(Debug)]
pub struct ManualOverrideRow {
    pub id: i64,
    pub scope: String,
    pub entity_type: String,
    pub field_name: String,
    pub old_value: String,
    pub new_value: String,
    pub reason: Option<String>,
    pub status: String,
    pub created_at: String,
    pub updated_at: String,
}

/// A parsed row with an unresolved conflict.
#[derive(Debug)]
pub struct ParsedIssueRow {
    pub id: i64,
    pub source_name: String,
    pub competition_year: i64,
    pub competition_scope: String,
    pub conflict_status: String,
    pub raw_shooter_name: Option<String>,
    pub normalized_shooter_name: Option<String>,
    pub raw_club_name: Option<String>,
    pub normalized_club_name: Option<String>,
    pub raw_discipline: Option<String>,
    pub discipline_code: Option<String>,
    pub class_name: Option<String>,
    pub event_name: Option<String>,
    pub pdf_url: Option<String>,
}

/// A source document as listed.
#[derive(Debug)]
pub struct SourceDocumentRow {
    pub id: i64,
    pub source_name: String,
    pub url: String,
    pub local_path: Option<String>,
    pub sha256: Option<String>,
    pub classification: String,
    pub result_count: i64,
    pub parser_row_count: i64,
}

/// A parser run as listed.
#[derive(Debug)]
pub struct ParserRunRow {
    pub id: i64,
    pub source_name: String,
    pub source_kind: String,
    pub parser_name: String,
    pub parser_version: String,
    pub input_path: String,
    pub status: String,
    pub started_at: String,
    pub finished_at: Option<String>,
    pub parsed_row_count: i64,
    pub issue_count: i64,
}

/// A stored result as the result lists show it. The score stands as the
/// text of its cell, written where the stored number was read.
#[derive(Debug, Clone)]
pub struct ResultRow {
    pub id: i64,
    pub athlete_id: Option<i64>,
    pub athlete_name: Option<String>,
    pub club_id: Option<i64>,
    pub club_name: Option<String>,
    pub discipline: Option<String>,
    pub competition_name: String,
    pub competition_scope: String,
    pub competition_year: i64,
    pub result_kind: String,
    pub rank: Option<i64>,
    pub score_text: String,
    pub medal: Option<String>,
    pub participation_only: i64,
    pub event_class: Option<String>,
    pub source_document_id: Option<i64>,
    pub source_url: Option<String>,
}

/// A team as the team list shows it; the score is the text of its cell.
#[derive(Debug, Clone)]
pub struct TeamRow {
    pub id: i64,
    pub canonical_name: String,
    pub club_id: Option<i64>,
    pub club_name: Option<String>,
    pub association_code: Option<String>,
    pub competition_scope: String,
    pub competition_year: i64,
    pub discipline: Option<String>,
    pub event_class: Option<String>,
    pub rank: Option<i64>,
    pub score_text: String,
    pub member_count: i64,
    pub source_document_id: Option<i64>,
    pub source_url: Option<String>,
}

/// A member of a team as its page lists it; the score is the text of its
/// cell.
#[derive(Debug, Clone)]
pub struct TeamMemberRow {
    pub member_order: i64,
    pub athlete_id: Option<i64>,
    pub athlete_name: Option<String>,
    pub display_name: String,
    pub raw_name: Option<String>,
    pub score_text: String,
    pub medal: Option<String>,
    pub result_id: Option<i64>,
}

/// A medal at the state championship beside participation at the national
/// one.
#[derive(Debug)]
pub struct CombinedEvaluationRow {
    pub athlete_id: Option<i64>,
    pub athlete_name: Option<String>,
    pub club_id: Option<i64>,
    pub club_name: Option<String>,
    pub year: i64,
    pub lm_rank: Option<i64>,
    pub lm_medal: Option<String>,
    pub lm_result_kind: String,
    pub lm_discipline: Option<String>,
    pub lm_event_class: Option<String>,
    pub has_dm_participation: i64,
}

} // verus!
