//! Rows written to and read from the result database.
use vstd::prelude::*;

verus! {

/// A PDF (or export file) that results were read from.
#[derive(Debug, Clone, PartialEq, Eq)]
pub struct NewSourceDocument {
    pub source_name: String,
    pub url: String,
    pub local_path: Option<String>,
    pub sha256: Option<String>,
    pub etag: Option<String>,
    pub last_modified: Option<String>,
    pub file_size_bytes: Option<i64>,
    pub classification: String,
}

/// One run of an importer.
#[derive(Debug, Clone, PartialEq, Eq)]
pub struct NewImportRun {
    pub source_document_id: Option<i64>,
    pub source_name: String,
    pub run_kind: String,
    pub parser_name: Option<String>,
    pub parser_version: Option<String>,
    pub input_path: Option<String>,
    pub input_hash: Option<String>,
    pub status: String,
    pub error: Option<String>,
}

/// A competition of one year and scope (LM, DM, KM, ...).
#[derive(Debug, Clone, PartialEq, Eq)]
pub struct NewCompetition {
    pub code: String,
    pub name: String,
    pub year: i64,
    pub scope: String,
    pub organizer: Option<String>,
    pub association_code: Option<String>,
    pub country_code: Option<String>,
    pub date_from: Option<String>,
    pub date_to: Option<String>,
}

/// A club under its canonical name.
#[derive(Debug, Clone, PartialEq, Eq)]
pub struct NewClub {
    pub canonical_name: String,
    pub association_code: Option<String>,
    pub source: Option<String>,
}

/// Another spelling of a club.
#[derive(Debug, Clone, PartialEq, Eq)]
pub struct NewClubAlias {
    pub club_id: i64,
    pub alias: String,
    pub association_code: Option<String>,
    pub source: Option<String>,
    pub status: String,
}

/// An active alias with the canonical name of its club.
#[derive(Debug, Clone, PartialEq, Eq)]
pub struct ClubAlias {
    pub club_id: i64,
    pub alias: String,
    pub canonical_name: String,
}

/// An athlete under the canonical name.
#[derive(Debug, Clone, PartialEq, Eq)]
pub struct NewAthlete {
    pub canonical_name: String,
    pub sort_name: Option<String>,
}

/// A discipline by code and name.
#[derive(Debug, Clone, PartialEq, Eq)]
pub struct NewDiscipline {
    pub code: Option<String>,
    pub name: String,
}

/// A result of a competition; the score is counted in tenths of a ring.
#[derive(Debug, Clone, PartialEq, Eq)]
pub struct NewResult {
    pub import_run_id: Option<i64>,
    pub source_document_id: Option<i64>,
    pub parsed_result_row_id: Option<i64>,
    pub competition_id: i64,
    pub athlete_id: Option<i64>,
    pub club_id: Option<i64>,
    pub discipline_id: Option<i64>,
    pub result_kind: String,
    pub rank: Option<i64>,
    pub score_tenths: Option<i64>,
    pub medal: Option<String>,
    pub participation_only: bool,
    pub event_class: Option<String>,
    pub stage: String,
    pub raw_shooter_name: Option<String>,
    pub raw_club_name: Option<String>,
    pub raw_discipline: Option<String>,
    pub raw_payload: Option<String>,
    pub source_fingerprint: Option<String>,
    pub canonical_fingerprint: Option<String>,
    pub conflict_status: String,
}

/// A team of a competition.
#[derive(Debug, Clone, PartialEq, Eq)]
pub struct NewTeam {
    pub competition_id: i64,
    pub club_id: Option<i64>,
    pub discipline_id: Option<i64>,
    pub source_document_id: Option<i64>,
    pub parsed_result_row_id: Option<i64>,
    pub canonical_name: String,
    pub team_number: Option<String>,
    pub raw_team_name: Option<String>,
    pub rank: Option<i64>,
    pub score_tenths: Option<i64>,
    pub medal: Option<String>,
    pub event_class: Option<String>,
    pub source_fingerprint: Option<String>,
    pub canonical_fingerprint: Option<String>,
    pub conflict_status: String,
}

/// A member of a team.
#[derive(Debug, Clone, PartialEq, Eq)]
pub struct NewTeamMember {
    pub team_id: i64,
    pub athlete_id: Option<i64>,
    pub member_order: i64,
    pub display_name: String,
    pub raw_name: Option<String>,
}

/// A team member's share of a team result; the score is in tenths.
#[derive(Debug, Clone, PartialEq, Eq)]
pub struct NewTeamResultMember {
    pub team_id: i64,
    pub result_id: i64,
    pub athlete_id: Option<i64>,
    pub team_member_id: Option<i64>,
    pub member_order: i64,
    pub score_tenths: Option<i64>,
    pub medal: Option<String>,
    pub raw_name: Option<String>,
}

/// One run of a parser over one input.
#[derive(Debug, Clone, PartialEq, Eq)]
pub struct NewParserRun {
    pub import_run_id: Option<i64>,
    pub source_name: String,
    pub source_kind: String,
    pub parser_name: String,
    pub parser_version: String,
    pub input_path: String,
    pub input_hash: String,
    pub source_report_path: Option<String>,
    pub export_generated_at: Option<String>,
    pub status: String,
    pub error: Option<String>,
}

/// A row as the parser read it; the score is in tenths.
#[derive(Debug, Clone, PartialEq, Eq)]
pub struct NewParsedResultRow {
    pub parser_run_id: i64,
    pub source_document_id: Option<i64>,
    pub row_index: i64,
    pub row_fingerprint: String,
    pub canonical_fingerprint: String,
    pub source_name: String,
    pub competition_year: i64,
    pub competition_scope: String,
    pub result_kind: String,
    pub rank: Option<i64>,
    pub score_tenths: Option<i64>,
    pub raw_shooter_name: Option<String>,
    pub normalized_shooter_name: Option<String>,
    pub raw_club_name: Option<String>,
    pub normalized_club_name: Option<String>,
    pub association_code: Option<String>,
    pub raw_discipline: Option<String>,
    pub normalized_discipline: Option<String>,
    pub discipline_code: Option<String>,
    pub class_name: Option<String>,
    pub event_name: Option<String>,
    pub event_date: Option<String>,
    pub pdf_url: Option<String>,
    pub local_path: Option<String>,
    pub raw_payload: Option<String>,
    pub conflict_status: String,
    pub conflict_result_id: Option<i64>,
}

/// A manual name correction to be stored.
#[derive(Debug, Clone, PartialEq, Eq)]
pub struct NewManualOverride {
    pub scope: String,
    pub entity_type: String,
    pub entity_id: Option<i64>,
    pub source_document_id: Option<i64>,
    pub parsed_result_row_id: Option<i64>,
    pub field_name: String,
    pub old_value: String,
    pub new_value: String,
    pub reason: Option<String>,
    pub status: String,
}

/// A stored manual name correction.
#[derive(Debug, Clone, PartialEq, Eq)]
pub struct ManualOverride {
    pub id: i64,
    pub scope: String,
    pub entity_type: String,
    pub field_name: String,
    pub old_value: String,
    pub new_value: String,
    pub reason: Option<String>,
    pub status: String,
}

/// Row counts of the main tables.
#[derive(Debug, Clone, PartialEq, Eq)]
pub struct StorageCounts {
    pub source_documents: i64,
    pub import_runs: i64,
    pub competitions: i64,
    pub clubs: i64,
    pub club_aliases: i64,
    pub athletes: i64,
    pub disciplines: i64,
    pub results: i64,
    pub parser_runs: i64,
    pub parsed_result_rows: i64,
    pub manual_overrides: i64,
    pub teams: i64,
    pub team_members: i64,
    pub team_result_members: i64,
}

/// The id of a result and whether this call inserted it.
#[derive(Debug, Clone, Copy, PartialEq, Eq)]
pub struct StoredResult {
    pub id: i64,
    pub inserted: bool,
}

/// The id of a parsed row and whether this call inserted it.
#[derive(Debug, Clone, Copy, PartialEq, Eq)]
pub struct StoredParsedResultRow {
    pub id: i64,
    pub inserted: bool,
}

/// A stored result found by its canonical fingerprint.
#[derive(Debug, Clone, PartialEq, Eq)]
pub struct CanonicalResultReference {
    pub id: i64,
    pub source_fingerprint: Option<String>,
    pub raw_payload: Option<String>,
}

/// The code of the organization that holds a competition of a scope:
/// the association for a district competition (`OD` when it has none),
/// fixed bodies for state, national, world and Olympic competitions, and
/// the stated organizer otherwise.
pub open spec fn organizer_code_of(
    scope: Seq<char>,
    association_code: Option<Seq<char>>,
    organizer: Option<Seq<char>>,
) -> Option<Seq<char>> {
    if scope == "KM"@ {
        match association_code {
            Some(a) => Some(a),
            None => Some("OD"@),
        }
    } else if scope == "LM"@ {
        Some("NDSB"@)
    } else if scope == "DM"@ {
        Some("DSB"@)
    } else if scope == "WM"@ {
        Some("ISSF"@)
    } else if scope == "Olympia"@ || scope == "OLY"@ {
        Some("IOC"@)
    } else {
        organizer
    }
}

pub open spec fn opt_view(o: Option<String>) -> Option<Seq<char>> {
    match o {
        Some(s) => Some(s@),
        None => None,
    }
}

fn copy_opt(o: &Option<String>) -> (r: Option<String>)
    ensures
        opt_view(r) == opt_view(*o),
{
    match o {
        Some(s) => Some(crate::text::string_of(&crate::text::chars_of(s.as_str()))),
        None => None,
    }
}

/// The code of the organization that holds a competition.
pub fn competition_organizer_code(competition: &NewCompetition) -> (r: Option<String>)
    ensures
        opt_view(r) == organizer_code_of(
            competition.scope@,
            opt_view(competition.association_code),
            opt_view(competition.organizer),
        ),
{
    let scope = crate::text::chars_of(competition.scope.as_str());
    proof {
        reveal_strlit("KM");
        reveal_strlit("LM");
        reveal_strlit("DM");
        reveal_strlit("WM");
        reveal_strlit("Olympia");
        reveal_strlit("OLY");
        reveal_strlit("OD");
        reveal_strlit("NDSB");
        reveal_strlit("DSB");
        reveal_strlit("ISSF");
        reveal_strlit("IOC");
    }
    if crate::text::eq_str(&scope, "KM") {
        match &competition.association_code {
            Some(a) => Some(crate::text::string_of(&crate::text::chars_of(a.as_str()))),
            None => Some(String::from_str("OD")),
        }
    } else if crate::text::eq_str(&scope, "LM") {
        Some(String::from_str("NDSB"))
    } else if crate::text::eq_str(&scope, "DM") {
        Some(String::from_str("DSB"))
    } else if crate::text::eq_str(&scope, "WM") {
        Some(String::from_str("ISSF"))
    } else if crate::text::eq_str(&scope, "Olympia") || crate::text::eq_str(&scope, "OLY") {
        Some(String::from_str("IOC"))
    } else {
        copy_opt(&competition.organizer)
    }
}

/// A name as entered for a club or alias: trimmed, and not blank.
pub fn required_name(name: &str) -> (r: Result<String, String>)
    ensures
        match r {
            Ok(n) => n@ == crate::text::trim(name@) && n@.len() > 0,
            Err(m) => crate::text::trim(name@).len() == 0 && m@ == "Bitte einen Namen eingeben."@,
        },
{
    let t = crate::text::trim_chars(&crate::text::chars_of(name));
    if t.len() == 0 {
        Err(String::from_str("Bitte einen Namen eingeben."))
    } else {
        Ok(crate::text::string_of(&t))
    }
}


/// What a merge joins into another record of its kind.
#[derive(Debug, Clone, Copy, PartialEq, Eq)]
pub enum MergeSubject {
    Club,
    Athlete,
}

/// The answer to a merge of a record into itself.
pub open spec fn merge_refusal(subject: MergeSubject) -> Seq<char> {
    match subject {
        MergeSubject::Club => "Quell- und Zielverein müssen unterschiedlich sein."@,
        MergeSubject::Athlete => "Quell- und Zielsportler müssen unterschiedlich sein."@,
    }
}

/// A merge needs two different records: the source goes into the target.
pub fn check_merge(subject: MergeSubject, source_id: i64, target_id: i64) -> (r: Result<(), String>)
    ensures
        r is Ok <==> source_id != target_id,
        match r {
            Err(m) => m@ == merge_refusal(subject),
            Ok(_) => true,
        },
{
    if source_id != target_id {
        Ok(())
    } else {
        match subject {
            MergeSubject::Club => Err(String::from_str("Quell- und Zielverein müssen unterschiedlich sein.")),
            MergeSubject::Athlete => Err(String::from_str("Quell- und Zielsportler müssen unterschiedlich sein.")),
        }
    }
}

} // verus!
