//! The records an import stores for the items of an export: its run, the
//! competition, and per item the source document, parsed row, club,
//! athlete, discipline, result and team.
use vstd::prelude::*;

use crate::export::models::{opt_seq, PodiumResultKind};
use crate::import::podium::{
    canonical_team_name, item_year, item_year_of, kind_name, medal_for_rank, medal_of, result_kind,
    row_fingerprint, scope_of, source_scope, team_canonical_fingerprint, team_fingerprint,
    team_number_from_raw_club, team_number_of, team_source_fingerprint, year_from_path,
    year_in_parts, path_components, discipline_key, parsed_row_fingerprint,
};
use crate::sport_results::{copy_opt_string, copy_string};
use crate::storage::models::{
    NewAthlete, NewClub, NewClubAlias, NewCompetition, NewDiscipline, NewImportRun,
    NewParsedResultRow, NewParserRun, NewResult, NewSourceDocument, NewTeam, NewTeamMember,
    NewTeamResultMember,
};
use crate::text::{chars_of, lex_less, lex_lt, string_of, trim, trim_chars};

verus! {

broadcast use vstd::string::group_string_axioms;

/// A podium item as the import reads it, its score in tenths of a ring and
/// the path of its PDF as text.
#[derive(Debug, Clone)]
pub struct PodiumImportItem {
    pub source_name: String,
    pub rank: u32,
    pub result_kind: PodiumResultKind,
    pub shooter: String,
    pub club: String,
    pub canonical_club: String,
    pub association_code: String,
    pub discipline: Option<String>,
    pub discipline_code: Option<String>,
    pub class_name: Option<String>,
    pub event_name: String,
    pub event_date: Option<String>,
    pub score_tenths: Option<i64>,
    pub pdf_url: String,
    pub local_path: String,
}

fn owned(s: &str) -> (r: String)
    ensures
        r@ == s@,
{
    String::from_str(s)
}

// ---------------------------------------------------------------------------
// Runs and competitions
// ---------------------------------------------------------------------------

/// The year of the competition of a podium export: the year of its first
/// item that names one, else the year in the path of its crawl report.
pub open spec fn podium_year_of(items: Seq<PodiumImportItem>, report_path: Seq<char>) -> Option<int>
    decreases items.len(),
{
    if items.len() == 0 {
        year_in_parts(path_components(report_path))
    } else {
        match item_year_of(opt_seq(items[0].event_date), items[0].event_name@, items[0].local_path@) {
            Some(y) => Some(y),
            None => podium_year_of(items.drop_first(), report_path),
        }
    }
}

pub fn podium_export_year(items: &Vec<PodiumImportItem>, source_report_path: &str) -> (r: Option<i64>)
    ensures
        match (r, podium_year_of(items@, source_report_path@)) {
            (Some(a), Some(b)) => a as int == b,
            (None, None) => true,
            _ => false,
        },
{
    let mut i: usize = 0;
    assert(items@.skip(0) =~= items@);
    while i < items.len()
        invariant
            0 <= i <= items.len(),
            podium_year_of(items@, source_report_path@) == podium_year_of(
                items@.skip(i as int),
                source_report_path@,
            ),
        decreases items.len() - i,
    {
        assert(items@.skip(i as int)[0] == items@[i as int]);
        assert(items@.skip(i as int).drop_first() =~= items@.skip(i + 1));
        let it = &items[i];
        assert(opt_seq(it.event_date) == match it.event_date {
            Some(d) => Some(d@),
            None => None::<Seq<char>>,
        });
        if let Some(y) = item_year(&it.event_date, it.event_name.as_str(), it.local_path.as_str()) {
            return Some(y);
        }
        i += 1;
    }
    assert(items@.skip(i as int) =~= Seq::<PodiumImportItem>::empty());
    year_from_path(source_report_path)
}

/// The earliest and the latest of the dates that items name, in text
/// order.
pub open spec fn date_bound(items: Seq<PodiumImportItem>, latest: bool) -> Option<Seq<char>>
    decreases items.len(),
{
    if items.len() == 0 {
        None
    } else {
        let prev = date_bound(items.drop_last(), latest);
        match opt_seq(items.last().event_date) {
            None => prev,
            Some(d) => match prev {
                None => Some(d),
                Some(p) => if (if latest {
                    lex_lt(p, d)
                } else {
                    lex_lt(d, p)
                }) {
                    Some(d)
                } else {
                    Some(p)
                },
            },
        }
    }
}

fn date_bound_of(items: &Vec<PodiumImportItem>, latest: bool) -> (r: Option<String>)
    ensures
        opt_seq(r) == date_bound(items@, latest),
{
    let mut best: Option<String> = None;
    let mut i: usize = 0;
    assert(items@.take(0) =~= Seq::<PodiumImportItem>::empty());
    while i < items.len()
        invariant
            0 <= i <= items.len(),
            opt_seq(best) == date_bound(items@.take(i as int), latest),
        decreases items.len() - i,
    {
        assert(items@.take(i + 1).drop_last() =~= items@.take(i as int));
        assert(items@.take(i + 1).last() == items@[i as int]);
        match &items[i].event_date {
            None => {},
            Some(d) => {
                let replace = match &best {
                    None => true,
                    Some(p) => if latest {
                        lex_less(&chars_of(p.as_str()), &chars_of(d.as_str()))
                    } else {
                        lex_less(&chars_of(d.as_str()), &chars_of(p.as_str()))
                    },
                };
                if replace {
                    best = Some(copy_string(d));
                }
            },
        }
        i += 1;
    }
    assert(items@.take(i as int) =~= items@);
    best
}

/// The competition of a podium export: named by its first item's event
/// (else by its source), of the source's scope and year, held by the NDSB,
/// from the earliest to the latest date of its items.
pub fn podium_competition(source_name: &str, items: &Vec<PodiumImportItem>, year: i64) -> (r:
    NewCompetition)
    ensures
        r.code@ == scope_of(source_name@) + "-"@ + crate::text::signed_decimal(year as int),
        r.name@ == if items.len() > 0 {
            items[0].event_name@
        } else {
            source_name@
        },
        r.year == year,
        r.scope@ == scope_of(source_name@),
        opt_seq(r.organizer) == Some("NDSB"@),
        opt_seq(r.association_code) == Some("NDSB"@),
        opt_seq(r.country_code) == Some("DE"@),
        opt_seq(r.date_from) == date_bound(items@, false),
        opt_seq(r.date_to) == date_bound(items@, true),
{
    let scope = source_scope(source_name);
    let mut code = chars_of(scope);
    crate::text::append_str(&mut code, "-");
    crate::text::append_chars(&mut code, &crate::text::signed_decimal_chars(year));
    let name = if items.len() > 0 {
        copy_string(&items[0].event_name)
    } else {
        owned(source_name)
    };
    NewCompetition {
        code: string_of(&code),
        name,
        year,
        scope: owned(scope),
        organizer: Some(owned("NDSB")),
        association_code: Some(owned("NDSB")),
        country_code: Some(owned("DE")),
        date_from: date_bound_of(items, false),
        date_to: date_bound_of(items, true),
    }
}

/// The run of a podium import; `version` is the version of this program.
pub fn podium_import_run(source_name: &str, input_path: &str, input_hash: &str, version: &str) -> (r:
    NewImportRun)
    ensures
        r.source_document_id is None,
        r.source_name@ == source_name@,
        r.run_kind@ == "podium-export-import"@,
        opt_seq(r.parser_name) == Some("podium-export-json"@),
        opt_seq(r.parser_version) == Some(version@),
        opt_seq(r.input_path) == Some(input_path@),
        opt_seq(r.input_hash) == Some(input_hash@),
        r.status@ == "success"@,
        r.error is None,
{
    NewImportRun {
        source_document_id: None,
        source_name: owned(source_name),
        run_kind: owned("podium-export-import"),
        parser_name: Some(owned("podium-export-json")),
        parser_version: Some(owned(version)),
        input_path: Some(owned(input_path)),
        input_hash: Some(owned(input_hash)),
        status: owned("success"),
        error: None,
    }
}

/// The parser run of a podium import.
pub fn podium_parser_run(
    source_name: &str,
    import_run_id: i64,
    input_path: &str,
    input_hash: &str,
    source_report_path: &str,
    generated_at: &str,
    version: &str,
) -> (r: NewParserRun)
    ensures
        r.import_run_id == Some(import_run_id),
        r.source_name@ == source_name@,
        r.source_kind@ == "podium-export"@,
        r.parser_name@ == "podium-export-json"@,
        r.parser_version@ == version@,
        r.input_path@ == input_path@,
        r.input_hash@ == input_hash@,
        opt_seq(r.source_report_path) == Some(source_report_path@),
        opt_seq(r.export_generated_at) == Some(generated_at@),
        r.status@ == "success"@,
        r.error is None,
{
    NewParserRun {
        import_run_id: Some(import_run_id),
        source_name: owned(source_name),
        source_kind: owned("podium-export"),
        parser_name: owned("podium-export-json"),
        parser_version: owned(version),
        input_path: owned(input_path),
        input_hash: owned(input_hash),
        source_report_path: Some(owned(source_report_path)),
        export_generated_at: Some(owned(generated_at)),
        status: owned("success"),
        error: None,
    }
}

// ---------------------------------------------------------------------------
// Records of a podium item
// ---------------------------------------------------------------------------

/// The PDF of an item, with the hash and size of its local copy where
/// there is one.
pub fn podium_source_document(item: &PodiumImportItem, sha256: Option<String>, file_size: Option<i64>) -> (r:
    NewSourceDocument)
    ensures
        r.source_name@ == item.source_name@,
        r.url@ == item.pdf_url@,
        opt_seq(r.local_path) == Some(item.local_path@),
        opt_seq(r.sha256) == opt_seq(sha256),
        r.etag is None && r.last_modified is None,
        r.file_size_bytes == file_size,
        r.classification@ == "david21"@,
{
    NewSourceDocument {
        source_name: copy_string(&item.source_name),
        url: copy_string(&item.pdf_url),
        local_path: Some(copy_string(&item.local_path)),
        sha256,
        etag: None,
        last_modified: None,
        file_size_bytes: file_size,
        classification: owned("david21"),
    }
}

/// The club of an item under its corrected canonical name.
pub fn podium_club(item: &PodiumImportItem, canonical_name: &str) -> (r: NewClub)
    ensures
        r.canonical_name@ == canonical_name@,
        opt_seq(r.association_code) == Some(item.association_code@),
        opt_seq(r.source) == Some(item.source_name@),
{
    NewClub {
        canonical_name: owned(canonical_name),
        association_code: Some(copy_string(&item.association_code)),
        source: Some(copy_string(&item.source_name)),
    }
}

/// The trimmed names that are not blank, in order.
pub open spec fn alias_names(names: Seq<Seq<char>>) -> Seq<Seq<char>>
    decreases names.len(),
{
    if names.len() == 0 {
        Seq::empty()
    } else {
        let prev = alias_names(names.drop_last());
        if trim(names.last()).len() > 0 {
            prev.push(trim(names.last()))
        } else {
            prev
        }
    }
}

fn alias_names_of(names: &Vec<&str>) -> (r: Vec<String>)
    ensures
        crate::export::matching::strs(r@) == alias_names(names@.map_values(|s: &str| s@)),
{
    let ghost nv = names@.map_values(|s: &str| s@);
    let mut out: Vec<String> = Vec::new();
    let mut i: usize = 0;
    assert(nv.take(0) =~= Seq::<Seq<char>>::empty());
    while i < names.len()
        invariant
            0 <= i <= names.len(),
            nv == names@.map_values(|s: &str| s@),
            crate::export::matching::strs(out@) == alias_names(nv.take(i as int)),
        decreases names.len() - i,
    {
        assert(nv.take(i + 1).drop_last() =~= nv.take(i as int));
        assert(nv.take(i + 1).last() == names@[i as int]@);
        let t = trim_chars(&chars_of(names[i]));
        if t.len() > 0 {
            let ghost before = crate::export::matching::strs(out@);
            out.push(string_of(&t));
            assert(crate::export::matching::strs(out@) =~= before.push(t@));
        }
        i += 1;
    }
    assert(nv.take(i as int) =~= nv);
    out
}

/// The aliases stored for the club of an item: its raw club, the parser's
/// club and its canonical club, trimmed, each that is not blank.
pub fn podium_alias_names(item: &PodiumImportItem, parser_club: &str) -> (r: Vec<String>)
    ensures
        crate::export::matching::strs(r@) == alias_names(
            seq![item.club@, parser_club@, item.canonical_club@],
        ),
{
    let names: Vec<&str> = vec![item.club.as_str(), parser_club, item.canonical_club.as_str()];
    assert(names@.map_values(|s: &str| s@) =~= seq![item.club@, parser_club@, item.canonical_club@]);
    alias_names_of(&names)
}

/// An alias of an item's club, as a podium import stores it.
pub fn podium_club_alias(item: &PodiumImportItem, club_id: i64, alias: &str) -> (r: NewClubAlias)
    ensures
        r.club_id == club_id,
        r.alias@ == alias@,
        opt_seq(r.association_code) == Some(item.association_code@),
        opt_seq(r.source) == Some("podium-export"@),
        r.status@ == "active"@,
{
    NewClubAlias {
        club_id,
        alias: owned(alias),
        association_code: Some(copy_string(&item.association_code)),
        source: Some(owned("podium-export")),
        status: owned("active"),
    }
}

/// An athlete under a canonical name, sorted by it.
pub fn athlete_from_name(canonical_name: &str) -> (r: NewAthlete)
    ensures
        r.canonical_name@ == canonical_name@,
        opt_seq(r.sort_name) == Some(canonical_name@),
{
    NewAthlete { canonical_name: owned(canonical_name), sort_name: Some(owned(canonical_name)) }
}

/// The discipline of an item: its code and name (`Unbekannte Disziplin`
/// where it has none).
pub fn podium_discipline(item: &PodiumImportItem) -> (r: NewDiscipline)
    ensures
        opt_seq(r.code) == opt_seq(item.discipline_code),
        r.name@ == match opt_seq(item.discipline) {
            Some(d) => d,
            None => "Unbekannte Disziplin"@,
        },
{
    NewDiscipline {
        code: copy_opt_string(&item.discipline_code),
        name: match &item.discipline {
            Some(d) => copy_string(d),
            None => owned("Unbekannte Disziplin"),
        },
    }
}

/// The club a parser read for an item: its canonical club, or its raw club
/// where the canonical one is blank.
pub open spec fn parser_club_of(item: PodiumImportItem) -> Seq<char> {
    if trim(item.canonical_club@).len() == 0 {
        item.club@
    } else {
        item.canonical_club@
    }
}

fn medal_string(rank: u32) -> (r: Option<String>)
    ensures
        opt_seq(r) == medal_of(rank),
{
    match medal_for_rank(rank) {
        Some(m) => Some(owned(m)),
        None => None,
    }
}

/// The parsed row of an item: raw and normalized as the export gives them.
pub fn podium_parsed_row(
    item: &PodiumImportItem,
    parser_run_id: i64,
    source_document_id: i64,
    row_index: i64,
    input_hash: &str,
    year: i64,
    raw_payload: &str,
    canonical_fingerprint: &str,
    conflict_status: &str,
    conflict_result_id: Option<i64>,
) -> (r: NewParsedResultRow)
    ensures
        r.parser_run_id == parser_run_id,
        r.source_document_id == Some(source_document_id),
        r.row_index == row_index,
        r.row_fingerprint@ == row_fingerprint(input_hash@, row_index as int),
        r.canonical_fingerprint@ == canonical_fingerprint@,
        r.source_name@ == item.source_name@,
        r.competition_year == year,
        r.competition_scope@ == scope_of(item.source_name@),
        r.result_kind@ == kind_name(item.result_kind),
        r.rank == Some(item.rank as i64),
        r.score_tenths == item.score_tenths,
        opt_seq(r.raw_shooter_name) == Some(item.shooter@),
        opt_seq(r.normalized_shooter_name) == Some(item.shooter@),
        opt_seq(r.raw_club_name) == Some(item.club@),
        opt_seq(r.normalized_club_name) == Some(parser_club_of(*item)),
        opt_seq(r.association_code) == Some(item.association_code@),
        opt_seq(r.raw_discipline) == opt_seq(item.discipline),
        opt_seq(r.normalized_discipline) == opt_seq(item.discipline),
        opt_seq(r.discipline_code) == opt_seq(item.discipline_code),
        opt_seq(r.class_name) == opt_seq(item.class_name),
        opt_seq(r.event_name) == Some(item.event_name@),
        opt_seq(r.event_date) == opt_seq(item.event_date),
        opt_seq(r.pdf_url) == Some(item.pdf_url@),
        opt_seq(r.local_path) == Some(item.local_path@),
        opt_seq(r.raw_payload) == Some(raw_payload@),
        r.conflict_status@ == conflict_status@,
        r.conflict_result_id == conflict_result_id,
{
    let normalized_club = crate::import::podium::item_canonical_club(
        item.club.as_str(),
        item.canonical_club.as_str(),
    );
    NewParsedResultRow {
        parser_run_id,
        source_document_id: Some(source_document_id),
        row_index,
        row_fingerprint: parsed_row_fingerprint(input_hash, row_index),
        canonical_fingerprint: owned(canonical_fingerprint),
        source_name: copy_string(&item.source_name),
        competition_year: year,
        competition_scope: owned(source_scope(item.source_name.as_str())),
        result_kind: owned(result_kind(&item.result_kind)),
        rank: Some(item.rank as i64),
        score_tenths: item.score_tenths,
        raw_shooter_name: Some(copy_string(&item.shooter)),
        normalized_shooter_name: Some(copy_string(&item.shooter)),
        raw_club_name: Some(copy_string(&item.club)),
        normalized_club_name: Some(normalized_club),
        association_code: Some(copy_string(&item.association_code)),
        raw_discipline: copy_opt_string(&item.discipline),
        normalized_discipline: copy_opt_string(&item.discipline),
        discipline_code: copy_opt_string(&item.discipline_code),
        class_name: copy_opt_string(&item.class_name),
        event_name: Some(copy_string(&item.event_name)),
        event_date: copy_opt_string(&item.event_date),
        pdf_url: Some(copy_string(&item.pdf_url)),
        local_path: Some(copy_string(&item.local_path)),
        raw_payload: Some(owned(raw_payload)),
        conflict_status: owned(conflict_status),
        conflict_result_id,
    }
}

/// The ids a result of a podium item refers to.
#[derive(Debug, Clone, Copy)]
pub struct ResultReferences {
    pub import_run: i64,
    pub source_document: i64,
    pub parsed_result_row: i64,
    pub competition: i64,
    pub athlete: i64,
    pub club: i64,
    pub discipline: i64,
}

/// The result of a podium item, with the medal of its rank.
pub fn podium_result(
    item: &PodiumImportItem,
    ids: ResultReferences,
    raw_payload: &str,
    source_fingerprint: &str,
    canonical_fingerprint: &str,
    conflict_status: &str,
) -> (r: NewResult)
    ensures
        r.import_run_id == Some(ids.import_run),
        r.source_document_id == Some(ids.source_document),
        r.parsed_result_row_id == Some(ids.parsed_result_row),
        r.competition_id == ids.competition,
        r.athlete_id == Some(ids.athlete),
        r.club_id == Some(ids.club),
        r.discipline_id == Some(ids.discipline),
        r.result_kind@ == kind_name(item.result_kind),
        r.rank == Some(item.rank as i64),
        r.score_tenths == item.score_tenths,
        opt_seq(r.medal) == medal_of(item.rank),
        !r.participation_only,
        opt_seq(r.event_class) == opt_seq(item.class_name),
        r.stage@ == "result"@,
        opt_seq(r.raw_shooter_name) == Some(item.shooter@),
        opt_seq(r.raw_club_name) == Some(item.club@),
        opt_seq(r.raw_discipline) == opt_seq(item.discipline),
        opt_seq(r.raw_payload) == Some(raw_payload@),
        opt_seq(r.source_fingerprint) == Some(source_fingerprint@),
        opt_seq(r.canonical_fingerprint) == Some(canonical_fingerprint@),
        r.conflict_status@ == conflict_status@,
{
    NewResult {
        import_run_id: Some(ids.import_run),
        source_document_id: Some(ids.source_document),
        parsed_result_row_id: Some(ids.parsed_result_row),
        competition_id: ids.competition,
        athlete_id: Some(ids.athlete),
        club_id: Some(ids.club),
        discipline_id: Some(ids.discipline),
        result_kind: owned(result_kind(&item.result_kind)),
        rank: Some(item.rank as i64),
        score_tenths: item.score_tenths,
        medal: medal_string(item.rank),
        participation_only: false,
        event_class: copy_opt_string(&item.class_name),
        stage: owned("result"),
        raw_shooter_name: Some(copy_string(&item.shooter)),
        raw_club_name: Some(copy_string(&item.club)),
        raw_discipline: copy_opt_string(&item.discipline),
        raw_payload: Some(owned(raw_payload)),
        source_fingerprint: Some(owned(source_fingerprint)),
        canonical_fingerprint: Some(owned(canonical_fingerprint)),
        conflict_status: owned(conflict_status),
    }
}

/// The team of a team item: named by the canonical club and the team
/// number of the raw club, fingerprinted by source, year, discipline, rank,
/// name, number and class.
pub fn podium_team(
    item: &PodiumImportItem,
    source_document_id: i64,
    parsed_result_row_id: i64,
    competition_id: i64,
    club_id: i64,
    discipline_id: i64,
    canonical_club: &str,
    input_hash: &str,
    year: i64,
    conflict_status: &str,
) -> (r: NewTeam)
    ensures
        r.competition_id == competition_id,
        r.club_id == Some(club_id),
        r.discipline_id == Some(discipline_id),
        r.source_document_id == Some(source_document_id),
        r.parsed_result_row_id == Some(parsed_result_row_id),
        opt_seq(r.team_number) == team_number_of(item.club@),
        r.canonical_name@ == match team_number_of(item.club@) {
            Some(n) => canonical_club@ + " "@ + n,
            None => canonical_club@,
        },
        opt_seq(r.raw_team_name) == Some(item.club@),
        r.rank == Some(item.rank as i64),
        r.score_tenths is None,
        opt_seq(r.medal) == medal_of(item.rank),
        opt_seq(r.event_class) == opt_seq(item.class_name),
        opt_seq(r.canonical_fingerprint) == Some(
            team_fingerprint(
                item.source_name@,
                year as int,
                discipline_key(opt_seq(item.discipline_code), opt_seq(item.discipline)),
                item.rank,
                r.canonical_name@,
                discipline_key(team_number_of(item.club@), None),
                discipline_key(opt_seq(item.class_name), None),
            ),
        ),
        opt_seq(r.source_fingerprint) == Some(input_hash@ + "|"@ + opt_seq(r.canonical_fingerprint)->0),
        r.conflict_status@ == conflict_status@,
{
    let team_number = team_number_from_raw_club(item.club.as_str());
    let name = canonical_team_name(canonical_club, &team_number);
    let canonical_fingerprint = team_canonical_fingerprint(
        item.source_name.as_str(),
        &item.discipline_code,
        &item.discipline,
        &item.class_name,
        item.rank,
        year,
        name.as_str(),
        &team_number,
    );
    let source_fingerprint = team_source_fingerprint(input_hash, canonical_fingerprint.as_str());
    NewTeam {
        competition_id,
        club_id: Some(club_id),
        discipline_id: Some(discipline_id),
        source_document_id: Some(source_document_id),
        parsed_result_row_id: Some(parsed_result_row_id),
        canonical_name: name,
        team_number,
        raw_team_name: Some(copy_string(&item.club)),
        rank: Some(item.rank as i64),
        score_tenths: None,
        medal: medal_string(item.rank),
        event_class: copy_opt_string(&item.class_name),
        source_fingerprint: Some(source_fingerprint),
        canonical_fingerprint: Some(canonical_fingerprint),
        conflict_status: owned(conflict_status),
    }
}

/// The member of a team that a team item names.
pub fn podium_team_member(
    item: &PodiumImportItem,
    team_id: i64,
    athlete_id: i64,
    row_index: i64,
    canonical_athlete: &str,
) -> (r: NewTeamMember)
    ensures
        r.team_id == team_id,
        r.athlete_id == Some(athlete_id),
        r.member_order == row_index,
        r.display_name@ == canonical_athlete@,
        opt_seq(r.raw_name) == Some(item.shooter@),
{
    NewTeamMember {
        team_id,
        athlete_id: Some(athlete_id),
        member_order: row_index,
        display_name: owned(canonical_athlete),
        raw_name: Some(copy_string(&item.shooter)),
    }
}

/// A member's share of a team result: the item's score and medal.
pub fn podium_team_result_member(
    item: &PodiumImportItem,
    team_id: i64,
    result_id: i64,
    athlete_id: i64,
    team_member_id: i64,
    row_index: i64,
) -> (r: NewTeamResultMember)
    ensures
        r.team_id == team_id,
        r.result_id == result_id,
        r.athlete_id == Some(athlete_id),
        r.team_member_id == Some(team_member_id),
        r.member_order == row_index,
        r.score_tenths == item.score_tenths,
        opt_seq(r.medal) == medal_of(item.rank),
        opt_seq(r.raw_name) == Some(item.shooter@),
{
    NewTeamResultMember {
        team_id,
        result_id,
        athlete_id: Some(athlete_id),
        team_member_id: Some(team_member_id),
        member_order: row_index,
        score_tenths: item.score_tenths,
        medal: medal_string(item.rank),
        raw_name: Some(copy_string(&item.shooter)),
    }
}

// ---------------------------------------------------------------------------
// Records of a participation match
// ---------------------------------------------------------------------------

/// A participation match as the import reads it, the path of its PDF as
/// text.
#[derive(Debug, Clone)]
pub struct ParticipationImportItem {
    pub club: String,
    pub canonical_club: String,
    pub source_name: String,
    pub pdf_url: String,
    pub local_path: String,
}

/// The year of the national competition: the year in the path of the first
/// matched PDF that names one, else in the path of the results report.
pub open spec fn participation_year_of(paths: Seq<Seq<char>>, report_path: Seq<char>) -> Option<int>
    decreases paths.len(),
{
    if paths.len() == 0 {
        year_in_parts(path_components(report_path))
    } else {
        match year_in_parts(path_components(paths[0])) {
            Some(y) => Some(y),
            None => participation_year_of(paths.drop_first(), report_path),
        }
    }
}

pub fn participation_export_year(local_paths: &Vec<String>, results_report_path: &str) -> (r: Option<i64>)
    ensures
        match (r, participation_year_of(crate::export::matching::strs(local_paths@), results_report_path@)) {
            (Some(a), Some(b)) => a as int == b,
            (None, None) => true,
            _ => false,
        },
{
    let ghost ps = crate::export::matching::strs(local_paths@);
    let mut i: usize = 0;
    assert(ps.skip(0) =~= ps);
    while i < local_paths.len()
        invariant
            0 <= i <= local_paths.len(),
            ps == crate::export::matching::strs(local_paths@),
            participation_year_of(ps, results_report_path@) == participation_year_of(
                ps.skip(i as int),
                results_report_path@,
            ),
        decreases local_paths.len() - i,
    {
        assert(ps.skip(i as int)[0] == local_paths@[i as int]@);
        assert(ps.skip(i as int).drop_first() =~= ps.skip(i + 1));
        if let Some(y) = year_from_path(local_paths[i].as_str()) {
            return Some(y);
        }
        i += 1;
    }
    assert(ps.skip(i as int) =~= Seq::<Seq<char>>::empty());
    year_from_path(results_report_path)
}

/// The national championship of a year, as a participation import stores
/// it.
pub fn participation_competition(results_source_name: &str, year: i64) -> (r: NewCompetition)
    ensures
        r.code@ == "DM-"@ + crate::text::signed_decimal(year as int),
        r.name@ == results_source_name@ + " "@ + crate::text::signed_decimal(year as int),
        r.year == year,
        r.scope@ == "DM"@,
        opt_seq(r.organizer) == Some("DSB"@),
        r.association_code is None,
        opt_seq(r.country_code) == Some("DE"@),
        r.date_from is None && r.date_to is None,
{
    let mut code = chars_of("DM-");
    crate::text::append_chars(&mut code, &crate::text::signed_decimal_chars(year));
    let mut name = chars_of(results_source_name);
    crate::text::append_str(&mut name, " ");
    crate::text::append_chars(&mut name, &crate::text::signed_decimal_chars(year));
    NewCompetition {
        code: string_of(&code),
        name: string_of(&name),
        year,
        scope: owned("DM"),
        organizer: Some(owned("DSB")),
        association_code: None,
        country_code: Some(owned("DE")),
        date_from: None,
        date_to: None,
    }
}

/// The run of a participation import.
pub fn participation_import_run(source_name: &str, input_path: &str, input_hash: &str, version: &str) -> (r:
    NewImportRun)
    ensures
        r.source_document_id is None,
        r.source_name@ == source_name@,
        r.run_kind@ == "participation-export-import"@,
        opt_seq(r.parser_name) == Some("participation-export-json"@),
        opt_seq(r.parser_version) == Some(version@),
        opt_seq(r.input_path) == Some(input_path@),
        opt_seq(r.input_hash) == Some(input_hash@),
        r.status@ == "success"@,
        r.error is None,
{
    NewImportRun {
        source_document_id: None,
        source_name: owned(source_name),
        run_kind: owned("participation-export-import"),
        parser_name: Some(owned("participation-export-json")),
        parser_version: Some(owned(version)),
        input_path: Some(owned(input_path)),
        input_hash: Some(owned(input_hash)),
        status: owned("success"),
        error: None,
    }
}

/// The parser run of a participation import.
pub fn participation_parser_run(
    source_name: &str,
    import_run_id: i64,
    input_path: &str,
    input_hash: &str,
    results_report_path: &str,
    generated_at: &str,
    version: &str,
) -> (r: NewParserRun)
    ensures
        r.import_run_id == Some(import_run_id),
        r.source_name@ == source_name@,
        r.source_kind@ == "participation-export"@,
        r.parser_name@ == "participation-export-json"@,
        r.parser_version@ == version@,
        r.input_path@ == input_path@,
        r.input_hash@ == input_hash@,
        opt_seq(r.source_report_path) == Some(results_report_path@),
        opt_seq(r.export_generated_at) == Some(generated_at@),
        r.status@ == "success"@,
        r.error is None,
{
    NewParserRun {
        import_run_id: Some(import_run_id),
        source_name: owned(source_name),
        source_kind: owned("participation-export"),
        parser_name: owned("participation-export-json"),
        parser_version: owned(version),
        input_path: owned(input_path),
        input_hash: owned(input_hash),
        source_report_path: Some(owned(results_report_path)),
        export_generated_at: Some(owned(generated_at)),
        status: owned("success"),
        error: None,
    }
}

/// The PDF of a match.
pub fn participation_source_document(
    item: &ParticipationImportItem,
    sha256: Option<String>,
    file_size: Option<i64>,
) -> (r: NewSourceDocument)
    ensures
        r.source_name@ == item.source_name@,
        r.url@ == item.pdf_url@,
        opt_seq(r.local_path) == Some(item.local_path@),
        opt_seq(r.sha256) == opt_seq(sha256),
        r.etag is None && r.last_modified is None,
        r.file_size_bytes == file_size,
        r.classification@ == "participation"@,
{
    NewSourceDocument {
        source_name: copy_string(&item.source_name),
        url: copy_string(&item.pdf_url),
        local_path: Some(copy_string(&item.local_path)),
        sha256,
        etag: None,
        last_modified: None,
        file_size_bytes: file_size,
        classification: owned("participation"),
    }
}

/// The club of a match, of the focus district.
pub fn participation_club(item: &ParticipationImportItem, canonical_name: &str) -> (r: NewClub)
    ensures
        r.canonical_name@ == canonical_name@,
        opt_seq(r.association_code) == Some("OD"@),
        opt_seq(r.source) == Some(item.source_name@),
{
    NewClub {
        canonical_name: owned(canonical_name),
        association_code: Some(owned("OD")),
        source: Some(copy_string(&item.source_name)),
    }
}

/// The aliases stored for the club of a match: its raw and its canonical
/// club, trimmed, each that is not blank.
pub fn participation_alias_names(item: &ParticipationImportItem, canonical_club: &str) -> (r: Vec<
    String,
>)
    ensures
        crate::export::matching::strs(r@) == alias_names(seq![item.club@, canonical_club@]),
{
    let names: Vec<&str> = vec![item.club.as_str(), canonical_club];
    assert(names@.map_values(|s: &str| s@) =~= seq![item.club@, canonical_club@]);
    alias_names_of(&names)
}

/// An alias of a match's club, as a participation import stores it.
pub fn participation_club_alias(club_id: i64, alias: &str) -> (r: NewClubAlias)
    ensures
        r.club_id == club_id,
        r.alias@ == alias@,
        r.association_code is None,
        opt_seq(r.source) == Some("participation-export"@),
        r.status@ == "active"@,
{
    NewClubAlias {
        club_id,
        alias: owned(alias),
        association_code: None,
        source: Some(owned("participation-export")),
        status: owned("active"),
    }
}

fn opt_owned(o: Option<&str>) -> (r: Option<String>)
    ensures
        opt_seq(r) == match o {
            Some(s) => Some(s@),
            None => None,
        },
{
    match o {
        Some(s) => Some(owned(s)),
        None => None,
    }
}

/// Where a participation row was read and what it is known by.
#[derive(Debug, Clone, Copy)]
pub struct ParticipationRowContext {
    pub parser_run: i64,
    pub source_document: i64,
    pub row_index: i64,
    pub year: i64,
}

/// The parsed row of a participation: a DM participation of the focus
/// district, without rank or score.
pub fn participation_parsed_row(
    item: &ParticipationImportItem,
    raw_shooter: Option<&str>,
    canonical_athlete: Option<&str>,
    at: ParticipationRowContext,
    input_hash: &str,
    canonical_club: &str,
    raw_payload: &str,
    canonical_fingerprint: &str,
) -> (r: NewParsedResultRow)
    ensures
        r.parser_run_id == at.parser_run,
        r.source_document_id == Some(at.source_document),
        r.row_index == at.row_index,
        r.row_fingerprint@ == crate::import::participation::row_fingerprint(
            input_hash@,
            at.row_index as int,
        ),
        r.canonical_fingerprint@ == canonical_fingerprint@,
        r.source_name@ == item.source_name@,
        r.competition_year == at.year,
        r.competition_scope@ == "DM"@,
        r.result_kind@ == "participation"@,
        r.rank is None && r.score_tenths is None,
        opt_seq(r.raw_shooter_name) == match raw_shooter {
            Some(s) => Some(s@),
            None => None,
        },
        opt_seq(r.normalized_shooter_name) == match canonical_athlete {
            Some(s) => Some(s@),
            None => None,
        },
        opt_seq(r.raw_club_name) == Some(item.club@),
        opt_seq(r.normalized_club_name) == Some(canonical_club@),
        opt_seq(r.association_code) == Some("OD"@),
        r.raw_discipline is None && r.normalized_discipline is None && r.discipline_code is None,
        r.class_name is None,
        opt_seq(r.event_name) == Some("Deutsche Meisterschaft"@),
        r.event_date is None,
        opt_seq(r.pdf_url) == Some(item.pdf_url@),
        opt_seq(r.local_path) == Some(item.local_path@),
        opt_seq(r.raw_payload) == Some(raw_payload@),
        r.conflict_status@ == "none"@,
        r.conflict_result_id is None,
{
    NewParsedResultRow {
        parser_run_id: at.parser_run,
        source_document_id: Some(at.source_document),
        row_index: at.row_index,
        row_fingerprint: crate::import::participation::parsed_row_fingerprint(input_hash, at.row_index),
        canonical_fingerprint: owned(canonical_fingerprint),
        source_name: copy_string(&item.source_name),
        competition_year: at.year,
        competition_scope: owned("DM"),
        result_kind: owned("participation"),
        rank: None,
        score_tenths: None,
        raw_shooter_name: opt_owned(raw_shooter),
        normalized_shooter_name: opt_owned(canonical_athlete),
        raw_club_name: Some(copy_string(&item.club)),
        normalized_club_name: Some(owned(canonical_club)),
        association_code: Some(owned("OD")),
        raw_discipline: None,
        normalized_discipline: None,
        discipline_code: None,
        class_name: None,
        event_name: Some(owned("Deutsche Meisterschaft")),
        event_date: None,
        pdf_url: Some(copy_string(&item.pdf_url)),
        local_path: Some(copy_string(&item.local_path)),
        raw_payload: Some(owned(raw_payload)),
        conflict_status: owned("none"),
        conflict_result_id: None,
    }
}

/// The ids a participation result refers to.
#[derive(Debug, Clone, Copy)]
pub struct ParticipationReferences {
    pub import_run: i64,
    pub source_document: i64,
    pub parsed_result_row: i64,
    pub competition: i64,
    pub club: i64,
}

/// The result of a participation: participation only, without discipline,
/// rank, score or medal.
pub fn participation_result(
    item: &ParticipationImportItem,
    raw_shooter: Option<&str>,
    ids: ParticipationReferences,
    athlete_id: Option<i64>,
    raw_payload: &str,
    source_fingerprint: &str,
    canonical_fingerprint: &str,
) -> (r: NewResult)
    ensures
        r.import_run_id == Some(ids.import_run),
        r.source_document_id == Some(ids.source_document),
        r.parsed_result_row_id == Some(ids.parsed_result_row),
        r.competition_id == ids.competition,
        r.athlete_id == athlete_id,
        r.club_id == Some(ids.club),
        r.discipline_id is None,
        r.result_kind@ == "participation"@,
        r.rank is None && r.score_tenths is None && r.medal is None,
        r.participation_only,
        r.event_class is None,
        r.stage@ == "participation"@,
        opt_seq(r.raw_shooter_name) == match raw_shooter {
            Some(s) => Some(s@),
            None => None,
        },
        opt_seq(r.raw_club_name) == Some(item.club@),
        r.raw_discipline is None,
        opt_seq(r.raw_payload) == Some(raw_payload@),
        opt_seq(r.source_fingerprint) == Some(source_fingerprint@),
        opt_seq(r.canonical_fingerprint) == Some(canonical_fingerprint@),
        r.conflict_status@ == "none"@,
{
    NewResult {
        import_run_id: Some(ids.import_run),
        source_document_id: Some(ids.source_document),
        parsed_result_row_id: Some(ids.parsed_result_row),
        competition_id: ids.competition,
        athlete_id,
        club_id: Some(ids.club),
        discipline_id: None,
        result_kind: owned("participation"),
        rank: None,
        score_tenths: None,
        medal: None,
        participation_only: true,
        event_class: None,
        stage: owned("participation"),
        raw_shooter_name: opt_owned(raw_shooter),
        raw_club_name: Some(copy_string(&item.club)),
        raw_discipline: None,
        raw_payload: Some(owned(raw_payload)),
        source_fingerprint: Some(owned(source_fingerprint)),
        canonical_fingerprint: Some(owned(canonical_fingerprint)),
        conflict_status: owned("none"),
    }
}

/// The club a match was exported with: its canonical club, or its raw club
/// where the canonical one is blank.
pub fn participation_match_club(item: &ParticipationImportItem) -> (r: String)
    ensures
        r@ == if trim(item.canonical_club@).len() == 0 {
            item.club@
        } else {
            item.canonical_club@
        },
{
    crate::import::podium::item_canonical_club(item.club.as_str(), item.canonical_club.as_str())
}

} // verus!
