//! Imports participation exports into the local database.
use std::path::PathBuf;

use vstd::prelude::*;

pub use crate::import::podium::{first_four_digit_year, year_from_path};
use crate::export::matching::strs;
use crate::text::{append_chars, append_str, chars_of, join, join_chars, signed_decimal, signed_decimal_chars, string_of, views};

verus! {

/// Where an import reads from and writes to.
#[derive(Debug, Clone)]
pub struct ParticipationImportConfig {
    pub input_path: PathBuf,
    pub database_path: PathBuf,
}

/// What an import stored and what it skipped.
#[derive(Debug, Clone, PartialEq, Eq)]
pub struct ParticipationImportReport {
    pub input_path: PathBuf,
    pub database_path: PathBuf,
    pub input_hash: String,
    pub source_name: String,
    pub year: i64,
    pub competition_id: i64,
    pub import_run_id: i64,
    pub parser_run_id: i64,
    pub imported_parser_rows: usize,
    pub skipped_duplicate_parser_rows: usize,
    pub imported_results: usize,
    pub skipped_duplicate_results: usize,
}

/// Imports a participation export into the local database.
#[derive(Debug)]
pub struct ParticipationImporter {
    config: ParticipationImportConfig,
}

impl ParticipationImporter {
    /// The configuration it was made with.
    pub closed spec fn spec_config(&self) -> ParticipationImportConfig {
        self.config
    }

    pub fn new(config: ParticipationImportConfig) -> (r: Self)
        ensures
            r.spec_config() == config,
    {
        ParticipationImporter { config }
    }

    /// What it imports and where it stores it.
    pub fn config(&self) -> (r: &ParticipationImportConfig)
        ensures
            *r == self.spec_config(),
    {
        &self.config
    }
}


/// The fingerprint of the row at `row_index` of a participation input.
pub open spec fn row_fingerprint(input_hash: Seq<char>, row_index: int) -> Seq<char> {
    input_hash + "|participation-row|"@ + signed_decimal(row_index)
}

pub fn parsed_row_fingerprint(input_hash: &str, row_index: i64) -> (r: String)
    ensures
        r@ == row_fingerprint(input_hash@, row_index as int),
{
    let mut out = chars_of(input_hash);
    append_str(&mut out, "|participation-row|");
    append_chars(&mut out, &signed_decimal_chars(row_index));
    string_of(&out)
}

/// The fingerprint of a participation result within one input.
pub fn source_result_fingerprint(input_hash: &str, canonical_fingerprint: &str) -> (r: String)
    ensures
        r@ == input_hash@ + "|"@ + canonical_fingerprint@,
{
    let mut out = chars_of(input_hash);
    append_str(&mut out, "|");
    append_chars(&mut out, &chars_of(canonical_fingerprint));
    string_of(&out)
}

/// What identifies a participation across imports: source, year,
/// `participation`, club, athlete (`club-only` for a club without named
/// shooters) and PDF.
pub open spec fn participation_fingerprint(
    source_name: Seq<char>,
    year: int,
    club: Seq<char>,
    athlete: Option<Seq<char>>,
    pdf_url: Seq<char>,
) -> Seq<char> {
    join(
        seq![
            source_name,
            signed_decimal(year),
            "participation"@,
            club,
            match athlete {
                Some(a) => a,
                None => "club-only"@,
            },
            pdf_url,
        ],
        "|"@,
    )
}

pub fn canonical_result_fingerprint(
    source_name: &str,
    pdf_url: &str,
    year: i64,
    canonical_club: &str,
    canonical_athlete: Option<&str>,
) -> (r: String)
    ensures
        r@ == participation_fingerprint(
            source_name@,
            year as int,
            canonical_club@,
            match canonical_athlete {
                Some(a) => Some(a@),
                None => None,
            },
            pdf_url@,
        ),
{
    let mut parts: Vec<Vec<char>> = Vec::new();
    parts.push(chars_of(source_name));
    parts.push(signed_decimal_chars(year));
    parts.push(chars_of("participation"));
    parts.push(chars_of(canonical_club));
    parts.push(
        match canonical_athlete {
            Some(a) => chars_of(a),
            None => chars_of("club-only"),
        },
    );
    parts.push(chars_of(pdf_url));
    let ghost athlete_opt: Option<Seq<char>> = match canonical_athlete {
        Some(a) => Some(a@),
        None => None,
    };
    assert(views(parts@) =~= seq![
        source_name@,
        signed_decimal(year as int),
        "participation"@,
        canonical_club@,
        match athlete_opt {
            Some(a) => a,
            None => "club-only"@,
        },
        pdf_url@,
    ]);
    let sep = chars_of("|");
    let joined = join_chars(&parts, &sep);
    string_of(&joined)
}

/// The shooters a participation stands for: each named shooter, or one
/// entry without a name where none is named.
pub fn participation_shooters(shooters: &Vec<String>) -> (r: Vec<Option<String>>)
    ensures
        shooters.len() == 0 ==> r@.len() == 1 && r@[0] is None,
        shooters.len() > 0 ==> r@.len() == shooters.len() && forall|i: int|
            0 <= i < shooters.len() ==> ((#[trigger] r@[i]) matches Some(s) && s@ == shooters@[i]@),
{
    if shooters.len() == 0 {
        return vec![None];
    }
    let mut out: Vec<Option<String>> = Vec::new();
    let mut i: usize = 0;
    while i < shooters.len()
        invariant
            0 <= i <= shooters.len(),
            out.len() == i,
            forall|k: int| 0 <= k < i ==> ((#[trigger] out@[k]) matches Some(s) && s@ == shooters@[k]@),
        decreases shooters.len() - i,
    {
        out.push(Some(shooters[i].clone()));
        i += 1;
    }
    out
}
} // verus!
