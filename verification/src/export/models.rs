//! Export configurations and the records of an export.
use std::path::PathBuf;

use vstd::prelude::*;

use crate::export::matching::pair_views;
use crate::import::podium::last_value;
use crate::text::chars_of;

verus! {

broadcast use vstd::string::group_string_axioms;

/// Where a podium export reads and writes, and the name corrections it
/// applies.
#[derive(Debug, Clone)]
pub struct PodiumExportConfig {
    pub crawl_report_path: PathBuf,
    pub json_output_path: PathBuf,
    pub html_output_path: PathBuf,
    pub focus_association_code: String,
    pub max_place: u32,
    pub min_text_chars: usize,
    pub manual_overrides: ManualNameOverrides,
}

/// Manual corrections of club and athlete names, each as (from, to); a name
/// listed twice takes its last correction.
#[derive(Debug, Clone)]
pub struct ManualNameOverrides {
    pub club_names: Vec<(String, String)>,
    pub athlete_names: Vec<(String, String)>,
}

impl Default for ManualNameOverrides {
    fn default() -> (r: Self)
        ensures
            r.club_names@.len() == 0,
            r.athlete_names@.len() == 0,
    {
        ManualNameOverrides { club_names: Vec::new(), athlete_names: Vec::new() }
    }
}

fn last_correction(entries: &Vec<(String, String)>, key: &str) -> (r: Option<String>)
    ensures
        match (r, last_value(pair_views(entries@), key@)) {
            (Some(a), Some(b)) => a@ == b,
            (None, None) => true,
            _ => false,
        },
{
    let ghost ev = pair_views(entries@);
    let k = chars_of(key);
    let mut i: usize = entries.len();
    assert(ev.take(i as int) =~= ev);
    while i > 0
        invariant
            0 <= i <= entries.len(),
            ev == pair_views(entries@),
            k@ == key@,
            last_value(ev, key@) == last_value(ev.take(i as int), key@),
        decreases i,
    {
        assert(ev.take(i as int).last() == (entries@[i - 1].0@, entries@[i - 1].1@));
        assert(ev.take(i as int).drop_last() =~= ev.take(i - 1));
        if crate::text::eq_chars(&chars_of(entries[i - 1].0.as_str()), &k) {
            return Some(entries[i - 1].1.clone());
        }
        i -= 1;
    }
    None
}

impl ManualNameOverrides {
    /// The corrected athlete name, or the name itself.
    pub fn corrected_athlete_name(&self, name: &str) -> (r: String)
        ensures
            r@ == match last_value(pair_views(self.athlete_names@), name@) {
                Some(v) => v,
                None => name@,
            },
    {
        match last_correction(&self.athlete_names, name) {
            Some(v) => v,
            None => String::from_str(name),
        }
    }

    /// The corrected club: the correction of the canonical name, else of
    /// the raw name, else the canonical name.
    pub fn corrected_club_name(&self, raw_club: &str, canonical_club: &str) -> (r: String)
        ensures
            r@ == match last_value(pair_views(self.club_names@), canonical_club@) {
                Some(v) => v,
                None => match last_value(pair_views(self.club_names@), raw_club@) {
                    Some(v) => v,
                    None => canonical_club@,
                },
            },
    {
        match last_correction(&self.club_names, canonical_club) {
            Some(v) => v,
            None => match last_correction(&self.club_names, raw_club) {
                Some(v) => v,
                None => String::from_str(canonical_club),
            },
        }
    }
}

/// Where a participation export reads and writes.
#[derive(Debug, Clone)]
pub struct ParticipationExportConfig {
    pub club_source_report_path: PathBuf,
    pub results_report_path: PathBuf,
    pub json_output_path: PathBuf,
    pub html_output_path: PathBuf,
    pub focus_association_code: String,
    pub min_text_chars: usize,
}

/// Where a combined export reads and writes.
#[derive(Debug, Clone)]
pub struct CombinedExportConfig {
    pub podium_export_path: PathBuf,
    pub participation_export_path: PathBuf,
    pub json_output_path: PathBuf,
    pub html_output_path: PathBuf,
}

/// A PDF that needs a person to read it.
#[derive(Debug, Clone)]
pub struct ManualReviewPdf {
    pub url: String,
    pub reason: Option<String>,
    pub text_char_count: Option<usize>,
    pub needs_ocr: Option<bool>,
}

/// Whether a podium place was won alone or as a team.
#[derive(Debug, Clone, Copy, PartialEq, Eq, Structural)]
pub enum PodiumResultKind {
    Individual,
    Team,
}

/// A club found in a participation list, with its shooters.
#[derive(Debug, Clone)]
pub struct ParticipationMatch {
    pub club: String,
    pub canonical_club: String,
    pub shooters: Vec<String>,
    pub source_name: String,
    pub pdf_url: String,
    pub local_path: PathBuf,
    pub text_char_count: usize,
}

/// Where a podium export from the database reads and writes.
#[derive(Debug, Clone)]
pub struct DatabasePodiumExportConfig {
    pub database_path: PathBuf,
    pub year: i64,
    pub competition_scope: String,
    pub focus_association_code: String,
    pub max_place: u32,
    pub json_output_path: PathBuf,
    pub html_output_path: PathBuf,
}

/// Where a combined export from the database reads and writes.
#[derive(Debug, Clone)]
pub struct DatabaseCombinedExportConfig {
    pub database_path: PathBuf,
    pub year: i64,
    pub focus_association_code: String,
    pub max_place: u32,
    pub json_output_path: PathBuf,
    pub html_output_path: PathBuf,
}

/// The score of a podium entry: a DAVID21+ total in tenths, or, for a
/// Meyton row, the row whose last number is the score.
#[derive(Debug, Clone)]
pub enum EntryScore {
    Tenths(u64),
    MeytonRow(String),
}

pub ghost enum ScoreView {
    Tenths(u64),
    MeytonRow(Seq<char>),
}

/// A podium place of one shooter, as exported.
#[derive(Debug, Clone)]
pub struct PodiumEntry {
    pub source_name: String,
    pub rank: u32,
    pub result_kind: PodiumResultKind,
    pub shooter: String,
    pub club: String,
    pub canonical_club: String,
    pub association_code: String,
    pub association_name: String,
    pub discipline: Option<String>,
    pub discipline_code: Option<String>,
    pub class_name: Option<String>,
    pub event_name: String,
    pub event_date: Option<String>,
    pub score: EntryScore,
    pub pdf_url: String,
    pub local_path: PathBuf,
}

pub ghost struct EntryView {
    pub source_name: Seq<char>,
    pub rank: u32,
    pub result_kind: PodiumResultKind,
    pub shooter: Seq<char>,
    pub club: Seq<char>,
    pub canonical_club: Seq<char>,
    pub association_code: Seq<char>,
    pub association_name: Seq<char>,
    pub discipline: Option<Seq<char>>,
    pub discipline_code: Option<Seq<char>>,
    pub class_name: Option<Seq<char>>,
    pub event_name: Seq<char>,
    pub event_date: Option<Seq<char>>,
    pub score: ScoreView,
    pub pdf_url: Seq<char>,
    pub local_path: PathBuf,
}

pub open spec fn opt_seq(o: Option<String>) -> Option<Seq<char>> {
    match o {
        Some(s) => Some(s@),
        None => None,
    }
}

impl View for PodiumEntry {
    type V = EntryView;

    open spec fn view(&self) -> EntryView {
        EntryView {
            source_name: self.source_name@,
            rank: self.rank,
            result_kind: self.result_kind,
            shooter: self.shooter@,
            club: self.club@,
            canonical_club: self.canonical_club@,
            association_code: self.association_code@,
            association_name: self.association_name@,
            discipline: opt_seq(self.discipline),
            discipline_code: opt_seq(self.discipline_code),
            class_name: opt_seq(self.class_name),
            event_name: self.event_name@,
            event_date: opt_seq(self.event_date),
            score: match self.score {
                EntryScore::Tenths(t) => ScoreView::Tenths(t),
                EntryScore::MeytonRow(r) => ScoreView::MeytonRow(r@),
            },
            pdf_url: self.pdf_url@,
            local_path: self.local_path,
        }
    }
}

pub open spec fn entry_views(s: Seq<PodiumEntry>) -> Seq<EntryView> {
    s.map_values(|e: PodiumEntry| e@)
}

pub ghost struct MatchView {
    pub club: Seq<char>,
    pub canonical_club: Seq<char>,
    pub shooters: Seq<Seq<char>>,
    pub source_name: Seq<char>,
    pub pdf_url: Seq<char>,
    pub local_path: PathBuf,
    pub text_char_count: usize,
}

impl View for ParticipationMatch {
    type V = MatchView;

    open spec fn view(&self) -> MatchView {
        MatchView {
            club: self.club@,
            canonical_club: self.canonical_club@,
            shooters: self.shooters@.map_values(|s: String| s@),
            source_name: self.source_name@,
            pdf_url: self.pdf_url@,
            local_path: self.local_path,
            text_char_count: self.text_char_count,
        }
    }
}

pub open spec fn match_views(s: Seq<ParticipationMatch>) -> Seq<MatchView> {
    s.map_values(|m: ParticipationMatch| m@)
}

/// The text extracted from a PDF of a crawl.
#[derive(Debug, Clone)]
pub struct ExtractedPdf {
    pub url: String,
    pub local_path: PathBuf,
    pub text: String,
}

} // verus!
