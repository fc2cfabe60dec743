//! Imports podium exports into the local database: the rules that name,
//! date and fingerprint what is stored.
use std::path::PathBuf;

use vstd::prelude::*;

use crate::export::matching::{pair_views, strs};
use crate::export::models::PodiumResultKind;
use crate::text::{
    all_digits, append_chars, append_str, chars_of, contains, contains_str, decimal, digits_value,
    is_digit, is_digit_char, join, last_index_of, signed_decimal, signed_decimal_chars,
    string_of, trim, trim_chars, words, split_words, copy_chars, ascii_upper, ascii_upper_char,
    eq_str,
};
use crate::export::matching::{is_roman_numeral, is_roman_numeral_chars, trim_dots, trim_dots_chars};

verus! {

broadcast use vstd::string::group_string_axioms;

/// Where an import reads from and writes to.
#[derive(Debug, Clone)]
pub struct PodiumImportConfig {
    pub input_path: PathBuf,
    pub database_path: PathBuf,
}

/// What an import stored and what it skipped.
#[derive(Debug, Clone, PartialEq, Eq)]
pub struct PodiumImportReport {
    pub input_path: PathBuf,
    pub database_path: PathBuf,
    pub input_hash: String,
    pub source_name: String,
    pub year: i64,
    pub competition_id: i64,
    pub import_run_id: i64,
    pub parser_run_id: i64,
    pub imported_parser_rows: usize,
    pub skipped_duplicate_parser_rows: usize,
    pub imported_results: usize,
    pub skipped_duplicate_results: usize,
    pub conflict_count: usize,
}

/// Imports a podium export into the local database.
#[derive(Debug)]
pub struct PodiumImporter {
    config: PodiumImportConfig,
}

impl PodiumImporter {
    /// The configuration it was made with.
    pub closed spec fn spec_config(&self) -> PodiumImportConfig {
        self.config
    }

    pub fn new(config: PodiumImportConfig) -> (r: Self)
        ensures
            r.spec_config() == config,
    {
        PodiumImporter { config }
    }

    /// What it imports and where it stores it.
    pub fn config(&self) -> (r: &PodiumImportConfig)
        ensures
            *r == self.spec_config(),
    {
        &self.config
    }
}

// ---------------------------------------------------------------------------
// Years
// ---------------------------------------------------------------------------

/// Reading `s` with the run `cur` of ASCII digits just before it: the first
/// complete run of exactly four digits.
pub open spec fn year_scan(s: Seq<char>, cur: Seq<char>) -> Option<int>
    decreases s.len(),
{
    if s.len() == 0 {
        if cur.len() == 4 {
            Some(digits_value(cur))
        } else {
            None
        }
    } else if is_digit(s[0]) {
        year_scan(s.drop_first(), cur.push(s[0]))
    } else if cur.len() == 4 {
        Some(digits_value(cur))
    } else {
        year_scan(s.drop_first(), Seq::empty())
    }
}

proof fn lemma_four_digits_bound(d: Seq<char>)
    requires
        d.len() == 4,
        all_digits(d),
    ensures
        0 <= digits_value(d) <= 9999,
{
    reveal_with_fuel(digits_value, 5);
    assert(d.drop_last().drop_last().drop_last().drop_last() =~= Seq::<char>::empty());
}

/// The first run of exactly four ASCII digits in a text, as a year.
pub fn first_four_digit_year(value: &str) -> (r: Option<i64>)
    ensures
        match (r, year_scan(value@, Seq::empty())) {
            (Some(a), Some(b)) => a as int == b,
            (None, None) => true,
            _ => false,
        },
{
    let v = chars_of(value);
    let mut cur: Vec<char> = Vec::new();
    let mut i: usize = 0;
    assert(v@.skip(0) =~= v@);
    while i < v.len()
        invariant
            0 <= i <= v.len(),
            year_scan(value@, Seq::empty()) == year_scan(v@.skip(i as int), cur@),
            v@ == value@,
            all_digits(cur@),
        decreases v.len() - i,
    {
        assert(v@.skip(i as int)[0] == v[i as int]);
        assert(v@.skip(i as int).drop_first() =~= v@.skip(i + 1));
        if !is_digit_char(v[i]) {
            if cur.len() == 4 {
                proof {
                    lemma_four_digits_bound(cur@);
                }
                return Some(four_digits_value(&cur));
            }
            cur = Vec::new();
        } else {
            cur.push(v[i]);
        }
        i += 1;
    }
    assert(v@.skip(i as int) =~= Seq::<char>::empty());
    if cur.len() == 4 {
        proof {
            lemma_four_digits_bound(cur@);
        }
        return Some(four_digits_value(&cur));
    }
    None
}

fn four_digits_value(d: &Vec<char>) -> (r: i64)
    requires
        d.len() == 4,
        all_digits(d@),
    ensures
        r as int == digits_value(d@),
{
    proof {
        reveal_with_fuel(digits_value, 5);
        assert(d@.drop_last().drop_last().drop_last().drop_last() =~= Seq::<char>::empty());
    }
    let a = (d[0] as u32 - '0' as u32) as i64;
    let b = (d[1] as u32 - '0' as u32) as i64;
    let c = (d[2] as u32 - '0' as u32) as i64;
    let e = (d[3] as u32 - '0' as u32) as i64;
    assert(d@.drop_last().drop_last().drop_last() =~= seq![d@[0]]);
    assert(d@.drop_last().drop_last() =~= seq![d@[0], d@[1]]);
    assert(d@.drop_last() =~= seq![d@[0], d@[1], d@[2]]);
    ((a * 10 + b) * 10 + c) * 10 + e
}

/// What `Path::iter` yields for a path, each part as text.
pub uninterp spec fn path_components(path: Seq<char>) -> Seq<Seq<char>>;

/// `Path::iter`: the components of a path given as text; each is text again,
/// as the path was.
#[verifier::external_body]
fn path_component_texts(path: &str) -> (r: Vec<String>)
    ensures
        strs(r@) == path_components(path@),
{
    std::path::Path::new(path).iter().map(|part| part.to_string_lossy().into_owned()).collect()
}

/// The first component of a path that holds a year.
pub open spec fn year_in_parts(parts: Seq<Seq<char>>) -> Option<int>
    decreases parts.len(),
{
    if parts.len() == 0 {
        None
    } else {
        match year_scan(parts[0], Seq::empty()) {
            Some(y) => Some(y),
            None => year_in_parts(parts.drop_first()),
        }
    }
}

/// The year named by a component of a path (`.../2026/...`).
pub fn year_from_path(path: &str) -> (r: Option<i64>)
    ensures
        match (r, year_in_parts(path_components(path@))) {
            (Some(a), Some(b)) => a as int == b,
            (None, None) => true,
            _ => false,
        },
{
    let parts = path_component_texts(path);
    let ghost ps = strs(parts@);
    assert(ps.skip(0) =~= ps);
    let mut i: usize = 0;
    while i < parts.len()
        invariant
            0 <= i <= parts.len(),
            ps == strs(parts@),
            ps == path_components(path@),
            year_in_parts(ps) == year_in_parts(ps.skip(i as int)),
        decreases parts.len() - i,
    {
        assert(ps.skip(i as int)[0] == parts@[i as int]@);
        assert(ps.skip(i as int).drop_first() =~= ps.skip(i + 1));
        if let Some(y) = first_four_digit_year(parts[i].as_str()) {
            return Some(y);
        }
        i += 1;
    }
    None
}

/// The year of a date `dd.mm.yyyy` as `chrono` reads it.
pub uninterp spec fn german_date_year(value: Seq<char>) -> Option<i64>;

/// `chrono::NaiveDate::parse_from_str` with `%d.%m.%Y`, then `Datelike::year`:
/// the year of a valid calendar date in that form. Which texts chrono reads
/// as such a date is named, not stated.
#[verifier::external_body]
pub(crate) fn parse_german_year(value: &str) -> (r: Option<i64>)
    ensures
        r == german_date_year(value@),
{
    match chrono::NaiveDate::parse_from_str(value, "%d.%m.%Y") {
        Ok(date) => Some(i64::from(chrono::Datelike::year(&date))),
        Err(_) => None,
    }
}

/// The year of an item: from its date, else from its event name, else from
/// the path of its PDF.
pub open spec fn item_year_of(
    event_date: Option<Seq<char>>,
    event_name: Seq<char>,
    local_path: Seq<char>,
) -> Option<int> {
    let from_date = match event_date {
        Some(d) => match german_date_year(d) {
            Some(y) => Some(y as int),
            None => None,
        },
        None => None,
    };
    match from_date {
        Some(y) => Some(y),
        None => match year_scan(event_name, Seq::empty()) {
            Some(y) => Some(y),
            None => year_in_parts(path_components(local_path)),
        },
    }
}

/// The competition year of a podium item.
pub fn item_year(event_date: &Option<String>, event_name: &str, local_path: &str) -> (r: Option<
    i64,
>)
    ensures
        match (
            r,
            item_year_of(
                match event_date {
                    Some(d) => Some(d@),
                    None => None,
                },
                event_name@,
                local_path@,
            ),
        ) {
            (Some(a), Some(b)) => a as int == b,
            (None, None) => true,
            _ => false,
        },
{
    if let Some(d) = event_date {
        if let Some(y) = parse_german_year(d.as_str()) {
            return Some(y);
        }
    }
    if let Some(y) = first_four_digit_year(event_name) {
        return Some(y);
    }
    year_from_path(local_path)
}

// ---------------------------------------------------------------------------
// Names of scopes, kinds and medals
// ---------------------------------------------------------------------------

/// `DM` for national, `KM` for district and `LM` for any other source.
pub open spec fn scope_of(source_name: Seq<char>) -> Seq<char> {
    if contains(source_name, "deutsche"@) {
        "DM"@
    } else if contains(source_name, "kreis"@) {
        "KM"@
    } else {
        "LM"@
    }
}

/// The competition scope of a source.
pub fn source_scope(source_name: &str) -> (r: &'static str)
    ensures
        r@ == scope_of(source_name@),
{
    let s = chars_of(source_name);
    if contains_str(&s, "deutsche") {
        "DM"
    } else if contains_str(&s, "kreis") {
        "KM"
    } else {
        "LM"
    }
}

pub open spec fn kind_name(kind: PodiumResultKind) -> Seq<char> {
    match kind {
        PodiumResultKind::Individual => "individual"@,
        PodiumResultKind::Team => "team"@,
    }
}

/// The stored name of a result kind.
pub fn result_kind(kind: &PodiumResultKind) -> (r: &'static str)
    ensures
        r@ == kind_name(*kind),
{
    match kind {
        PodiumResultKind::Individual => "individual",
        PodiumResultKind::Team => "team",
    }
}

pub open spec fn medal_of(rank: u32) -> Option<Seq<char>> {
    if rank == 1 {
        Some("gold"@)
    } else if rank == 2 {
        Some("silver"@)
    } else if rank == 3 {
        Some("bronze"@)
    } else {
        None
    }
}

/// The medal of the first three places.
pub fn medal_for_rank(rank: u32) -> (r: Option<&'static str>)
    ensures
        match (r, medal_of(rank)) {
            (Some(a), Some(b)) => a@ == b,
            (None, None) => true,
            _ => false,
        },
{
    match rank {
        1 => Some("gold"),
        2 => Some("silver"),
        3 => Some("bronze"),
        _ => None,
    }
}

// ---------------------------------------------------------------------------
// Fingerprints
// ---------------------------------------------------------------------------

/// The fingerprint of the row at `row_index` of an input.
pub open spec fn row_fingerprint(input_hash: Seq<char>, row_index: int) -> Seq<char> {
    input_hash + "|row|"@ + signed_decimal(row_index)
}

pub fn parsed_row_fingerprint(input_hash: &str, row_index: i64) -> (r: String)
    ensures
        r@ == row_fingerprint(input_hash@, row_index as int),
{
    let mut out = chars_of(input_hash);
    append_str(&mut out, "|row|");
    append_chars(&mut out, &signed_decimal_chars(row_index));
    string_of(&out)
}

/// The discipline of an item for fingerprints: its code, else its name,
/// else nothing.
pub open spec fn discipline_key(code: Option<Seq<char>>, name: Option<Seq<char>>) -> Seq<char> {
    match code {
        Some(c) => c,
        None => match name {
            Some(n) => n,
            None => Seq::empty(),
        },
    }
}

pub open spec fn opt_chars(o: Option<String>) -> Option<Seq<char>> {
    match o {
        Some(s) => Some(s@),
        None => None,
    }
}

/// What identifies a podium result across imports: source, year,
/// discipline, kind, rank and athlete, separated by `|`.
pub open spec fn result_fingerprint(
    source_name: Seq<char>,
    year: int,
    discipline: Seq<char>,
    kind: PodiumResultKind,
    rank: u32,
    athlete: Seq<char>,
) -> Seq<char> {
    join(
        seq![source_name, signed_decimal(year), discipline, kind_name(kind), decimal(rank as nat), athlete],
        "|"@,
    )
}

fn discipline_key_chars(code: &Option<String>, name: &Option<String>) -> (r: Vec<char>)
    ensures
        r@ == discipline_key(opt_chars(*code), opt_chars(*name)),
{
    match code {
        Some(c) => chars_of(c.as_str()),
        None => match name {
            Some(n) => chars_of(n.as_str()),
            None => Vec::new(),
        },
    }
}

fn join_bar(parts: &Vec<Vec<char>>) -> (r: Vec<char>)
    ensures
        r@ == join(crate::text::views(parts@), "|"@),
{
    let sep = chars_of("|");
    crate::text::join_chars(parts, &sep)
}

/// The fingerprint of a podium result that does not depend on the input.
pub fn canonical_result_fingerprint(
    source_name: &str,
    discipline_code: &Option<String>,
    discipline: &Option<String>,
    kind: &PodiumResultKind,
    rank: u32,
    year: i64,
    canonical_athlete: &str,
) -> (r: String)
    ensures
        r@ == result_fingerprint(
            source_name@,
            year as int,
            discipline_key(opt_chars(*discipline_code), opt_chars(*discipline)),
            *kind,
            rank,
            canonical_athlete@,
        ),
{
    let mut parts: Vec<Vec<char>> = Vec::new();
    parts.push(chars_of(source_name));
    parts.push(signed_decimal_chars(year));
    parts.push(discipline_key_chars(discipline_code, discipline));
    parts.push(chars_of(result_kind(kind)));
    parts.push(crate::text::decimal_chars(rank as u64));
    parts.push(chars_of(canonical_athlete));
    assert(crate::text::views(parts@) =~= seq![
        source_name@,
        signed_decimal(year as int),
        discipline_key(opt_chars(*discipline_code), opt_chars(*discipline)),
        kind_name(*kind),
        decimal(rank as nat),
        canonical_athlete@,
    ]);
    string_of(&join_bar(&parts))
}

/// The fingerprint of a podium result within one input: the input hash, a
/// bar and the canonical fingerprint.
pub fn source_result_fingerprint(
    source_name: &str,
    discipline_code: &Option<String>,
    discipline: &Option<String>,
    kind: &PodiumResultKind,
    rank: u32,
    input_hash: &str,
    year: i64,
    canonical_athlete: &str,
) -> (r: String)
    ensures
        r@ == input_hash@ + "|"@ + result_fingerprint(
            source_name@,
            year as int,
            discipline_key(opt_chars(*discipline_code), opt_chars(*discipline)),
            *kind,
            rank,
            canonical_athlete@,
        ),
{
    let canonical = canonical_result_fingerprint(
        source_name,
        discipline_code,
        discipline,
        kind,
        rank,
        year,
        canonical_athlete,
    );
    let mut out = chars_of(input_hash);
    append_str(&mut out, "|");
    append_chars(&mut out, &chars_of(canonical.as_str()));
    string_of(&out)
}

/// The fingerprint of a team within one input.
pub fn team_source_fingerprint(input_hash: &str, canonical_fingerprint: &str) -> (r: String)
    ensures
        r@ == input_hash@ + "|"@ + canonical_fingerprint@,
{
    let mut out = chars_of(input_hash);
    append_str(&mut out, "|");
    append_chars(&mut out, &chars_of(canonical_fingerprint));
    string_of(&out)
}

/// What identifies a team result across imports.
pub open spec fn team_fingerprint(
    source_name: Seq<char>,
    year: int,
    discipline: Seq<char>,
    rank: u32,
    team_name: Seq<char>,
    team_number: Seq<char>,
    class_name: Seq<char>,
) -> Seq<char> {
    join(
        seq![source_name, signed_decimal(year), discipline, "team"@, decimal(rank as nat), team_name, team_number, class_name],
        "|"@,
    )
}

pub fn team_canonical_fingerprint(
    source_name: &str,
    discipline_code: &Option<String>,
    discipline: &Option<String>,
    class_name: &Option<String>,
    rank: u32,
    year: i64,
    canonical_team_name: &str,
    team_number: &Option<String>,
) -> (r: String)
    ensures
        r@ == team_fingerprint(
            source_name@,
            year as int,
            discipline_key(opt_chars(*discipline_code), opt_chars(*discipline)),
            rank,
            canonical_team_name@,
            discipline_key(opt_chars(*team_number), None),
            discipline_key(opt_chars(*class_name), None),
        ),
{
    let none: Option<String> = None;
    let mut parts: Vec<Vec<char>> = Vec::new();
    parts.push(chars_of(source_name));
    parts.push(signed_decimal_chars(year));
    parts.push(discipline_key_chars(discipline_code, discipline));
    parts.push(chars_of("team"));
    parts.push(crate::text::decimal_chars(rank as u64));
    parts.push(chars_of(canonical_team_name));
    parts.push(discipline_key_chars(team_number, &none));
    parts.push(discipline_key_chars(class_name, &none));
    assert(crate::text::views(parts@) =~= seq![
        source_name@,
        signed_decimal(year as int),
        discipline_key(opt_chars(*discipline_code), opt_chars(*discipline)),
        "team"@,
        decimal(rank as nat),
        canonical_team_name@,
        discipline_key(opt_chars(*team_number), None),
        discipline_key(opt_chars(*class_name), None),
    ]);
    string_of(&join_bar(&parts))
}

// ---------------------------------------------------------------------------
// Teams and clubs
// ---------------------------------------------------------------------------

/// A team is named by its club and, where it has one, its number.
pub fn canonical_team_name(canonical_club: &str, team_number: &Option<String>) -> (r: String)
    ensures
        r@ == match team_number {
            Some(n) => canonical_club@ + " "@ + n@,
            None => canonical_club@,
        },
{
    match team_number {
        None => String::from_str(canonical_club),
        Some(n) => {
            let mut out = chars_of(canonical_club);
            append_str(&mut out, " ");
            append_chars(&mut out, &chars_of(n.as_str()));
            string_of(&out)
        },
    }
}

/// Each character in ASCII upper case.
pub open spec fn ascii_uppercase(s: Seq<char>) -> Seq<char> {
    s.map_values(|c: char| ascii_upper(c))
}

/// A team number: digits or a roman numeral up to ten, in any ASCII case
/// and between dots.
pub open spec fn team_number_suffix(value: Seq<char>) -> bool {
    let upper = ascii_uppercase(trim_dots(value));
    (upper.len() > 0 && all_digits(upper)) || is_roman_numeral(upper)
}

pub fn is_team_number_suffix(value: &Vec<char>) -> (r: bool)
    ensures
        r == team_number_suffix(value@),
{
    let trimmed = trim_dots_chars(value);
    let mut upper: Vec<char> = Vec::new();
    let mut i: usize = 0;
    while i < trimmed.len()
        invariant
            0 <= i <= trimmed.len(),
            upper@ == ascii_uppercase(trimmed@.take(i as int)),
        decreases trimmed.len() - i,
    {
        upper.push(ascii_upper_char(trimmed[i]));
        assert(ascii_uppercase(trimmed@.take(i + 1)) =~= ascii_uppercase(trimmed@.take(i as int)).push(
            ascii_upper(trimmed@[i as int]),
        ));
        i += 1;
    }
    assert(trimmed@.take(i as int) =~= trimmed@);
    (upper.len() > 0 && crate::text::all_digits_vec(&upper)) || is_roman_numeral_chars(&upper)
}

/// The team number at the end of a raw club name (`... I`, `... 1`).
pub open spec fn team_number_of(raw_club: Seq<char>) -> Option<Seq<char>> {
    let ws = words(raw_club);
    if ws.len() == 0 {
        None
    } else {
        let suffix = trim(ws.last());
        if team_number_suffix(suffix) {
            Some(suffix)
        } else {
            None
        }
    }
}

pub fn team_number_from_raw_club(raw_club: &str) -> (r: Option<String>)
    ensures
        match (r, team_number_of(raw_club@)) {
            (Some(a), Some(b)) => a@ == b,
            (None, None) => true,
            _ => false,
        },
{
    let ws = split_words(&chars_of(raw_club));
    if ws.len() == 0 {
        return None;
    }
    assert(crate::text::views(ws@).last() == ws@[ws.len() - 1]@);
    let suffix = trim_chars(&ws[ws.len() - 1]);
    if is_team_number_suffix(&suffix) {
        Some(string_of(&suffix))
    } else {
        None
    }
}

/// Whether a stored result conflicts with a new one: there is one, and
/// neither its source fingerprint nor its raw payload is the new one's.
pub open spec fn conflicts(
    existing: Option<(Option<Seq<char>>, Option<Seq<char>>)>,
    source_fingerprint: Seq<char>,
    raw_payload: Seq<char>,
) -> bool {
    match existing {
        None => false,
        Some((f, p)) => !(f == Some(source_fingerprint) || p == Some(raw_payload)),
    }
}

/// Importing the same row again is no conflict: a stored result that came
/// from a row with the same source fingerprint, or with the same raw
/// payload, is that row's own; without a stored result there is no
/// conflict either.
pub proof fn lemma_reimport_is_no_conflict(
    stored_payload: Option<Seq<char>>,
    stored_fingerprint: Option<Seq<char>>,
    source_fingerprint: Seq<char>,
    raw_payload: Seq<char>,
)
    ensures
        !conflicts(Some((Some(source_fingerprint), stored_payload)), source_fingerprint, raw_payload),
        !conflicts(Some((stored_fingerprint, Some(raw_payload))), source_fingerprint, raw_payload),
        !conflicts(None, source_fingerprint, raw_payload),
{
}

fn opt_eq(a: &Option<String>, b: &str) -> (r: bool)
    ensures
        r == (opt_chars(*a) == Some(b@)),
{
    match a {
        Some(x) => crate::text::eq_chars(&chars_of(x.as_str()), &chars_of(b)),
        None => false,
    }
}

/// `conflict` where a stored result of the same canonical fingerprint came
/// from another row, else `none`. `existing` holds the stored result's
/// source fingerprint and raw payload.
pub fn conflict_status(
    existing: &Option<(Option<String>, Option<String>)>,
    source_fingerprint: &str,
    raw_payload: &str,
) -> (r: &'static str)
    ensures
        r@ == if conflicts(
            match existing {
                Some((f, p)) => Some((opt_chars(*f), opt_chars(*p))),
                None => None,
            },
            source_fingerprint@,
            raw_payload@,
        ) {
            "conflict"@
        } else {
            "none"@
        },
{
    match existing {
        None => "none",
        Some((f, p)) => if opt_eq(f, source_fingerprint) || opt_eq(p, raw_payload) {
            "none"
        } else {
            "conflict"
        },
    }
}

/// What an import has stored and skipped so far: parser rows and results,
/// each new or already there, and the rows in conflict with a stored
/// result.
#[derive(Debug, Clone, Copy)]
pub struct ImportedItems {
    pub imported_parser_rows: usize,
    pub skipped_duplicate_parser_rows: usize,
    pub imported_results: usize,
    pub skipped_duplicate_results: usize,
    pub conflict_count: usize,
}

/// One more when `b` holds.
pub open spec fn plus_if(n: usize, b: bool) -> int {
    if b {
        n + 1
    } else {
        n as int
    }
}

impl ImportedItems {
    /// The rows read so far.
    pub open spec fn rows(self) -> int {
        self.imported_parser_rows + self.skipped_duplicate_parser_rows
    }

    /// Each row read has its result counted once, new or skipped, and the
    /// conflicts are among the rows.
    pub open spec fn wf(self) -> bool {
        &&& self.rows() <= usize::MAX
        &&& self.imported_results + self.skipped_duplicate_results == self.rows()
        &&& self.conflict_count <= self.rows()
    }

    /// Nothing read yet.
    pub fn new() -> (r: ImportedItems)
        ensures
            r.wf(),
            r.imported_parser_rows == 0,
            r.skipped_duplicate_parser_rows == 0,
            r.imported_results == 0,
            r.skipped_duplicate_results == 0,
            r.conflict_count == 0,
    {
        ImportedItems {
            imported_parser_rows: 0,
            skipped_duplicate_parser_rows: 0,
            imported_results: 0,
            skipped_duplicate_results: 0,
            conflict_count: 0,
        }
    }

    /// The number of rows read so far.
    pub fn rows_read(&self) -> (r: usize)
        requires
            self.wf(),
        ensures
            r == self.rows(),
    {
        self.imported_parser_rows + self.skipped_duplicate_parser_rows
    }

    /// Counts a podium item: a conflict where its status says so, its
    /// parser row and its result each as new or as skipped.
    pub fn record_podium_item(&mut self, status: &str, row_inserted: bool, result_inserted: bool)
        requires
            old(self).wf(),
            old(self).rows() < usize::MAX,
        ensures
            final(self).wf(),
            final(self).rows() == old(self).rows() + 1,
            final(self).conflict_count == plus_if(old(self).conflict_count, status@ == "conflict"@),
            final(self).imported_parser_rows == plus_if(old(self).imported_parser_rows, row_inserted),
            final(self).skipped_duplicate_parser_rows == plus_if(
                old(self).skipped_duplicate_parser_rows,
                !row_inserted,
            ),
            final(self).imported_results == plus_if(old(self).imported_results, result_inserted),
            final(self).skipped_duplicate_results == plus_if(
                old(self).skipped_duplicate_results,
                !result_inserted,
            ),
    {
        if crate::text::eq_str(&chars_of(status), "conflict") {
            self.conflict_count = self.conflict_count + 1;
        }
        self.count_stored(row_inserted, result_inserted);
    }

    /// Counts a participation row: its parser row and its result each as new
    /// or as skipped (participation rows are never in conflict).
    pub fn record_participation_row(&mut self, row_inserted: bool, result_inserted: bool)
        requires
            old(self).wf(),
            old(self).rows() < usize::MAX,
        ensures
            final(self).wf(),
            final(self).rows() == old(self).rows() + 1,
            final(self).conflict_count == old(self).conflict_count,
            final(self).imported_parser_rows == plus_if(old(self).imported_parser_rows, row_inserted),
            final(self).skipped_duplicate_parser_rows == plus_if(
                old(self).skipped_duplicate_parser_rows,
                !row_inserted,
            ),
            final(self).imported_results == plus_if(old(self).imported_results, result_inserted),
            final(self).skipped_duplicate_results == plus_if(
                old(self).skipped_duplicate_results,
                !result_inserted,
            ),
    {
        self.count_stored(row_inserted, result_inserted);
    }

    /// The parser row and the result of one more row, each as new or as
    /// skipped.
    fn count_stored(&mut self, row_inserted: bool, result_inserted: bool)
        requires
            old(self).rows() < usize::MAX,
            old(self).imported_results + old(self).skipped_duplicate_results == old(self).rows(),
            old(self).conflict_count <= old(self).rows() + 1,
        ensures
            final(self).wf(),
            final(self).rows() == old(self).rows() + 1,
            final(self).conflict_count == old(self).conflict_count,
            final(self).imported_parser_rows == plus_if(old(self).imported_parser_rows, row_inserted),
            final(self).skipped_duplicate_parser_rows == plus_if(
                old(self).skipped_duplicate_parser_rows,
                !row_inserted,
            ),
            final(self).imported_results == plus_if(old(self).imported_results, result_inserted),
            final(self).skipped_duplicate_results == plus_if(
                old(self).skipped_duplicate_results,
                !result_inserted,
            ),
    {
        if row_inserted {
            self.imported_parser_rows = self.imported_parser_rows + 1;
        } else {
            self.skipped_duplicate_parser_rows = self.skipped_duplicate_parser_rows + 1;
        }
        if result_inserted {
            self.imported_results = self.imported_results + 1;
        } else {
            self.skipped_duplicate_results = self.skipped_duplicate_results + 1;
        }
    }
}

/// The canonical club of an item, or its raw club where none is set.
pub fn item_canonical_club(club: &str, canonical_club: &str) -> (r: String)
    ensures
        r@ == if trim(canonical_club@).len() == 0 {
            club@
        } else {
            canonical_club@
        },
{
    if trim_chars(&chars_of(canonical_club)).len() == 0 {
        String::from_str(club)
    } else {
        String::from_str(canonical_club)
    }
}

// ---------------------------------------------------------------------------
// Manual corrections
// ---------------------------------------------------------------------------

/// The value of the last entry with the given key: a map built from the
/// entries in order keeps the last value of a key.
pub open spec fn last_value(entries: Seq<(Seq<char>, Seq<char>)>, key: Seq<char>) -> Option<Seq<char>>
    decreases entries.len(),
{
    if entries.len() == 0 {
        None
    } else if entries.last().0 == key {
        Some(entries.last().1)
    } else {
        last_value(entries.drop_last(), key)
    }
}

/// The manual corrections that an import applies: club names (manual
/// overrides, then club aliases, the later entry of a name winning) and
/// athlete names.
#[derive(Debug, Clone)]
pub struct ManualOverrideSet {
    pub clubs: Vec<(String, String)>,
    pub athletes: Vec<(String, String)>,
}

fn last_value_of(entries: &Vec<(String, String)>, key: &str) -> (r: Option<String>)
    ensures
        match (r, last_value(pair_views(entries@), key@)) {
            (Some(a), Some(b)) => a@ == b,
            (None, None) => true,
            _ => false,
        },
{
    let ghost ev = pair_views(entries@);
    let k = chars_of(key);
    let mut i: usize = entries.len();
    assert(ev.take(i as int) =~= ev);
    while i > 0
        invariant
            0 <= i <= entries.len(),
            ev == pair_views(entries@),
            k@ == key@,
            last_value(ev, key@) == last_value(ev.take(i as int), key@),
        decreases i,
    {
        assert(ev.take(i as int).last() == (entries@[i - 1].0@, entries@[i - 1].1@));
        assert(ev.take(i as int).drop_last() =~= ev.take(i - 1));
        if crate::text::eq_chars(&chars_of(entries[i - 1].0.as_str()), &k) {
            return Some(entries[i - 1].1.clone());
        }
        i -= 1;
    }
    None
}

impl ManualOverrideSet {
    /// The set made of club overrides, club aliases and athlete overrides,
    /// each as (from, to).
    pub fn from_entries(
        club_overrides: Vec<(String, String)>,
        club_aliases: Vec<(String, String)>,
        athlete_overrides: Vec<(String, String)>,
    ) -> (r: ManualOverrideSet)
        ensures
            pair_views(r.clubs@) == pair_views(club_overrides@) + pair_views(club_aliases@),
            pair_views(r.athletes@) == pair_views(athlete_overrides@),
    {
        let mut clubs = club_overrides;
        let mut aliases = club_aliases;
        let ghost a = pair_views(clubs@);
        let ghost b = pair_views(aliases@);
        clubs.append(&mut aliases);
        assert(pair_views(clubs@) =~= a + b);
        ManualOverrideSet { clubs, athletes: athlete_overrides }
    }

    /// The corrected club: the correction of the parser's club, else of the
    /// raw club, else the parser's club.
    pub fn club_name(&self, raw_club: &str, parser_club: &str) -> (r: String)
        ensures
            r@ == match last_value(pair_views(self.clubs@), parser_club@) {
                Some(v) => v,
                None => match last_value(pair_views(self.clubs@), raw_club@) {
                    Some(v) => v,
                    None => parser_club@,
                },
            },
    {
        match last_value_of(&self.clubs, parser_club) {
            Some(v) => v,
            None => match last_value_of(&self.clubs, raw_club) {
                Some(v) => v,
                None => String::from_str(parser_club),
            },
        }
    }

    /// The corrected athlete name, or the raw name.
    pub fn athlete_name(&self, raw_athlete: &str) -> (r: String)
        ensures
            r@ == match last_value(pair_views(self.athletes@), raw_athlete@) {
                Some(v) => v,
                None => raw_athlete@,
            },
    {
        match last_value_of(&self.athletes, raw_athlete) {
            Some(v) => v,
            None => String::from_str(raw_athlete),
        }
    }
}

// ---------------------------------------------------------------------------
// Input hashes
// ---------------------------------------------------------------------------

/// The SHA-256 digest of some bytes.
pub uninterp spec fn sha256_bytes(data: Seq<u8>) -> Seq<u8>;

/// `sha2::Sha256::digest`: the 32 bytes of the SHA-256 digest.
#[verifier::external_body]
fn sha256_digest(data: &[u8]) -> (r: Vec<u8>)
    ensures
        r@ == sha256_bytes(data@),
        r@.len() == 32,
{
    <sha2::Sha256 as sha2::Digest>::digest(data).to_vec()
}

/// A lowercase hexadecimal digit.
pub open spec fn hex_digit(n: int) -> char {
    if n < 10 {
        (48 + n) as char
    } else {
        (87 + n) as char
    }
}

/// Each byte as two lowercase hexadecimal digits, high digit first.
pub open spec fn hex_of(bytes: Seq<u8>) -> Seq<char>
    decreases bytes.len(),
{
    if bytes.len() == 0 {
        Seq::empty()
    } else {
        hex_of(bytes.drop_last()) + seq![
            hex_digit(bytes.last() as int / 16),
            hex_digit(bytes.last() as int % 16),
        ]
    }
}

/// `hex::encode`: each byte as two lowercase hexadecimal digits, in order.
#[verifier::external_body]
fn hex_encode(data: &[u8]) -> (r: String)
    ensures
        r@ == hex_of(data@),
{
    hex::encode(data)
}

/// The lowercase hexadecimal SHA-256 of an input file's bytes.
pub fn sha256_hex(bytes: &[u8]) -> (r: String)
    ensures
        r@ == hex_of(sha256_bytes(bytes@)),
        r@.len() == 64,
{
    let digest = sha256_digest(bytes);
    let r = hex_encode(digest.as_slice());
    proof {
        lemma_hex_len(sha256_bytes(bytes@));
    }
    r
}

pub proof fn lemma_hex_len(bytes: Seq<u8>)
    ensures
        hex_of(bytes).len() == 2 * bytes.len(),
    decreases bytes.len(),
{
    if bytes.len() > 0 {
        lemma_hex_len(bytes.drop_last());
    }
}

/// A lowercase hexadecimal digit as `hex` writes it.
pub open spec fn is_lower_hex(c: char) -> bool {
    ('0' <= c && c <= '9') || ('a' <= c && c <= 'f')
}

proof fn lemma_hex_digit(n: int, m: int)
    requires
        0 <= n < 16,
        0 <= m < 16,
    ensures
        is_lower_hex(hex_digit(n)),
        hex_digit(n) == hex_digit(m) ==> n == m,
{
}

/// The hexadecimal form of bytes is made of lowercase hexadecimal digits,
/// two per byte, and tells the bytes apart: equal forms come from equal
/// bytes, so inputs with different hashes had different bytes.
pub proof fn lemma_hex_is_faithful(a: Seq<u8>, b: Seq<u8>)
    ensures
        hex_of(a).len() == 2 * a.len(),
        forall|i: int| 0 <= i < hex_of(a).len() ==> is_lower_hex(#[trigger] hex_of(a)[i]),
        hex_of(a) == hex_of(b) ==> a == b,
    decreases a.len(),
{
    lemma_hex_len(a);
    lemma_hex_len(b);
    if a.len() > 0 {
        let x = a.last() as int;
        lemma_hex_is_faithful(a.drop_last(), if b.len() > 0 {
            b.drop_last()
        } else {
            b
        });
        lemma_hex_digit(x / 16, 0);
        lemma_hex_digit(x % 16, 0);
        let prev = hex_of(a.drop_last());
        assert forall|i: int| 0 <= i < hex_of(a).len() implies is_lower_hex(#[trigger] hex_of(a)[i]) by {
            if i < prev.len() {
                assert(hex_of(a)[i] == prev[i]);
            }
        }
        if hex_of(a) == hex_of(b) {
            assert(b.len() == a.len());
            let y = b.last() as int;
            let pb = hex_of(b.drop_last());
            assert(hex_of(a)[prev.len() as int] == hex_digit(x / 16));
            assert(hex_of(b)[pb.len() as int] == hex_digit(y / 16));
            assert(hex_of(a)[prev.len() as int + 1] == hex_digit(x % 16));
            assert(hex_of(b)[pb.len() as int + 1] == hex_digit(y % 16));
            lemma_hex_digit(x / 16, y / 16);
            lemma_hex_digit(x % 16, y % 16);
            assert(x == y);
            assert(prev =~= hex_of(a).take(prev.len() as int));
            assert(pb =~= hex_of(b).take(pb.len() as int));
            assert(a =~= a.drop_last().push(a.last()));
            assert(b =~= b.drop_last().push(b.last()));
        }
    } else if hex_of(a) == hex_of(b) {
        assert(b.len() == 0);
        assert(a =~= b);
    }
}

} // verus!
