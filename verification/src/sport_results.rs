//! DAVID21+ result lists: the data model and the parser that reads the text
//! of a result list into teams, team members and individual results.
//!
//! Scores are counted in tenths of a ring: `405,3` is `4053`, `1595` is
//! `15950`.
use vstd::prelude::*;

use crate::export::matching::{is_roman_numeral, is_roman_numeral_chars};
use crate::text::{all_decimal_digits, all_decimal_digits_vec, char_is_decimal_digit, is_decimal_digit_char, all_digits, all_digits_vec, chars_of, collapse_chars, collapse_ws, copy_chars, digit_value, digits_value, eq_str, is_ascii_upper, is_digit, is_digit_char, is_ws, is_ws_char, join, join_chars, lead_len, lemma_digits_value_nonneg, lemma_lead_len, lines, parse_unsigned, parse_unsigned_chars, raw, raw_at, rsplit_once, rsplit_once_char, slice_chars, sp_int, spans, spans_wf, split_lines, split_once, split_once_str, split_words, starts_with, starts_with_str, string_of, tok, tok_at, trim, trim_chars, views, word_spans, words};



verus! {

broadcast use vstd::string::group_string_axioms;

// ---------------------------------------------------------------------------
// Data
// ---------------------------------------------------------------------------

/// The event a result list belongs to.
#[derive(Debug, Clone)]
pub struct EventInfo {
    pub name: String,
    pub date: Option<String>,
    pub location: Option<String>,
    pub system: Option<String>,
    pub discipline_code: Option<String>,
    pub discipline: Option<String>,
    pub class_name: Option<String>,
}

/// The placing of an individual result.
#[derive(Debug, Clone, Copy, PartialEq, Eq, Structural)]
pub enum Rank {
    Place(u32),
    NotStarted,
    OutOfCompetition,
}

/// A member row below a team result.
#[derive(Debug, Clone)]
pub struct TeamMemberResult {
    pub start_number: u32,
    pub name: String,
    pub total_tenths: u64,
}

/// A team result row with its members.
#[derive(Debug, Clone)]
pub struct TeamResult {
    pub event: EventInfo,
    pub rank: Option<u32>,
    pub association: String,
    pub club: String,
    pub total_tenths: u64,
    pub members: Vec<TeamMemberResult>,
}

/// An individual result row.
#[derive(Debug, Clone)]
pub struct IndividualResult {
    pub event: EventInfo,
    pub rank: Rank,
    pub start_number: u32,
    pub name: String,
    pub association: String,
    pub club: String,
    pub series_tenths: Vec<u64>,
    pub total_tenths: u64,
}

/// Everything read from one result list.
#[derive(Debug, Clone)]
pub struct SportResultList {
    pub event: EventInfo,
    pub team_results: Vec<TeamResult>,
    pub individual_results: Vec<IndividualResult>,
    pub out_of_competition_team_results: Vec<TeamResult>,
    pub out_of_competition_individual_results: Vec<IndividualResult>,
}

/// The value of an `EventInfo`.
pub ghost struct EventSpec {
    pub name: Seq<char>,
    pub date: Option<Seq<char>>,
    pub location: Option<Seq<char>>,
    pub system: Option<Seq<char>>,
    pub discipline_code: Option<Seq<char>>,
    pub discipline: Option<Seq<char>>,
    pub class_name: Option<Seq<char>>,
}

pub ghost struct MemberSpec {
    pub start_number: u32,
    pub name: Seq<char>,
    pub total_tenths: u64,
}

pub ghost struct TeamSpec {
    pub event: EventSpec,
    pub rank: Option<u32>,
    pub association: Seq<char>,
    pub club: Seq<char>,
    pub total_tenths: u64,
    pub members: Seq<MemberSpec>,
}

pub ghost struct IndividualSpec {
    pub event: EventSpec,
    pub rank: Rank,
    pub start_number: u32,
    pub name: Seq<char>,
    pub association: Seq<char>,
    pub club: Seq<char>,
    pub series_tenths: Seq<u64>,
    pub total_tenths: u64,
}

pub ghost struct ResultListSpec {
    pub event: EventSpec,
    pub team_results: Seq<TeamSpec>,
    pub individual_results: Seq<IndividualSpec>,
    pub out_of_competition_team_results: Seq<TeamSpec>,
    pub out_of_competition_individual_results: Seq<IndividualSpec>,
}

pub open spec fn opt_view(o: Option<String>) -> Option<Seq<char>> {
    match o {
        Some(s) => Some(s@),
        None => None,
    }
}

impl View for EventInfo {
    type V = EventSpec;

    open spec fn view(&self) -> EventSpec {
        EventSpec {
            name: self.name@,
            date: opt_view(self.date),
            location: opt_view(self.location),
            system: opt_view(self.system),
            discipline_code: opt_view(self.discipline_code),
            discipline: opt_view(self.discipline),
            class_name: opt_view(self.class_name),
        }
    }
}

impl View for TeamMemberResult {
    type V = MemberSpec;

    open spec fn view(&self) -> MemberSpec {
        MemberSpec {
            start_number: self.start_number,
            name: self.name@,
            total_tenths: self.total_tenths,
        }
    }
}

pub open spec fn member_views(m: Seq<TeamMemberResult>) -> Seq<MemberSpec> {
    m.map_values(|x: TeamMemberResult| x@)
}

impl View for TeamResult {
    type V = TeamSpec;

    open spec fn view(&self) -> TeamSpec {
        TeamSpec {
            event: self.event@,
            rank: self.rank,
            association: self.association@,
            club: self.club@,
            total_tenths: self.total_tenths,
            members: member_views(self.members@),
        }
    }
}

impl View for IndividualResult {
    type V = IndividualSpec;

    open spec fn view(&self) -> IndividualSpec {
        IndividualSpec {
            event: self.event@,
            rank: self.rank,
            start_number: self.start_number,
            name: self.name@,
            association: self.association@,
            club: self.club@,
            series_tenths: self.series_tenths@,
            total_tenths: self.total_tenths,
        }
    }
}

pub open spec fn team_views(t: Seq<TeamResult>) -> Seq<TeamSpec> {
    t.map_values(|x: TeamResult| x@)
}

pub open spec fn individual_views(t: Seq<IndividualResult>) -> Seq<IndividualSpec> {
    t.map_values(|x: IndividualResult| x@)
}

impl View for SportResultList {
    type V = ResultListSpec;

    open spec fn view(&self) -> ResultListSpec {
        ResultListSpec {
            event: self.event@,
            team_results: team_views(self.team_results@),
            individual_results: individual_views(self.individual_results@),
            out_of_competition_team_results: team_views(self.out_of_competition_team_results@),
            out_of_competition_individual_results: individual_views(
                self.out_of_competition_individual_results@,
            ),
        }
    }
}

pub fn copy_string(s: &String) -> (r: String)
    ensures
        r@ == s@,
{
    s.clone()
}

pub fn copy_opt_string(o: &Option<String>) -> (r: Option<String>)
    ensures
        opt_view(r) == opt_view(*o),
{
    match o {
        Some(s) => Some(s.clone()),
        None => None,
    }
}

impl EventInfo {
    /// A copy of the event.
    pub fn copy(&self) -> (r: EventInfo)
        ensures
            r@ == self@,
    {
        EventInfo {
            name: copy_string(&self.name),
            date: copy_opt_string(&self.date),
            location: copy_opt_string(&self.location),
            system: copy_opt_string(&self.system),
            discipline_code: copy_opt_string(&self.discipline_code),
            discipline: copy_opt_string(&self.discipline),
            class_name: copy_opt_string(&self.class_name),
        }
    }
}


// ---------------------------------------------------------------------------
// Words of a result line
// ---------------------------------------------------------------------------

/// A start number or rank column: one or more decimal digits (`\d+`, any
/// Unicode decimal digit).
pub open spec fn is_num(t: Seq<char>) -> bool {
    t.len() >= 1 && all_decimal_digits(t)
}

/// A score with a decimal comma and one decimal: `405,3`.
pub open spec fn is_comma_decimal(t: Seq<char>) -> bool {
    &&& t.len() >= 3
    &&& all_decimal_digits(t.take(t.len() - 2))
    &&& t[t.len() - 2] == ','
    &&& char_is_decimal_digit(t.last())
}

/// A score in ASCII digits, the only form that a number can be read from.
pub open spec fn is_ascii_decimal(t: Seq<char>) -> bool {
    ||| t.len() >= 1 && all_digits(t)
    ||| t.len() >= 3 && all_digits(t.take(t.len() - 2)) && t[t.len() - 2] == ',' && is_digit(t.last())
}

/// A score column: digits, optionally followed by a comma and one digit.
pub open spec fn is_decimal(t: Seq<char>) -> bool {
    is_num(t) || is_comma_decimal(t)
}

/// The value of a score column in tenths.
pub open spec fn tenths(t: Seq<char>) -> int {
    if all_digits(t) {
        digits_value(t) * 10
    } else {
        digits_value(t.take(t.len() - 2)) * 10 + digit_value(t.last())
    }
}

/// An association code column: two ASCII capitals or digits.
pub open spec fn is_assoc(t: Seq<char>) -> bool {
    &&& t.len() == 2
    &&& (is_ascii_upper(t[0]) || is_digit(t[0]))
    &&& (is_ascii_upper(t[1]) || is_digit(t[1]))
}

/// The number of score columns at the end of the first `k` words.
pub open spec fn trail_dec(s: Seq<char>, sp: Seq<(int, int)>, k: int) -> int
    decreases k,
{
    if k <= 0 {
        0
    } else if is_decimal(tok(s, sp, k - 1)) {
        1 + trail_dec(s, sp, k - 1)
    } else {
        0
    }
}

/// The first word in `from..=to` that is an association code, or -1.
pub open spec fn first_assoc(s: Seq<char>, sp: Seq<(int, int)>, from: int, to: int) -> int
    decreases to - from + 1,
{
    if from > to {
        -1
    } else if is_assoc(tok(s, sp, from)) {
        from
    } else {
        first_assoc(s, sp, from + 1, to)
    }
}

pub open spec fn max_int(a: int, b: int) -> int {
    if a >= b {
        a
    } else {
        b
    }
}

/// The columns of a team row: `[rank] association club total [Ringen]`.
pub ghost struct TeamLine {
    pub rank: Option<Seq<char>>,
    pub association: Seq<char>,
    pub club: Seq<char>,
    pub total: Seq<char>,
}

/// The word holding a team total: the last word, or the one before a final
/// `Ringen`; -1 where there is none.
pub open spec fn team_total_index(s: Seq<char>, sp: Seq<(int, int)>) -> int {
    let n = sp.len() as int;
    if n >= 1 && is_decimal(tok(s, sp, n - 1)) {
        n - 1
    } else if n >= 2 && tok(s, sp, n - 1) == "Ringen"@ && is_decimal(tok(s, sp, n - 2)) {
        n - 2
    } else {
        -1
    }
}

/// A team row; the rank column is read where the row has room for it.
pub open spec fn team_line(s: Seq<char>) -> Option<TeamLine> {
    let sp = spans(s);
    let m = team_total_index(s, sp);
    if m < 0 {
        None
    } else if m >= 3 && is_num(tok(s, sp, 0)) && is_assoc(tok(s, sp, 1)) {
        Some(
            TeamLine {
                rank: Some(tok(s, sp, 0)),
                association: tok(s, sp, 1),
                club: raw(s, sp, 2, m),
                total: tok(s, sp, m),
            },
        )
    } else if m >= 2 && is_assoc(tok(s, sp, 0)) {
        Some(
            TeamLine {
                rank: None,
                association: tok(s, sp, 0),
                club: raw(s, sp, 1, m),
                total: tok(s, sp, m),
            },
        )
    } else {
        None
    }
}

/// The columns of a team member row: `start_number name total`.
pub ghost struct MemberLine {
    pub start_number: Seq<char>,
    pub name: Seq<char>,
    pub total: Seq<char>,
}

pub open spec fn member_line(s: Seq<char>) -> Option<MemberLine> {
    let sp = spans(s);
    let n = sp.len() as int;
    if n >= 3 && is_num(tok(s, sp, 0)) && is_decimal(tok(s, sp, n - 1)) {
        Some(
            MemberLine {
                start_number: tok(s, sp, 0),
                name: raw(s, sp, 1, n - 1),
                total: tok(s, sp, n - 1),
            },
        )
    } else {
        None
    }
}

/// A team member row written as a start number, a space, the member's name
/// (one word or more, as it stands between the two) and, after a space, the
/// total: the row reads as exactly those three columns, the whole name kept.
pub proof fn lemma_member_row_columns(start: Seq<char>, name: Seq<char>, total: Seq<char>)
    requires
        is_num(start),
        is_decimal(total),
        forall|i: int| 0 <= i < start.len() ==> !is_ws(#[trigger] start[i]),
        forall|i: int| 0 <= i < total.len() ==> !is_ws(#[trigger] total[i]),
        name.len() > 0,
        !is_ws(name[0]),
        !is_ws(name.last()),
    ensures
        member_line(start + " "@ + name + " "@ + total) == Some(
            MemberLine { start_number: start, name, total },
        ),
{
    reveal_strlit(" ");
    assert(" "@ =~= seq![' ']);
    let s1 = start + seq![' '] + name;
    let s = s1 + seq![' '] + total;
    assert(start + " "@ + name + " "@ + total =~= s);
    assert(total.len() > 0);
    assert(!is_ws(start[start.len() - 1]));
    crate::text::lemma_spans_after_space(start, name);
    crate::text::lemma_spans_of_word(start);
    assert(s1.last() == name.last());
    crate::text::lemma_spans_after_space(s1, total);
    crate::text::lemma_spans_of_word(total);
    crate::text::lemma_spans_cover(name);
    let o1: int = start.len() as int + 1;
    let o2: int = s1.len() as int + 1;
    let sn = spans(name);
    let sp = spans(s);
    assert(sp == seq![(0int, start.len() as int)] + crate::text::shifted(sn, o1) + crate::text::shifted(
        seq![(0int, total.len() as int)],
        o2,
    ));
    let n = sp.len() as int;
    assert(n == sn.len() + 2);
    assert(sp[0] == (0int, start.len() as int));
    assert(sp[n - 1] == (o2, o2 + total.len()));
    assert(sp[1] == (sn[0].0 + o1, sn[0].1 + o1));
    assert(sp[n - 2] == (sn[sn.len() - 1].0 + o1, sn[sn.len() - 1].1 + o1));
    assert(tok(s, sp, 0) =~= start);
    assert(tok(s, sp, n - 1) =~= total);
    assert(raw(s, sp, 1, n - 1) =~= name);
}

/// The columns of an individual row:
/// `[rank] start_number name association club series... total`.
pub ghost struct IndividualLine {
    pub rank: Seq<char>,
    pub start_number: Seq<char>,
    pub name: Seq<char>,
    pub association: Seq<char>,
    pub club: Seq<char>,
    pub series: Seq<Seq<char>>,
    pub total: Seq<char>,
}

/// An individual row whose name starts at word `first_name` (2 for a ranked
/// row, 1 for a row without rank): the name ends before the first
/// association code that leaves room for a club and at least one series, the
/// club ends before the last run of score columns.
pub open spec fn scored_line(s: Seq<char>, first_name: int) -> Option<IndividualLine> {
    let sp = spans(s);
    let n = sp.len() as int;
    let d = trail_dec(s, sp, n);
    let k = first_assoc(s, sp, first_name + 1, n - 4);
    if d >= 2 && k >= 0 {
        let m = max_int(k + 2, n - d);
        Some(
            IndividualLine {
                rank: if first_name == 2 {
                    tok(s, sp, 0)
                } else {
                    Seq::empty()
                },
                start_number: tok(s, sp, first_name - 1),
                name: raw(s, sp, first_name, k),
                association: tok(s, sp, k),
                club: raw(s, sp, k + 1, m),
                series: Seq::new((n - 1 - m) as nat, |j: int| tok(s, sp, m + j)),
                total: tok(s, sp, n - 1),
            },
        )
    } else {
        None
    }
}

/// A ranked individual row.
pub open spec fn ranked_line(s: Seq<char>) -> Option<IndividualLine> {
    let sp = spans(s);
    if sp.len() >= 2 && is_num(tok(s, sp, 0)) && is_num(tok(s, sp, 1)) {
        scored_line(s, 2)
    } else {
        None
    }
}

/// An individual row without rank (out of competition).
pub open spec fn unranked_line(s: Seq<char>) -> Option<IndividualLine> {
    let sp = spans(s);
    if sp.len() >= 1 && is_num(tok(s, sp, 0)) {
        scored_line(s, 1)
    } else {
        None
    }
}

/// A not-started row: `na start_number name association club total`.
pub open spec fn not_started_line(s: Seq<char>) -> Option<IndividualLine> {
    let sp = spans(s);
    let n = sp.len() as int;
    let k = first_assoc(s, sp, 3, n - 3);
    if n >= 2 && tok(s, sp, 0) == "na"@ && is_num(tok(s, sp, 1)) && is_comma_decimal(
        tok(s, sp, n - 1),
    ) && k >= 0 {
        Some(
            IndividualLine {
                rank: tok(s, sp, 0),
                start_number: tok(s, sp, 1),
                name: raw(s, sp, 2, k),
                association: tok(s, sp, k),
                club: raw(s, sp, k + 1, n - 1),
                series: Seq::empty(),
                total: tok(s, sp, n - 1),
            },
        )
    } else {
        None
    }
}

// ---------------------------------------------------------------------------
// Reading the words of a line
// ---------------------------------------------------------------------------

/// The words of one line and their positions.
pub struct LineWords {
    pub chars: Vec<char>,
    pub spans: Vec<(usize, usize)>,
}

impl LineWords {
    pub open spec fn wf(&self) -> bool {
        sp_int(self.spans@) == spans(self.chars@) && spans_wf(self.chars@, spans(self.chars@))
    }

    pub fn new(line: &Vec<char>) -> (r: LineWords)
        ensures
            r.wf(),
            r.chars@ == line@,
    {
        let sp = word_spans(line);
        LineWords { chars: copy_chars(line), spans: sp }
    }

    pub fn len(&self) -> (n: usize)
        requires
            self.wf(),
        ensures
            n as int == spans(self.chars@).len(),
    {
        self.spans.len()
    }

    pub fn word(&self, k: usize) -> (r: Vec<char>)
        requires
            self.wf(),
            k < spans(self.chars@).len(),
        ensures
            r@ == tok(self.chars@, spans(self.chars@), k as int),
    {
        tok_at(&self.chars, &self.spans, k)
    }

    pub fn text(&self, a: usize, b: usize) -> (r: Vec<char>)
        requires
            self.wf(),
            a < b <= spans(self.chars@).len(),
        ensures
            r@ == raw(self.chars@, spans(self.chars@), a as int, b as int),
    {
        raw_at(&self.chars, &self.spans, a, b)
    }
}

pub fn is_num_chars(t: &Vec<char>) -> (r: bool)
    ensures
        r == is_num(t@),
{
    t.len() >= 1 && all_decimal_digits_vec(t)
}

pub fn is_comma_decimal_chars(t: &Vec<char>) -> (r: bool)
    ensures
        r == is_comma_decimal(t@),
{
    if t.len() < 3 {
        return false;
    }
    let head = slice_chars(t, 0, t.len() - 2);
    assert(head@ =~= t@.take(t.len() - 2));
    all_decimal_digits_vec(&head) && t[t.len() - 2] == ',' && is_decimal_digit_char(t[t.len() - 1])
}

pub fn is_decimal_chars(t: &Vec<char>) -> (r: bool)
    ensures
        r == is_decimal(t@),
{
    is_num_chars(t) || is_comma_decimal_chars(t)
}

pub fn is_assoc_chars(t: &Vec<char>) -> (r: bool)
    ensures
        r == is_assoc(t@),
{
    t.len() == 2 && (('A' <= t[0] && t[0] <= 'Z') || is_digit_char(t[0])) && (('A' <= t[1] && t[1]
        <= 'Z') || is_digit_char(t[1]))
}

proof fn lemma_num_unsigned(t: Seq<char>, max: int)
    requires
        t.len() >= 1,
        all_digits(t),
    ensures
        parse_unsigned(t, max) == if digits_value(t) <= max {
            Some(digits_value(t))
        } else {
            None::<int>
        },
{
    assert(is_digit(t[0]));
}

/// The value of a number column if it is in ASCII digits and fits in a
/// `u32` (`u32::from_str`).
pub fn num_value(t: &Vec<char>) -> (r: Option<u32>)
    requires
        is_num(t@),
    ensures
        r == u32_of(t@),
{
    if !all_digits_vec(t) {
        return None;
    }
    proof {
        lemma_num_unsigned(t@, u32::MAX as int);
    }
    match parse_unsigned_chars(t, 0xffff_ffffu64) {
        Some(v) => {
            assert(v <= 0xffff_ffffu64);
            Some(v as u32)
        },
        None => None,
    }
}

/// The value of a score column in tenths if it is in ASCII digits and fits
/// in a `u64`.
pub fn tenths_value(t: &Vec<char>) -> (r: Option<u64>)
    requires
        is_decimal(t@),
    ensures
        r == tenths_of(t@),
{
    let limit: u64 = 0xffff_ffff_ffff_ffffu64 / 10;
    if t.len() >= 1 && all_digits_vec(t) {
        proof {
            lemma_num_unsigned(t@, limit as int);
            lemma_digits_value_nonneg(t@);
        }
        match parse_unsigned_chars(t, limit) {
            Some(v) => Some(v * 10),
            None => None,
        }
    } else {
        if t.len() < 3 {
            return None;
        }
        let head = slice_chars(t, 0, t.len() - 2);
        assert(head@ =~= t@.take(t.len() - 2));
        if !(all_digits_vec(&head) && t[t.len() - 2] == ',' && is_digit_char(t[t.len() - 1])) {
            return None;
        }
        proof {
            lemma_num_unsigned(head@, limit as int);
            lemma_digits_value_nonneg(head@);
        }
        let d = t[t.len() - 1];
        let dv: u64 = (d as u32 - '0' as u32) as u64;
        match parse_unsigned_chars(&head, limit) {
            Some(v) => {
                let total: u128 = v as u128 * 10 + dv as u128;
                if total > 0xffff_ffff_ffff_ffffu128 {
                    None
                } else {
                    Some(total as u64)
                }
            },
            None => None,
        }
    }
}


impl LineWords {
    /// The number of score columns at the end of the line.
    pub fn trailing_scores(&self) -> (d: usize)
        requires
            self.wf(),
        ensures
            d as int == trail_dec(self.chars@, spans(self.chars@), spans(self.chars@).len() as int),
            d <= spans(self.chars@).len(),
    {
        let n = self.len();
        let ghost s = self.chars@;
        let ghost sp = spans(s);
        let mut k: usize = n;
        while k > 0 && is_decimal_chars(&self.word(k - 1))
            invariant
                self.wf(),
                s == self.chars@,
                sp == spans(s),
                n == sp.len(),
                0 <= k <= n,
                trail_dec(s, sp, n as int) == (n - k) + trail_dec(s, sp, k as int),
            decreases k,
        {
            k -= 1;
        }
        assert(trail_dec(s, sp, k as int) == 0);
        n - k
    }

    /// The first word in `from..end` that is an association code.
    pub fn first_assoc_in(&self, from: usize, end: usize) -> (r: Option<usize>)
        requires
            self.wf(),
            end <= spans(self.chars@).len(),
        ensures
            match r {
                Some(k) => first_assoc(self.chars@, spans(self.chars@), from as int, end - 1)
                    == k as int,
                None => first_assoc(self.chars@, spans(self.chars@), from as int, end - 1) == -1,
            },
    {
        let ghost s = self.chars@;
        let ghost sp = spans(s);
        let mut k: usize = from;
        while k < end
            invariant
                self.wf(),
                s == self.chars@,
                sp == spans(s),
                end <= sp.len(),
                from <= k,
                first_assoc(s, sp, from as int, end - 1) == first_assoc(s, sp, k as int, end - 1),
            decreases end - k,
        {
            if is_assoc_chars(&self.word(k)) {
                return Some(k);
            }
            k += 1;
        }
        None
    }
}

/// The columns of a team row.
pub struct TeamColumns {
    pub rank: Option<Vec<char>>,
    pub association: Vec<char>,
    pub club: Vec<char>,
    pub total: Vec<char>,
}

impl TeamColumns {
    pub open spec fn spec(&self) -> TeamLine {
        TeamLine {
            rank: match self.rank {
                Some(r) => Some(r@),
                None => None,
            },
            association: self.association@,
            club: self.club@,
            total: self.total@,
        }
    }
}

/// The columns of a team member row.
pub struct MemberColumns {
    pub start_number: Vec<char>,
    pub name: Vec<char>,
    pub total: Vec<char>,
}

impl MemberColumns {
    pub open spec fn spec(&self) -> MemberLine {
        MemberLine { start_number: self.start_number@, name: self.name@, total: self.total@ }
    }
}

/// The columns of an individual row.
pub struct IndividualColumns {
    pub rank: Vec<char>,
    pub start_number: Vec<char>,
    pub name: Vec<char>,
    pub association: Vec<char>,
    pub club: Vec<char>,
    pub series: Vec<Vec<char>>,
    pub total: Vec<char>,
}

impl IndividualColumns {
    pub open spec fn spec(&self) -> IndividualLine {
        IndividualLine {
            rank: self.rank@,
            start_number: self.start_number@,
            name: self.name@,
            association: self.association@,
            club: self.club@,
            series: views(self.series@),
            total: self.total@,
        }
    }
}

/// Reads a team row.
pub fn read_team_line(w: &LineWords) -> (r: Option<TeamColumns>)
    requires
        w.wf(),
    ensures
        match (r, team_line(w.chars@)) {
            (Some(c), Some(l)) => c.spec() == l,
            (None, None) => true,
            _ => false,
        },
{
    let ghost s = w.chars@;
    let ghost sp = spans(s);
    let n = w.len();
    let mut m: usize = n;
    if n >= 1 && is_decimal_chars(&w.word(n - 1)) {
        m = n - 1;
    } else if n >= 2 && eq_str(&w.word(n - 1), "Ringen") && is_decimal_chars(&w.word(n - 2)) {
        m = n - 2;
    }
    assert(team_total_index(s, sp) == if m == n {
        -1
    } else {
        m as int
    });
    if m == n {
        return None;
    }
    if m >= 3 && is_num_chars(&w.word(0)) && is_assoc_chars(&w.word(1)) {
        return Some(
            TeamColumns {
                rank: Some(w.word(0)),
                association: w.word(1),
                club: w.text(2, m),
                total: w.word(m),
            },
        );
    }
    if m >= 2 && is_assoc_chars(&w.word(0)) {
        return Some(
            TeamColumns { rank: None, association: w.word(0), club: w.text(1, m), total: w.word(m) },
        );
    }
    None
}

/// Reads a team member row.
pub fn read_member_line(w: &LineWords) -> (r: Option<MemberColumns>)
    requires
        w.wf(),
    ensures
        match (r, member_line(w.chars@)) {
            (Some(c), Some(l)) => c.spec() == l,
            (None, None) => true,
            _ => false,
        },
{
    let n = w.len();
    if n >= 3 && is_num_chars(&w.word(0)) && is_decimal_chars(&w.word(n - 1)) {
        Some(
            MemberColumns { start_number: w.word(0), name: w.text(1, n - 1), total: w.word(n - 1) },
        )
    } else {
        None
    }
}

/// Reads an individual row whose name starts at word `first_name`.
fn read_scored_line(w: &LineWords, first_name: usize) -> (r: Option<IndividualColumns>)
    requires
        w.wf(),
        first_name == 1 || first_name == 2,
        spans(w.chars@).len() >= first_name,
    ensures
        match (r, scored_line(w.chars@, first_name as int)) {
            (Some(c), Some(l)) => c.spec() == l,
            (None, None) => true,
            _ => false,
        },
{
    let ghost s = w.chars@;
    let ghost sp = spans(s);
    let n = w.len();
    let d = w.trailing_scores();
    if d < 2 {
        return None;
    }
    if n < 3 {
        assert(first_name + 1 > n - 4);
        assert(first_assoc(s, sp, first_name + 1, n - 4) == -1);
        return None;
    }
    let k = match w.first_assoc_in(first_name + 1, n - 3) {
        Some(k) => k,
        None => {
            return None;
        },
    };
    assert(first_assoc(s, sp, first_name + 1, n - 4) == k);
    proof {
        lemma_first_assoc_range(s, sp, first_name + 1, n - 4);
    }
    let m = if k + 2 >= n - d {
        k + 2
    } else {
        n - d
    };
    let mut series: Vec<Vec<char>> = Vec::new();
    let mut j: usize = m;
    while j < n - 1
        invariant
            w.wf(),
            s == w.chars@,
            sp == spans(s),
            n == sp.len(),
            m <= j <= n - 1,
            views(series@) =~= Seq::new((j - m) as nat, |i: int| tok(s, sp, m + i)),
        decreases n - 1 - j,
    {
        let t = w.word(j);
        let ghost old_series = views(series@);
        series.push(t);
        assert(views(series@) =~= old_series.push(t@));
        j += 1;
    }
    let rank = if first_name == 2 {
        w.word(0)
    } else {
        Vec::new()
    };
    Some(
        IndividualColumns {
            rank,
            start_number: w.word(first_name - 1),
            name: w.text(first_name, k),
            association: w.word(k),
            club: w.text(k + 1, m),
            series,
            total: w.word(n - 1),
        },
    )
}

proof fn lemma_first_assoc_range(s: Seq<char>, sp: Seq<(int, int)>, from: int, to: int)
    ensures
        first_assoc(s, sp, from, to) == -1 || (from <= first_assoc(s, sp, from, to) <= to
            && is_assoc(tok(s, sp, first_assoc(s, sp, from, to)))),
    decreases to - from + 1,
{
    if from <= to && !is_assoc(tok(s, sp, from)) {
        lemma_first_assoc_range(s, sp, from + 1, to);
    }
}

/// Reads a ranked individual row.
pub fn read_ranked_line(w: &LineWords) -> (r: Option<IndividualColumns>)
    requires
        w.wf(),
    ensures
        match (r, ranked_line(w.chars@)) {
            (Some(c), Some(l)) => c.spec() == l,
            (None, None) => true,
            _ => false,
        },
{
    if w.len() >= 2 && is_num_chars(&w.word(0)) && is_num_chars(&w.word(1)) {
        read_scored_line(w, 2)
    } else {
        None
    }
}

/// Reads an individual row without rank.
pub fn read_unranked_line(w: &LineWords) -> (r: Option<IndividualColumns>)
    requires
        w.wf(),
    ensures
        match (r, unranked_line(w.chars@)) {
            (Some(c), Some(l)) => c.spec() == l,
            (None, None) => true,
            _ => false,
        },
{
    if w.len() >= 1 && is_num_chars(&w.word(0)) {
        read_scored_line(w, 1)
    } else {
        None
    }
}

/// Reads a not-started row.
pub fn read_not_started_line(w: &LineWords) -> (r: Option<IndividualColumns>)
    requires
        w.wf(),
    ensures
        match (r, not_started_line(w.chars@)) {
            (Some(c), Some(l)) => c.spec() == l,
            (None, None) => true,
            _ => false,
        },
{
    let ghost s = w.chars@;
    let ghost sp = spans(s);
    let n = w.len();
    if n < 3 {
        assert(first_assoc(s, sp, 3, n - 3) == -1);
        return None;
    }
    if !(eq_str(&w.word(0), "na") && is_num_chars(&w.word(1)) && is_comma_decimal_chars(
        &w.word(n - 1),
    )) {
        return None;
    }
    let k = match w.first_assoc_in(3, n - 2) {
        Some(k) => k,
        None => {
            return None;
        },
    };
    proof {
        lemma_first_assoc_range(s, sp, 3, n - 3);
    }
    let empty: Vec<Vec<char>> = Vec::new();
    assert(views(empty@) =~= Seq::<Seq<char>>::empty());
    Some(
        IndividualColumns {
            rank: w.word(0),
            start_number: w.word(1),
            name: w.text(2, k),
            association: w.word(k),
            club: w.text(k + 1, n - 1),
            series: empty,
            total: w.word(n - 1),
        },
    )
}


// ---------------------------------------------------------------------------
// Lines, headers and club names
// ---------------------------------------------------------------------------

/// The trimmed lines of `ls` that are not empty.
pub open spec fn nonempty_trimmed(ls: Seq<Seq<char>>) -> Seq<Seq<char>>
    decreases ls.len(),
{
    if ls.len() == 0 {
        Seq::empty()
    } else {
        let prev = nonempty_trimmed(ls.drop_last());
        let t = trim(ls.last());
        if t.len() > 0 {
            prev.push(t)
        } else {
            prev
        }
    }
}

/// The trimmed, non-empty lines of a text.
pub open spec fn normalized_lines_of(text: Seq<char>) -> Seq<Seq<char>> {
    nonempty_trimmed(lines(text))
}

/// The trimmed, non-empty lines of a text.
pub fn normalized_lines(text: &Vec<char>) -> (r: Vec<Vec<char>>)
    ensures
        views(r@) == normalized_lines_of(text@),
{
    let ls = split_lines(text);
    let mut r: Vec<Vec<char>> = Vec::new();
    let mut i: usize = 0;
    while i < ls.len()
        invariant
            0 <= i <= ls.len(),
            views(r@) == nonempty_trimmed(views(ls@).take(i as int)),
        decreases ls.len() - i,
    {
        let ghost lv = views(ls@);
        assert(lv.take(i + 1).drop_last() =~= lv.take(i as int));
        assert(lv.take(i + 1).last() == ls@[i as int]@);
        let t = trim_chars(&ls[i]);
        if t.len() > 0 {
            let ghost old_r = views(r@);
            r.push(t);
            assert(views(r@) =~= old_r.push(t@));
        }
        i += 1;
    }
    assert(views(ls@).take(ls.len() as int) =~= views(ls@));
    r
}

/// Words that start the class part of a discipline header.
pub open spec fn is_class_start(t: Seq<char>) -> bool {
    ||| t == "Herren"@
    ||| t == "Damen"@
    ||| t == "Schüler"@
    ||| t == "Jugend"@
    ||| t == "Junioren"@
    ||| t == "Senioren"@
    ||| t == "Parasportler"@
}

pub fn is_class_start_token(t: &Vec<char>) -> (r: bool)
    ensures
        r == is_class_start(t@),
{
    eq_str(t, "Herren") || eq_str(t, "Damen") || eq_str(t, "Schüler") || eq_str(t, "Jugend")
        || eq_str(t, "Junioren") || eq_str(t, "Senioren") || eq_str(t, "Parasportler")
}

/// The index of the first class word at or after `k`, or -1.
pub open spec fn first_class(ws: Seq<Seq<char>>, k: int) -> int
    decreases ws.len() - k,
{
    if k >= ws.len() || k < 0 {
        -1
    } else if is_class_start(ws[k]) {
        k
    } else {
        first_class(ws, k + 1)
    }
}

/// The discipline and the class of a page header such as
/// `Luftgewehr Herren I Seite: 1`: the class starts at the first class word,
/// or with the last two words before `Seite:`.
pub open spec fn discipline_class(line: Seq<char>) -> Option<(Seq<char>, Seq<char>)> {
    match split_once(line, " Seite: "@) {
        None => None,
        Some((left, _)) => {
            let ws = words(left);
            if ws.len() < 2 {
                None
            } else {
                let f = first_class(ws, 0);
                let cs = if f >= 0 {
                    f
                } else {
                    ws.len() - 2
                };
                if cs > 0 {
                    Some((join(ws.take(cs), seq![' ']), join(ws.skip(cs), seq![' '])))
                } else {
                    None
                }
            }
        },
    }
}

/// `v[from..to]` as a new list.
fn sub_list(v: &Vec<Vec<char>>, from: usize, to: usize) -> (r: Vec<Vec<char>>)
    requires
        from <= to <= v.len(),
    ensures
        views(r@) == views(v@).subrange(from as int, to as int),
{
    let mut r: Vec<Vec<char>> = Vec::new();
    let mut i: usize = from;
    while i < to
        invariant
            from <= i <= to <= v.len(),
            views(r@) == views(v@).subrange(from as int, i as int),
        decreases to - i,
    {
        let ghost old_raw = r@;
        let c = copy_chars(&v[i]);
        r.push(c);
        assert(r@ == old_raw.push(c));
        assert(views(r@) =~= views(old_raw).push(c@));
        assert(views(v@).subrange(from as int, i + 1) =~= views(v@).subrange(from as int, i as int).push(v@[i as int]@));
        i += 1;
    }
    r
}

/// Reads the discipline and class from a page header.
pub fn parse_discipline_class(line: &Vec<char>) -> (r: Option<(Vec<char>, Vec<char>)>)
    ensures
        match (r, discipline_class(line@)) {
            (Some((a, b)), Some((sa, sb))) => a@ == sa && b@ == sb,
            (None, None) => true,
            _ => false,
        },
{
    let left = match split_once_str(line, " Seite: ") {
        Some((l, _)) => l,
        None => {
            return None;
        },
    };
    let ws = split_words(&left);
    if ws.len() < 2 {
        return None;
    }
    let mut k: usize = 0;
    while k < ws.len() && !is_class_start_token(&ws[k])
        invariant
            0 <= k <= ws.len(),
            first_class(views(ws@), 0) == first_class(views(ws@), k as int),
        decreases ws.len() - k,
    {
        k += 1;
    }
    let cs = if k < ws.len() {
        k
    } else {
        ws.len() - 2
    };
    if cs == 0 {
        return None;
    }
    let sep: Vec<char> = vec![' '];
    assert(sep@ =~= seq![' ']);
    let first = sub_list(&ws, 0, cs);
    let second = sub_list(&ws, cs, ws.len());
    assert(views(ws@).subrange(0, cs as int) =~= views(ws@).take(cs as int));
    assert(views(ws@).subrange(cs as int, ws.len() as int) =~= views(ws@).skip(cs as int));
    Some((join_chars(&first, &sep), join_chars(&second, &sep)))
}

/// A club name as printed in a result list, without a trailing roman team
/// number and without a truncated column fragment before `... `.
pub open spec fn normalized_club(value: Seq<char>) -> Seq<char> {
    let collapsed = collapse_ws(value);
    let w = match split_once(collapsed, "... "@) {
        Some((_, club)) => trim(club),
        None => collapsed,
    };
    let r = match rsplit_once(w, ' ') {
        Some((club, suffix)) => if is_roman_numeral(suffix) {
            club
        } else {
            w
        },
        None => w,
    };
    trim(r)
}

/// Cleans a club name read from a result row.
pub fn normalize_club_chars(value: &Vec<char>) -> (r: Vec<char>)
    ensures
        r@ == normalized_club(value@),
{
    let collapsed = collapse_chars(value);
    let w = match split_once_str(&collapsed, "... ") {
        Some((_, club)) => trim_chars(&club),
        None => collapsed,
    };
    let r = match rsplit_once_char(&w, ' ') {
        Some((club, suffix)) => if is_roman_numeral_chars(&suffix) {
            club
        } else {
            w
        },
        None => w,
    };
    trim_chars(&r)
}

/// Cleans a club name read from a result row: "Ahrensburger SchG I" becomes
/// "Ahrensburger SchG", "0... SchV Klein Wesenberg" becomes
/// "SchV Klein Wesenberg".
pub fn normalize_club_name(value: &str) -> (r: String)
    ensures
        r@ == normalized_club(value@),
{
    let v = chars_of(value);
    let r = normalize_club_chars(&v);
    string_of(&r)
}

/// A roman team number (`I` to `X`).
pub fn is_team_suffix(value: &str) -> (r: bool)
    ensures
        r == is_roman_numeral(value@),
{
    let v = chars_of(value);
    is_roman_numeral_chars(&v)
}

/// The last word of a line.
pub open spec fn last_word(line: Seq<char>) -> Option<Seq<char>> {
    let ws = words(line);
    if ws.len() > 0 {
        Some(ws.last())
    } else {
        None
    }
}

pub fn last_word_of(line: &Vec<char>) -> (r: Option<Vec<char>>)
    ensures
        match (r, last_word(line@)) {
            (Some(a), Some(b)) => a@ == b,
            (None, None) => true,
            _ => false,
        },
{
    let ws = split_words(line);
    if ws.len() > 0 {
        Some(copy_chars(&ws[ws.len() - 1]))
    } else {
        None
    }
}

/// `dd.mm.yyyy` in decimal digits (`\d`, any Unicode decimal digit).
pub open spec fn is_date_text(d: Seq<char>) -> bool {
    &&& d.len() == 10
    &&& char_is_decimal_digit(d[0]) && char_is_decimal_digit(d[1]) && d[2] == '.'
    &&& char_is_decimal_digit(d[3]) && char_is_decimal_digit(d[4]) && d[5] == '.'
    &&& char_is_decimal_digit(d[6]) && char_is_decimal_digit(d[7])
    &&& char_is_decimal_digit(d[8]) && char_is_decimal_digit(d[9])
}

/// At `p` a white space run starts that is followed by `DV-System ` and at
/// least one more character.
pub open spec fn system_at(l: Seq<char>, p: int) -> bool {
    &&& 0 <= p < l.len()
    &&& is_ws(l[p])
    &&& {
        let q = p + lead_len(l.skip(p), |c: char| is_ws(c));
        starts_with(l.skip(q), "DV-System "@) && l.len() > q + 10
    }
}

/// The first `p` at or after `from` where the system column starts, or -1.
pub open spec fn system_split(l: Seq<char>, from: int) -> int
    decreases l.len() - from,
{
    if from >= l.len() || from < 0 {
        -1
    } else if system_at(l, from) {
        from
    } else {
        system_split(l, from + 1)
    }
}

/// The date, location and system of a header line
/// `der am dd.mm.yyyy in <location> DV-System <...>`.
pub open spec fn metadata_line(line: Seq<char>) -> Option<(Seq<char>, Seq<char>, Seq<char>)> {
    if !(starts_with(line, "der am "@) && line.len() >= 17 && is_date_text(line.subrange(7, 17))) {
        None
    } else {
        let r = line.skip(17);
        let w = lead_len(r, |c: char| is_ws(c));
        if w == 0 || !starts_with(r.skip(w as int), "in "@) {
            None
        } else {
            let l = r.skip(w + 3int);
            let p = system_split(l, 1);
            if p < 0 {
                None
            } else {
                let q = p + lead_len(l.skip(p), |c: char| is_ws(c));
                Some((line.subrange(7, 17), trim(l.take(p)), trim(l.skip(q))))
            }
        }
    }
}

/// The number of white space characters at the start of `s[from..]`.
fn lead_ws_from(s: &Vec<char>, from: usize) -> (n: usize)
    requires
        from <= s.len(),
    ensures
        n == lead_len(s@.skip(from as int), |c: char| is_ws(c)),
        from + n <= s.len(),
{
    let mut i: usize = from;
    while i < s.len() && is_ws_char(s[i])
        invariant
            from <= i <= s.len(),
            forall|j: int| from <= j < i ==> is_ws(#[trigger] s@[j]),
        decreases s.len() - i,
    {
        i += 1;
    }
    proof {
        let t = s@.skip(from as int);
        assert forall|j: int| 0 <= j < i - from implies is_ws(#[trigger] t[j]) by {
            assert(t[j] == s@[from + j]);
        }
        if i < s.len() {
            assert(t[i - from] == s@[i as int]);
        }
        lemma_lead_len(t, |c: char| is_ws(c), i - from);
    }
    i - from
}

/// Reads a `der am ... in ... DV-System ...` header line.
#[verifier::loop_isolation(false)]
pub fn parse_metadata_line(line: &Vec<char>) -> (r: Option<(Vec<char>, Vec<char>, Vec<char>)>)
    ensures
        match (r, metadata_line(line@)) {
            (Some((a, b, c)), Some((sa, sb, sc))) => a@ == sa && b@ == sb && c@ == sc,
            (None, None) => true,
            _ => false,
        },
{
    if !starts_with_str(line, "der am ") || line.len() < 17 {
        return None;
    }
    let date = slice_chars(line, 7, 17);
    if !(is_decimal_digit_char(date[0]) && is_decimal_digit_char(date[1]) && date[2] == '.' && is_decimal_digit_char(
        date[3],
    ) && is_decimal_digit_char(date[4]) && date[5] == '.' && is_decimal_digit_char(date[6]) && is_decimal_digit_char(
        date[7],
    ) && is_decimal_digit_char(date[8]) && is_decimal_digit_char(date[9])) {
        return None;
    }
    let r = slice_chars(line, 17, line.len());
    assert(r@ =~= line@.skip(17));
    let w = lead_ws_from(&r, 0);
    assert(r@.skip(0) =~= r@);
    let after_ws = slice_chars(&r, w, r.len());
    assert(after_ws@ =~= r@.skip(w as int));
    if w == 0 || !starts_with_str(&after_ws, "in ") {
        return None;
    }
    proof {
        reveal_strlit("in ");
    }
    let l = slice_chars(&r, w + 3, r.len());
    assert(l@ =~= r@.skip(w + 3));
    let mut p: usize = 1;
    while p < l.len()
        invariant
            1 <= p,
            system_split(l@, 1) == system_split(l@, p as int),
        decreases l.len() - p,
    {
        if is_ws_char(l[p]) {
            let q = p + lead_ws_from(&l, p);
            let rest = slice_chars(&l, q, l.len());
            assert(rest@ =~= l@.skip(q as int));
            if starts_with_str(&rest, "DV-System ") && l.len() - q > 10 {
                assert(system_at(l@, p as int));
                let location = slice_chars(&l, 0, p);
                assert(location@ =~= l@.take(p as int));
                return Some((date, trim_chars(&location), trim_chars(&rest)));
            }
            assert(!system_at(l@, p as int));
        }
        p += 1;
    }
    None
}


// ---------------------------------------------------------------------------
// Rows into results
// ---------------------------------------------------------------------------

/// Why a recognized row could not be read.
#[derive(Debug, Clone, Copy, PartialEq, Eq, Structural)]
pub enum SportResultsError {
    InvalidTeamRank,
    InvalidTeamMemberStartNumber,
    InvalidIndividualRank,
    InvalidIndividualStartNumber,
    InvalidDecimalValue,
}

impl SportResultsError {
    /// What the error says to a reader.
    pub open spec fn message_spec(self) -> Seq<char> {
        match self {
            SportResultsError::InvalidTeamRank => "invalid team rank"@,
            SportResultsError::InvalidTeamMemberStartNumber => "invalid team member start number"@,
            SportResultsError::InvalidIndividualRank => "invalid individual rank"@,
            SportResultsError::InvalidIndividualStartNumber => "invalid individual start number"@,
            SportResultsError::InvalidDecimalValue => "invalid decimal value"@,
        }
    }

    /// The text of the error.
    pub fn message(&self) -> (text: String)
        ensures
            text@ == self.message_spec(),
    {
        match self {
            SportResultsError::InvalidTeamRank => String::from_str("invalid team rank"),
            SportResultsError::InvalidTeamMemberStartNumber => String::from_str("invalid team member start number"),
            SportResultsError::InvalidIndividualRank => String::from_str("invalid individual rank"),
            SportResultsError::InvalidIndividualStartNumber => String::from_str("invalid individual start number"),
            SportResultsError::InvalidDecimalValue => String::from_str("invalid decimal value"),
        }
    }
}

/// A number column read as `u32::from_str` reads it: only ASCII digits, and
/// only where the value fits.
pub open spec fn u32_of(t: Seq<char>) -> Option<u32> {
    if all_digits(t) && digits_value(t) <= u32::MAX {
        Some(digits_value(t) as u32)
    } else {
        None
    }
}

/// A score column in tenths: only ASCII digits, and only where the value
/// fits.
pub open spec fn tenths_of(t: Seq<char>) -> Option<u64> {
    if is_ascii_decimal(t) && tenths(t) <= u64::MAX {
        Some(tenths(t) as u64)
    } else {
        None
    }
}

/// The team of a team row, read under the current event.
pub open spec fn team_from(l: TeamLine, ev: EventSpec) -> Result<TeamSpec, SportResultsError> {
    let rank: Result<Option<u32>, SportResultsError> = match l.rank {
        None => Ok(None),
        Some(r) => match u32_of(r) {
            Some(v) => Ok(Some(v)),
            None => Err(SportResultsError::InvalidTeamRank),
        },
    };
    match rank {
        Err(e) => Err(e),
        Ok(rank) => match tenths_of(l.total) {
            None => Err(SportResultsError::InvalidDecimalValue),
            Some(total) => Ok(
                TeamSpec {
                    event: ev,
                    rank,
                    association: l.association,
                    club: normalized_club(l.club),
                    total_tenths: total,
                    members: Seq::empty(),
                },
            ),
        },
    }
}

/// The member of a member row.
pub open spec fn member_from(l: MemberLine) -> Result<MemberSpec, SportResultsError> {
    match u32_of(l.start_number) {
        None => Err(SportResultsError::InvalidTeamMemberStartNumber),
        Some(start) => match tenths_of(l.total) {
            None => Err(SportResultsError::InvalidDecimalValue),
            Some(total) => Ok(MemberSpec { start_number: start, name: trim(l.name), total_tenths: total }),
        },
    }
}

/// Every series column fits.
pub open spec fn series_fit(series: Seq<Seq<char>>) -> bool {
    forall|j: int| 0 <= j < series.len() ==> (#[trigger] tenths_of(series[j])) is Some
}

/// The kinds of individual rows: ranked, not started, without rank.
pub open spec fn individual_from(l: IndividualLine, kind: int, ev: EventSpec) -> Result<
    IndividualSpec,
    SportResultsError,
> {
    let rank: Result<Rank, SportResultsError> = if kind == 0 {
        match u32_of(l.rank) {
            Some(v) => Ok(Rank::Place(v)),
            None => Err(SportResultsError::InvalidIndividualRank),
        }
    } else if kind == 1 {
        Ok(Rank::NotStarted)
    } else {
        Ok(Rank::OutOfCompetition)
    };
    match rank {
        Err(e) => Err(e),
        Ok(rank) => match u32_of(l.start_number) {
            None => Err(SportResultsError::InvalidIndividualStartNumber),
            Some(start) => if !series_fit(l.series) {
                Err(SportResultsError::InvalidDecimalValue)
            } else {
                match tenths_of(l.total) {
                    None => Err(SportResultsError::InvalidDecimalValue),
                    Some(total) => Ok(
                        IndividualSpec {
                            event: ev,
                            rank,
                            start_number: start,
                            name: trim(l.name),
                            association: l.association,
                            club: normalized_club(l.club),
                            series_tenths: l.series.map_values(|x: Seq<char>| tenths(x) as u64),
                            total_tenths: total,
                        },
                    ),
                }
            },
        },
    }
}

/// The individual row of a line, tried as ranked, not-started and
/// out-of-competition row in this order.
pub open spec fn individual_row(line: Seq<char>, ev: EventSpec) -> Option<
    Result<IndividualSpec, SportResultsError>,
> {
    match ranked_line(line) {
        Some(l) => Some(individual_from(l, 0, ev)),
        None => match not_started_line(line) {
            Some(l) => Some(individual_from(l, 1, ev)),
            None => match unranked_line(line) {
                Some(l) => Some(individual_from(l, 2, ev)),
                None => None,
            },
        },
    }
}

pub fn copy_chars_string(v: &Vec<char>) -> (r: String)
    ensures
        r@ == v@,
{
    string_of(v)
}

/// Number and score columns that the row grammar guarantees.
pub open spec fn team_columns_readable(l: TeamLine) -> bool {
    &&& (l.rank matches Some(r) ==> is_num(r))
    &&& is_decimal(l.total)
}

pub open spec fn member_columns_readable(l: MemberLine) -> bool {
    is_num(l.start_number) && is_decimal(l.total)
}

pub open spec fn individual_columns_readable(l: IndividualLine, kind: int) -> bool {
    &&& (kind == 0 ==> is_num(l.rank))
    &&& is_num(l.start_number)
    &&& is_decimal(l.total)
    &&& forall|j: int| 0 <= j < l.series.len() ==> is_decimal(#[trigger] l.series[j])
}

proof fn lemma_trail_dec(s: Seq<char>, sp: Seq<(int, int)>, k: int, i: int)
    requires
        k - trail_dec(s, sp, k) <= i < k,
    ensures
        is_decimal(tok(s, sp, i)),
    decreases k,
{
    if k > 0 && is_decimal(tok(s, sp, k - 1)) && i < k - 1 {
        lemma_trail_dec(s, sp, k - 1, i);
    }
}

proof fn lemma_team_readable(s: Seq<char>)
    requires
        team_line(s) is Some,
    ensures
        team_columns_readable(team_line(s)->0),
{
}

proof fn lemma_member_readable(s: Seq<char>)
    requires
        member_line(s) is Some,
    ensures
        member_columns_readable(member_line(s)->0),
{
}

proof fn lemma_scored_readable(s: Seq<char>, first_name: int)
    requires
        first_name == 1 || first_name == 2,
        scored_line(s, first_name) is Some,
        spans(s).len() >= first_name,
        is_num(tok(s, spans(s), first_name - 1)),
        first_name == 2 ==> is_num(tok(s, spans(s), 0)),
    ensures
        individual_columns_readable(scored_line(s, first_name)->0, if first_name == 2 {
            0
        } else {
            2
        }),
{
    let sp = spans(s);
    let n = sp.len() as int;
    let d = trail_dec(s, sp, n);
    let k = first_assoc(s, sp, first_name + 1, n - 4);
    let m = max_int(k + 2, n - d);
    let l = scored_line(s, first_name)->0;
    lemma_first_assoc_range(s, sp, first_name + 1, n - 4);
    lemma_trail_dec(s, sp, n, n - 1);
    assert(l.series.len() == n - 1 - m);
    assert forall|j: int| 0 <= j < l.series.len() implies is_decimal(#[trigger] l.series[j]) by {
        lemma_trail_dec(s, sp, n, m + j);
    }
}

proof fn lemma_individual_row_readable(s: Seq<char>)
    ensures
        ranked_line(s) is Some ==> individual_columns_readable(ranked_line(s)->0, 0),
        not_started_line(s) is Some ==> individual_columns_readable(not_started_line(s)->0, 1),
        unranked_line(s) is Some ==> individual_columns_readable(unranked_line(s)->0, 2),
{
    let sp = spans(s);
    if ranked_line(s) is Some {
        lemma_scored_readable(s, 2);
    }
    if unranked_line(s) is Some {
        lemma_scored_readable(s, 1);
    }
}

/// Reads a team from its columns.
pub fn team_from_columns(c: &TeamColumns, ev: &EventInfo) -> (r: Result<TeamResult, SportResultsError>)
    requires
        team_columns_readable(c.spec()),
    ensures
        match (r, team_from(c.spec(), ev@)) {
            (Ok(a), Ok(b)) => a@ == b,
            (Err(a), Err(b)) => a == b,
            _ => false,
        },
{
    let rank = match &c.rank {
        None => None,
        Some(r) => {
            match num_value(r) {
                Some(v) => Some(v),
                None => {
                    return Err(SportResultsError::InvalidTeamRank);
                },
            }
        },
    };
    let total = match tenths_value(&c.total) {
        Some(v) => v,
        None => {
            return Err(SportResultsError::InvalidDecimalValue);
        },
    };
    let members: Vec<TeamMemberResult> = Vec::new();
    assert(member_views(members@) =~= Seq::<MemberSpec>::empty());
    Ok(
        TeamResult {
            event: ev.copy(),
            rank,
            association: string_of(&c.association),
            club: string_of(&normalize_club_chars(&c.club)),
            total_tenths: total,
            members,
        },
    )
}

/// Reads a team member from its columns.
pub fn member_from_columns(c: &MemberColumns) -> (r: Result<TeamMemberResult, SportResultsError>)
    requires
        member_columns_readable(c.spec()),
    ensures
        match (r, member_from(c.spec())) {
            (Ok(a), Ok(b)) => a@ == b,
            (Err(a), Err(b)) => a == b,
            _ => false,
        },
{
    let start = match num_value(&c.start_number) {
        Some(v) => v,
        None => {
            return Err(SportResultsError::InvalidTeamMemberStartNumber);
        },
    };
    let total = match tenths_value(&c.total) {
        Some(v) => v,
        None => {
            return Err(SportResultsError::InvalidDecimalValue);
        },
    };
    Ok(TeamMemberResult { start_number: start, name: string_of(&trim_chars(&c.name)), total_tenths: total })
}

/// The series columns in tenths, or `None` where one does not fit.
fn series_values(series: &Vec<Vec<char>>) -> (r: Option<Vec<u64>>)
    requires
        forall|j: int| 0 <= j < series.len() ==> is_decimal(#[trigger] series@[j]@),
    ensures
        match r {
            Some(v) => series_fit(views(series@)) && v@ == views(series@).map_values(
                |x: Seq<char>| tenths(x) as u64,
            ),
            None => !series_fit(views(series@)),
        },
{
    let ghost sv = views(series@);
    let mut out: Vec<u64> = Vec::new();
    let mut i: usize = 0;
    while i < series.len()
        invariant
            0 <= i <= series.len(),
            sv == views(series@),
            forall|j: int| 0 <= j < series.len() ==> is_decimal(#[trigger] series@[j]@),
            out@ == sv.take(i as int).map_values(|x: Seq<char>| tenths(x) as u64),
            forall|j: int| 0 <= j < i ==> (#[trigger] tenths_of(sv[j])) is Some,
        decreases series.len() - i,
    {
        assert(sv[i as int] == series@[i as int]@);
        match tenths_value(&series[i]) {
            Some(v) => {
                out.push(v);
                assert(sv.take(i + 1).map_values(|x: Seq<char>| tenths(x) as u64) =~= sv.take(
                    i as int,
                ).map_values(|x: Seq<char>| tenths(x) as u64).push(v));
            },
            None => {
                return None;
            },
        }
        i += 1;
    }
    assert(sv.take(i as int) =~= sv);
    Some(out)
}

/// Reads an individual result from its columns; `kind` is 0 for a ranked
/// row, 1 for a not-started row and 2 for a row without rank.
pub fn individual_from_columns(c: &IndividualColumns, kind: u8, ev: &EventInfo) -> (r: Result<
    IndividualResult,
    SportResultsError,
>)
    requires
        kind <= 2,
        individual_columns_readable(c.spec(), kind as int),
    ensures
        match (r, individual_from(c.spec(), kind as int, ev@)) {
            (Ok(a), Ok(b)) => a@ == b,
            (Err(a), Err(b)) => a == b,
            _ => false,
        },
{
    let rank = if kind == 0 {
        match num_value(&c.rank) {
            Some(v) => Rank::Place(v),
            None => {
                return Err(SportResultsError::InvalidIndividualRank);
            },
        }
    } else if kind == 1 {
        Rank::NotStarted
    } else {
        Rank::OutOfCompetition
    };
    let start = match num_value(&c.start_number) {
        Some(v) => v,
        None => {
            return Err(SportResultsError::InvalidIndividualStartNumber);
        },
    };
    assert forall|j: int| 0 <= j < c.series.len() implies is_decimal(#[trigger] c.series@[j]@) by {
        assert(views(c.series@)[j] == c.series@[j]@);
    }
    let series = match series_values(&c.series) {
        Some(v) => v,
        None => {
            return Err(SportResultsError::InvalidDecimalValue);
        },
    };
    let total = match tenths_value(&c.total) {
        Some(v) => v,
        None => {
            return Err(SportResultsError::InvalidDecimalValue);
        },
    };
    Ok(
        IndividualResult {
            event: ev.copy(),
            rank,
            start_number: start,
            name: string_of(&trim_chars(&c.name)),
            association: string_of(&c.association),
            club: string_of(&normalize_club_chars(&c.club)),
            series_tenths: series,
            total_tenths: total,
        },
    )
}

// ---------------------------------------------------------------------------
// The result list, line by line
// ---------------------------------------------------------------------------

/// The part of a result list a line belongs to.
#[derive(Debug, Clone, Copy, PartialEq, Eq, Structural)]
pub enum Section {
    Unknown,
    Team,
    Individual,
}

/// What has been read after some lines of a result list.
pub ghost struct ParseState {
    pub event: EventSpec,
    pub section: Section,
    pub out_of_competition: bool,
    pub current_team: Option<TeamSpec>,
    pub last_place: Option<u32>,
    pub teams: Seq<TeamSpec>,
    pub individuals: Seq<IndividualSpec>,
    pub out_of_competition_teams: Seq<TeamSpec>,
    pub out_of_competition_individuals: Seq<IndividualSpec>,
}

/// The open team, if any, moved to the list the current part collects.
pub open spec fn flushed(st: ParseState) -> ParseState {
    match st.current_team {
        None => st,
        Some(t) => if st.out_of_competition {
            ParseState {
                current_team: None,
                out_of_competition_teams: st.out_of_competition_teams.push(t),
                ..st
            }
        } else {
            ParseState { current_team: None, teams: st.teams.push(t), ..st }
        },
    }
}

/// A row printed without rank below a ranked row shares that row's place.
pub open spec fn tie_ranked(r: IndividualSpec, out_of_competition: bool, last: Option<u32>) -> IndividualSpec {
    if !out_of_competition && r.rank == Rank::OutOfCompetition && last is Some {
        IndividualSpec { rank: Rank::Place(last->0), ..r }
    } else {
        r
    }
}

/// An individual result appended to the list the current part collects.
pub open spec fn pushed_individual(st: ParseState, r: IndividualSpec) -> ParseState {
    let r2 = tie_ranked(r, st.out_of_competition, st.last_place);
    let last = match r2.rank {
        Rank::Place(p) => Some(p),
        _ => st.last_place,
    };
    if st.out_of_competition {
        ParseState {
            last_place: last,
            out_of_competition_individuals: st.out_of_competition_individuals.push(r2),
            ..st
        }
    } else {
        ParseState { last_place: last, individuals: st.individuals.push(r2), ..st }
    }
}

/// A line of the team part.
pub open spec fn team_step(st: ParseState, line: Seq<char>) -> Result<ParseState, SportResultsError> {
    match team_line(line) {
        Some(l) => match team_from(l, st.event) {
            Ok(team) => Ok(ParseState { current_team: Some(team), ..flushed(st) }),
            Err(e) => Err(e),
        },
        None => match member_line(line) {
            None => Ok(st),
            Some(ml) => match member_from(ml) {
                Err(e) => Err(e),
                Ok(m) => match st.current_team {
                    None => Ok(st),
                    Some(team) => Ok(
                        ParseState {
                            current_team: Some(TeamSpec { members: team.members.push(m), ..team }),
                            ..st
                        },
                    ),
                },
            },
        },
    }
}

/// A line of the individual part.
pub open spec fn individual_step(st: ParseState, line: Seq<char>) -> Result<ParseState, SportResultsError> {
    match individual_row(line, st.event) {
        None => Ok(st),
        Some(Err(e)) => Err(e),
        Some(Ok(r)) => Ok(pushed_individual(st, r)),
    }
}

/// A section header: `Ergebnisliste Mannschaft ...` or `Ergebnisliste Einzel ...`.
pub open spec fn section_start(st: ParseState, line: Seq<char>, section: Section) -> ParseState {
    let f = flushed(st);
    ParseState {
        event: EventSpec { discipline_code: last_word(line), ..st.event },
        section,
        out_of_competition: false,
        last_place: None,
        ..f
    }
}

/// One line of a result list.
pub open spec fn step(st: ParseState, line: Seq<char>) -> Result<ParseState, SportResultsError> {
    if starts_with(line, "Ergebnisliste Mannschaft"@) {
        Ok(section_start(st, line, Section::Team))
    } else if starts_with(line, "Ergebnisliste Einzel"@) {
        Ok(section_start(st, line, Section::Individual))
    } else if discipline_class(line) is Some {
        let (d, c) = discipline_class(line)->0;
        Ok(ParseState { event: EventSpec { discipline: Some(d), class_name: Some(c), ..st.event }, ..st })
    } else if starts_with(line, "Außer Konkurrenz"@) {
        Ok(ParseState { out_of_competition: true, last_place: None, ..flushed(st) })
    } else {
        match st.section {
            Section::Team => team_step(st, line),
            Section::Individual => individual_step(st, line),
            Section::Unknown => Ok(st),
        }
    }
}

/// The lines read one after the other; the first error ends the reading.
pub open spec fn run(ls: Seq<Seq<char>>, st: ParseState) -> Result<ParseState, SportResultsError>
    decreases ls.len(),
{
    if ls.len() == 0 {
        Ok(st)
    } else {
        match run(ls.drop_last(), st) {
            Ok(s) => step(s, ls.last()),
            Err(e) => Err(e),
        }
    }
}

/// What one line tells of the event as a whole.
pub open spec fn event_step(ev: EventSpec, line: Seq<char>) -> EventSpec {
    match metadata_line(line) {
        Some((d, l, s)) => EventSpec { date: Some(d), location: Some(l), system: Some(s), ..ev },
        None => if starts_with(line, "Ergebnisliste Mannschaft"@) || starts_with(
            line,
            "Ergebnisliste Einzel"@,
        ) {
            if ev.discipline_code is None {
                EventSpec { discipline_code: last_word(line), ..ev }
            } else {
                ev
            }
        } else if ev.discipline is None && discipline_class(line) is Some {
            let (d, c) = discipline_class(line)->0;
            EventSpec { discipline: Some(d), class_name: Some(c), ..ev }
        } else {
            ev
        },
    }
}

pub open spec fn event_fold(ls: Seq<Seq<char>>, ev: EventSpec) -> EventSpec
    decreases ls.len(),
{
    if ls.len() == 0 {
        ev
    } else {
        event_step(event_fold(ls.drop_last(), ev), ls.last())
    }
}

/// The event of a result list: its first line names it, the header lines
/// give date, location, system, discipline and class.
pub open spec fn event_info(ls: Seq<Seq<char>>) -> EventSpec {
    event_fold(
        ls,
        EventSpec {
            name: if ls.len() > 0 {
                ls[0]
            } else {
                Seq::empty()
            },
            date: None,
            location: None,
            system: None,
            discipline_code: None,
            discipline: None,
            class_name: None,
        },
    )
}

pub open spec fn initial_state(ev: EventSpec) -> ParseState {
    ParseState {
        event: ev,
        section: Section::Unknown,
        out_of_competition: false,
        current_team: None,
        last_place: None,
        teams: Seq::empty(),
        individuals: Seq::empty(),
        out_of_competition_teams: Seq::empty(),
        out_of_competition_individuals: Seq::empty(),
    }
}

/// The result list read from a text.
pub open spec fn parse_result(text: Seq<char>) -> Result<ResultListSpec, SportResultsError> {
    let ls = normalized_lines_of(text);
    let ev = event_info(ls);
    match run(ls, initial_state(ev)) {
        Err(e) => Err(e),
        Ok(st) => {
            let f = flushed(st);
            Ok(
                ResultListSpec {
                    event: ev,
                    team_results: f.teams,
                    individual_results: f.individuals,
                    out_of_competition_team_results: f.out_of_competition_teams,
                    out_of_competition_individual_results: f.out_of_competition_individuals,
                },
            )
        },
    }
}

proof fn lemma_run_err(ls: Seq<Seq<char>>, st: ParseState, i: int)
    requires
        0 <= i <= ls.len(),
        run(ls.take(i), st) is Err,
    ensures
        run(ls, st) == run(ls.take(i), st),
    decreases ls.len(),
{
    if i == ls.len() {
        assert(ls.take(i) =~= ls);
    } else {
        assert(ls.drop_last().take(i) =~= ls.take(i));
        lemma_run_err(ls.drop_last(), st, i);
    }
}

/// The individual row of a line, if it is one.
pub fn individual_row_of(w: &LineWords, ev: &EventInfo) -> (r: Option<
    Result<IndividualResult, SportResultsError>,
>)
    requires
        w.wf(),
    ensures
        match (r, individual_row(w.chars@, ev@)) {
            (None, None) => true,
            (Some(Ok(a)), Some(Ok(b))) => a@ == b,
            (Some(Err(a)), Some(Err(b))) => a == b,
            _ => false,
        },
{
    proof {
        lemma_individual_row_readable(w.chars@);
    }
    if let Some(c) = read_ranked_line(w) {
        return Some(individual_from_columns(&c, 0, ev));
    }
    if let Some(c) = read_not_started_line(w) {
        return Some(individual_from_columns(&c, 1, ev));
    }
    if let Some(c) = read_unranked_line(w) {
        return Some(individual_from_columns(&c, 2, ev));
    }
    None
}

fn opt_string_of(v: Option<Vec<char>>) -> (r: Option<String>)
    ensures
        opt_view(r) == match v {
            Some(x) => Some(x@),
            None => None::<Seq<char>>,
        },
{
    match v {
        Some(x) => Some(string_of(&x)),
        None => None,
    }
}

/// The event of a result list, read from its normalized lines.
pub fn event_info_of(lines: &Vec<Vec<char>>) -> (r: EventInfo)
    ensures
        r@ == event_info(views(lines@)),
{
    let ghost ls = views(lines@);
    let name = if lines.len() > 0 {
        assert(ls[0] == lines@[0]@);
        string_of(&lines[0])
    } else {
        String::new()
    };
    let mut ev = EventInfo {
        name,
        date: None,
        location: None,
        system: None,
        discipline_code: None,
        discipline: None,
        class_name: None,
    };
    let ghost init = ev@;
    assert(init == event_fold(ls.take(0), init));
    let mut i: usize = 0;
    while i < lines.len()
        invariant
            0 <= i <= lines.len(),
            ls == views(lines@),
            init.name == (if ls.len() > 0 {
                ls[0]
            } else {
                Seq::<char>::empty()
            }),
            init.date is None && init.location is None && init.system is None,
            init.discipline_code is None && init.discipline is None && init.class_name is None,
            ev@ == event_fold(ls.take(i as int), init),
        decreases lines.len() - i,
    {
        let line = &lines[i];
        assert(ls.take(i + 1).drop_last() =~= ls.take(i as int));
        assert(ls.take(i + 1).last() == line@);
        match parse_metadata_line(line) {
            Some((d, l, s)) => {
                ev.date = Some(string_of(&d));
                ev.location = Some(string_of(&l));
                ev.system = Some(string_of(&s));
            },
            None => {
                if starts_with_str(line, "Ergebnisliste Mannschaft") || starts_with_str(
                    line,
                    "Ergebnisliste Einzel",
                ) {
                    if ev.discipline_code.is_none() {
                        ev.discipline_code = opt_string_of(last_word_of(line));
                    }
                } else if ev.discipline.is_none() {
                    if let Some((d, c)) = parse_discipline_class(line) {
                        ev.discipline = Some(string_of(&d));
                        ev.class_name = Some(string_of(&c));
                    }
                }
            },
        }
        i += 1;
    }
    assert(ls.take(i as int) =~= ls);
    assert(init == EventSpec {
        name: if ls.len() > 0 {
            ls[0]
        } else {
            Seq::empty()
        },
        date: None,
        location: None,
        system: None,
        discipline_code: None,
        discipline: None,
        class_name: None,
    });
    ev
}

/// The reading state of a result list.
struct Reader {
    event: EventInfo,
    section: Section,
    out_of_competition: bool,
    current_team: Option<TeamResult>,
    last_place: Option<u32>,
    teams: Vec<TeamResult>,
    individuals: Vec<IndividualResult>,
    out_of_competition_teams: Vec<TeamResult>,
    out_of_competition_individuals: Vec<IndividualResult>,
}

impl View for Reader {
    type V = ParseState;

    closed spec fn view(&self) -> ParseState {
        ParseState {
            event: self.event@,
            section: self.section,
            out_of_competition: self.out_of_competition,
            current_team: match self.current_team {
                Some(t) => Some(t@),
                None => None,
            },
            last_place: self.last_place,
            teams: team_views(self.teams@),
            individuals: individual_views(self.individuals@),
            out_of_competition_teams: team_views(self.out_of_competition_teams@),
            out_of_competition_individuals: individual_views(self.out_of_competition_individuals@),
        }
    }
}

impl Reader {
    fn flush(self) -> (r: Reader)
        ensures
            r@ == flushed(self@),
    {
        let mut st = self;
        let ghost old_teams = team_views(st.teams@);
        let ghost old_ooc = team_views(st.out_of_competition_teams@);
        match st.current_team.take() {
            None => {},
            Some(team) => {
                if st.out_of_competition {
                    st.out_of_competition_teams.push(team);
                    assert(team_views(st.out_of_competition_teams@) =~= old_ooc.push(team@));
                } else {
                    st.teams.push(team);
                    assert(team_views(st.teams@) =~= old_teams.push(team@));
                }
            },
        }
        st
    }

    fn push_individual(self, r: IndividualResult) -> (out: Reader)
        ensures
            out@ == pushed_individual(self@, r@),
    {
        let mut st = self;
        let mut r = r;
        if !st.out_of_competition && r.rank == Rank::OutOfCompetition {
            if let Some(p) = st.last_place {
                r.rank = Rank::Place(p);
            }
        }
        if let Rank::Place(p) = r.rank {
            st.last_place = Some(p);
        }
        let ghost old_ind = individual_views(st.individuals@);
        let ghost old_ooc = individual_views(st.out_of_competition_individuals@);
        if st.out_of_competition {
            st.out_of_competition_individuals.push(r);
            assert(individual_views(st.out_of_competition_individuals@) =~= old_ooc.push(r@));
        } else {
            st.individuals.push(r);
            assert(individual_views(st.individuals@) =~= old_ind.push(r@));
        }
        st
    }

    fn start_section(self, line: &Vec<char>, section: Section) -> (r: Reader)
        ensures
            r@ == section_start(self@, line@, section),
    {
        let mut st = self.flush();
        st.event.discipline_code = opt_string_of(last_word_of(line));
        st.section = section;
        st.out_of_competition = false;
        st.last_place = None;
        st
    }

    fn team_line_step(self, line: &Vec<char>) -> (r: Result<Reader, SportResultsError>)
        ensures
            match (r, team_step(self@, line@)) {
                (Ok(a), Ok(b)) => a@ == b,
                (Err(a), Err(b)) => a == b,
                _ => false,
            },
    {
        let w = LineWords::new(line);
        match read_team_line(&w) {
            Some(c) => {
                proof {
                    lemma_team_readable(line@);
                }
                match team_from_columns(&c, &self.event) {
                    Ok(team) => {
                        let mut st = self.flush();
                        st.current_team = Some(team);
                        Ok(st)
                    },
                    Err(e) => Err(e),
                }
            },
            None => match read_member_line(&w) {
                None => Ok(self),
                Some(mc) => {
                    proof {
                        lemma_member_readable(line@);
                    }
                    match member_from_columns(&mc) {
                        Err(e) => Err(e),
                        Ok(m) => {
                            let mut st = self;
                            match st.current_team.take() {
                                None => Ok(st),
                                Some(team) => {
                                    let mut team = team;
                                    let ghost old_members = member_views(team.members@);
                                    team.members.push(m);
                                    assert(member_views(team.members@) =~= old_members.push(m@));
                                    st.current_team = Some(team);
                                    Ok(st)
                                },
                            }
                        },
                    }
                },
            },
        }
    }

    fn step(self, line: &Vec<char>) -> (r: Result<Reader, SportResultsError>)
        ensures
            match (r, step(self@, line@)) {
                (Ok(a), Ok(b)) => a@ == b,
                (Err(a), Err(b)) => a == b,
                _ => false,
            },
    {
        if starts_with_str(line, "Ergebnisliste Mannschaft") {
            return Ok(self.start_section(line, Section::Team));
        }
        if starts_with_str(line, "Ergebnisliste Einzel") {
            return Ok(self.start_section(line, Section::Individual));
        }
        if let Some((d, c)) = parse_discipline_class(line) {
            let mut st = self;
            st.event.discipline = Some(string_of(&d));
            st.event.class_name = Some(string_of(&c));
            return Ok(st);
        }
        if starts_with_str(line, "Außer Konkurrenz") {
            let mut st = self.flush();
            st.out_of_competition = true;
            st.last_place = None;
            return Ok(st);
        }
        match self.section {
            Section::Team => self.team_line_step(line),
            Section::Individual => {
                let w = LineWords::new(line);
                match individual_row_of(&w, &self.event) {
                    None => Ok(self),
                    Some(Err(e)) => Err(e),
                    Some(Ok(r)) => Ok(self.push_individual(r)),
                }
            },
            Section::Unknown => Ok(self),
        }
    }
}

/// Reads DAVID21+ result lists.
pub struct SportResultsParser;

impl SportResultsParser {
    /// Builds a DAVID21+ result parser.
    pub fn new() -> (r: SportResultsParser)
        ensures
            r == SportResultsParser,
    {
        SportResultsParser
    }

    /// Parses the extracted text of a DAVID21+ result list into teams,
    /// members and individual results; an error where a recognized row
    /// holds a number that does not fit.
    pub fn parse(&self, text: &str) -> (r: Result<SportResultList, SportResultsError>)
        ensures
            match (r, parse_result(text@)) {
                (Ok(a), Ok(b)) => a@ == b,
                (Err(a), Err(b)) => a == b,
                _ => false,
            },
    {
        let chars = chars_of(text);
        let lines = normalized_lines(&chars);
        let ghost ls = views(lines@);
        let event = event_info_of(&lines);
        let teams: Vec<TeamResult> = Vec::new();
        let individuals: Vec<IndividualResult> = Vec::new();
        let ooc_teams: Vec<TeamResult> = Vec::new();
        let ooc_individuals: Vec<IndividualResult> = Vec::new();
        let mut st = Reader {
            event: event.copy(),
            section: Section::Unknown,
            out_of_competition: false,
            current_team: None,
            last_place: None,
            teams,
            individuals,
            out_of_competition_teams: ooc_teams,
            out_of_competition_individuals: ooc_individuals,
        };
        assert(team_views(st.teams@) =~= Seq::<TeamSpec>::empty());
        assert(team_views(st.out_of_competition_teams@) =~= Seq::<TeamSpec>::empty());
        assert(individual_views(st.individuals@) =~= Seq::<IndividualSpec>::empty());
        assert(individual_views(st.out_of_competition_individuals@) =~= Seq::<IndividualSpec>::empty());
        assert(st@ == initial_state(event@));
        assert(ls.take(0) =~= Seq::<Seq<char>>::empty());
        let mut i: usize = 0;
        while i < lines.len()
            invariant
                0 <= i <= lines.len(),
                ls == views(lines@),
                ls == normalized_lines_of(text@),
                event@ == event_info(ls),
                run(ls.take(i as int), initial_state(event@)) == Ok::<ParseState, SportResultsError>(st@),
            decreases lines.len() - i,
        {
            assert(ls.take(i + 1).drop_last() =~= ls.take(i as int));
            assert(ls.take(i + 1).last() == lines@[i as int]@);
            match st.step(&lines[i]) {
                Ok(s) => {
                    st = s;
                },
                Err(e) => {
                    proof {
                        assert(run(ls.take(i + 1), initial_state(event@)) == Err::<
                            ParseState,
                            SportResultsError,
                        >(e));
                        lemma_run_err(ls, initial_state(event@), i + 1);
                    }
                    return Err(e);
                },
            }
            i += 1;
        }
        assert(ls.take(i as int) =~= ls);
        let f = st.flush();
        Ok(
            SportResultList {
                event,
                team_results: f.teams,
                individual_results: f.individuals,
                out_of_competition_team_results: f.out_of_competition_teams,
                out_of_competition_individual_results: f.out_of_competition_individuals,
            },
        )
    }
}


// ---------------------------------------------------------------------------
// What every result list read satisfies
// ---------------------------------------------------------------------------

/// An individual result has no series exactly when it was not started.
pub open spec fn series_match_rank(r: IndividualSpec) -> bool {
    (r.series_tenths.len() == 0) == (r.rank == Rank::NotStarted)
}

/// The parts of an event that describe the list as a whole.
pub open spec fn same_list_event(a: EventSpec, b: EventSpec) -> bool {
    a.name == b.name && a.date == b.date && a.location == b.location && a.system == b.system
}

pub open spec fn team_ok(t: TeamSpec, ev: EventSpec) -> bool {
    same_list_event(t.event, ev)
}

pub open spec fn individual_ok(r: IndividualSpec, ev: EventSpec) -> bool {
    series_match_rank(r) && same_list_event(r.event, ev)
}

/// What holds of the state after every line.
pub open spec fn state_ok(st: ParseState, ev: EventSpec) -> bool {
    &&& same_list_event(st.event, ev)
    &&& (st.current_team matches Some(t) ==> team_ok(t, ev))
    &&& forall|i: int| 0 <= i < st.teams.len() ==> team_ok(#[trigger] st.teams[i], ev)
    &&& forall|i: int| 0 <= i < st.out_of_competition_teams.len() ==> team_ok(
        #[trigger] st.out_of_competition_teams[i],
        ev,
    )
    &&& forall|i: int| 0 <= i < st.individuals.len() ==> individual_ok(#[trigger] st.individuals[i], ev)
    &&& forall|i: int| 0 <= i < st.out_of_competition_individuals.len() ==> individual_ok(
        #[trigger] st.out_of_competition_individuals[i],
        ev,
    )
}

proof fn lemma_scored_series(s: Seq<char>, first_name: int)
    requires
        first_name == 1 || first_name == 2,
        scored_line(s, first_name) is Some,
    ensures
        scored_line(s, first_name)->0.series.len() >= 1,
{
    let sp = spans(s);
    let n = sp.len() as int;
    lemma_first_assoc_range(s, sp, first_name + 1, n - 4);
}

proof fn lemma_individual_row_ok(line: Seq<char>, ev: EventSpec, r: IndividualSpec)
    requires
        individual_row(line, ev) == Some(Ok::<IndividualSpec, SportResultsError>(r)),
    ensures
        series_match_rank(r),
        r.event == ev,
{
    if ranked_line(line) is Some {
        lemma_scored_series(line, 2);
    } else if not_started_line(line) is Some {
    } else {
        lemma_scored_series(line, 1);
    }
}

proof fn lemma_flushed_ok(st: ParseState, ev: EventSpec)
    requires
        state_ok(st, ev),
    ensures
        state_ok(flushed(st), ev),
        flushed(st).current_team is None,
        flushed(st).event == st.event,
        flushed(st).individuals == st.individuals,
        flushed(st).out_of_competition_individuals == st.out_of_competition_individuals,
{
    let f = flushed(st);
    if let Some(t) = st.current_team {
        assert forall|i: int| 0 <= i < f.teams.len() implies team_ok(#[trigger] f.teams[i], ev) by {
            if i < st.teams.len() {
                assert(f.teams[i] == st.teams[i]);
            }
        }
        assert forall|i: int| 0 <= i < f.out_of_competition_teams.len() implies team_ok(
            #[trigger] f.out_of_competition_teams[i],
            ev,
        ) by {
            if i < st.out_of_competition_teams.len() {
                assert(f.out_of_competition_teams[i] == st.out_of_competition_teams[i]);
            }
        }
    }
}

proof fn lemma_step_ok(st: ParseState, line: Seq<char>, ev: EventSpec)
    requires
        state_ok(st, ev),
    ensures
        step(st, line) matches Ok(s) ==> state_ok(s, ev),
{
    lemma_flushed_ok(st, ev);
    let f = flushed(st);
    if starts_with(line, "Ergebnisliste Mannschaft"@) || starts_with(line, "Ergebnisliste Einzel"@) {
    } else if discipline_class(line) is Some {
    } else if starts_with(line, "Außer Konkurrenz"@) {
    } else {
        match st.section {
            Section::Team => {
                match team_line(line) {
                    Some(l) => {},
                    None => {
                        if let Some(ml) = member_line(line) {
                            if let Ok(m) = member_from(ml) {
                                if let Some(team) = st.current_team {
                                    let nt = TeamSpec { members: team.members.push(m), ..team };
                                    assert(team_ok(nt, ev));
                                }
                            }
                        }
                    },
                }
            },
            Section::Individual => {
                if let Some(Ok(r)) = individual_row(line, st.event) {
                    lemma_individual_row_ok(line, st.event, r);
                    let s = pushed_individual(st, r);
                    let r2 = tie_ranked(r, st.out_of_competition, st.last_place);
                    assert(individual_ok(r2, ev));
                    assert forall|i: int| 0 <= i < s.individuals.len() implies individual_ok(
                        #[trigger] s.individuals[i],
                        ev,
                    ) by {
                        if i < st.individuals.len() {
                            assert(s.individuals[i] == st.individuals[i]);
                        }
                    }
                    assert forall|i: int| 0 <= i < s.out_of_competition_individuals.len() implies individual_ok(
                        #[trigger] s.out_of_competition_individuals[i],
                        ev,
                    ) by {
                        if i < st.out_of_competition_individuals.len() {
                            assert(s.out_of_competition_individuals[i] == st.out_of_competition_individuals[i]);
                        }
                    }
                }
            },
            Section::Unknown => {},
        }
    }
}

proof fn lemma_run_ok(ls: Seq<Seq<char>>, ev: EventSpec)
    ensures
        run(ls, initial_state(ev)) matches Ok(s) ==> state_ok(s, ev),
    decreases ls.len(),
{
    if ls.len() > 0 {
        lemma_run_ok(ls.drop_last(), ev);
        if let Ok(s) = run(ls.drop_last(), initial_state(ev)) {
            lemma_step_ok(s, ls.last(), ev);
        }
    }
}

/// No line is a result-list header.
pub open spec fn without_header(ls: Seq<Seq<char>>) -> bool {
    forall|i: int|
        0 <= i < ls.len() ==> !starts_with(#[trigger] ls[i], "Ergebnisliste Mannschaft"@)
            && !starts_with(ls[i], "Ergebnisliste Einzel"@)
}

proof fn lemma_run_without_header(ls: Seq<Seq<char>>, st: ParseState)
    requires
        without_header(ls),
        st.section == Section::Unknown,
        st.current_team is None,
        st.teams.len() == 0,
        st.individuals.len() == 0,
        st.out_of_competition_teams.len() == 0,
        st.out_of_competition_individuals.len() == 0,
    ensures
        run(ls, st) matches Ok(f) && f.section == Section::Unknown && f.current_team is None
            && f.teams.len() == 0 && f.individuals.len() == 0 && f.out_of_competition_teams.len()
            == 0 && f.out_of_competition_individuals.len() == 0,
    decreases ls.len(),
{
    if ls.len() > 0 {
        let init = ls.drop_last();
        assert forall|i: int|
            0 <= i < init.len() implies !starts_with(#[trigger] init[i], "Ergebnisliste Mannschaft"@)
            && !starts_with(init[i], "Ergebnisliste Einzel"@) by {
            assert(init[i] == ls[i]);
        }
        lemma_run_without_header(init, st);
        assert(!starts_with(ls[ls.len() - 1], "Ergebnisliste Mannschaft"@));
        assert(!starts_with(ls[ls.len() - 1], "Ergebnisliste Einzel"@));
    }
}

/// A text without a result-list header (no trimmed line starts with
/// `Ergebnisliste Mannschaft` or `Ergebnisliste Einzel`, as in an archery
/// score sheet) is read without error into empty result lists, under an
/// event named by its first trimmed non-empty line (empty where it has none).
pub proof fn lemma_no_header_no_results(text: Seq<char>)
    requires
        without_header(normalized_lines_of(text)),
    ensures
        parse_result(text) matches Ok(r) && r.team_results.len() == 0
            && r.individual_results.len() == 0 && r.out_of_competition_team_results.len() == 0
            && r.out_of_competition_individual_results.len() == 0 && r.event.name == (
        if normalized_lines_of(text).len() > 0 {
            normalized_lines_of(text)[0]
        } else {
            Seq::<char>::empty()
        }),
{
    let ls = normalized_lines_of(text);
    let ev = event_info(ls);
    lemma_run_without_header(ls, initial_state(ev));
    lemma_event_name(ls, EventSpec {
        name: if ls.len() > 0 { ls[0] } else { Seq::empty() },
        date: None,
        location: None,
        system: None,
        discipline_code: None,
        discipline: None,
        class_name: None,
    });
}

proof fn lemma_event_name(ls: Seq<Seq<char>>, ev: EventSpec)
    ensures
        event_fold(ls, ev).name == ev.name,
    decreases ls.len(),
{
    if ls.len() > 0 {
        lemma_event_name(ls.drop_last(), ev);
    }
}

/// Every result read from a result list carries the list's event name,
/// date, location and system; and an individual result has no series
/// exactly when it was not started.
pub proof fn lemma_parsed_rows_fit_their_list(text: Seq<char>)
    ensures
        parse_result(text) matches Ok(r) ==> {
            &&& forall|i: int| 0 <= i < r.team_results.len() ==> team_ok(#[trigger] r.team_results[i], r.event)
            &&& forall|i: int| 0 <= i < r.out_of_competition_team_results.len() ==> team_ok(
                #[trigger] r.out_of_competition_team_results[i],
                r.event,
            )
            &&& forall|i: int| 0 <= i < r.individual_results.len() ==> individual_ok(
                #[trigger] r.individual_results[i],
                r.event,
            )
            &&& forall|i: int| 0 <= i < r.out_of_competition_individual_results.len() ==> individual_ok(
                #[trigger] r.out_of_competition_individual_results[i],
                r.event,
            )
        },
{
    let ls = normalized_lines_of(text);
    let ev = event_info(ls);
    lemma_run_ok(ls, ev);
    if let Ok(st) = run(ls, initial_state(ev)) {
        lemma_flushed_ok(st, ev);
    }
}
} // verus!
