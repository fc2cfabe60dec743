//! Club names: canonical spellings, aliases and matching against free text.
use vstd::prelude::*;

use crate::text::{all_digits, all_digits_vec, alphanumeric, append_chars, append_str, chars_of, lower_chars, collapse_chars, collapse_ws, contains, contains_chars, contains_str, copy_chars, ends_with, ends_with_chars, eq_chars, eq_ignore_ascii_case, eq_ignore_ascii_case_chars, eq_str, find_chars, lex_less, lex_lt, index_of, is_alphanumeric_char, is_ascii_alnum, is_ascii_alnum_char, is_ascii_ws, is_digit, is_digit_char, join, join_chars, lead_len, lemma_index_of, lemma_lead_len, lemma_trail_len, lines, lowercase_of, parse_unsigned, parse_unsigned_chars, replace, replace_str, rsplit_once, rsplit_once_char, slice_chars, ascending, lemma_ascending, sorted_insert, sorted_strict, split_lines, split_once, split_once_str, split_words, starts_with, starts_with_chars, starts_with_str, string_of, trail_len, trim, trim_chars, trim_end, trim_end_chars, trim_end_pat, trim_end_pat_chars, views, words};




use crate::sport_results::{
    individual_views, team_views, IndividualResult, IndividualSpec, Rank, ResultListSpec,
    SportResultList, TeamResult, TeamSpec,
};
use crate::export::models::{match_views, ExtractedPdf, MatchView, ParticipationMatch};
use crate::web::{keys_sorted, map_insert};
use std::path::PathBuf;



verus! {

broadcast use vstd::string::group_string_axioms;

// ---------------------------------------------------------------------------
// Specifications
// ---------------------------------------------------------------------------

pub open spec fn is_sep_char(c: char) -> bool {
    is_ascii_ws(c) || c == '.' || c == '-'
}

pub open spec fn is_dot(c: char) -> bool {
    c == '.'
}

/// The club prefixes after which a leading number is an association code.
pub open spec fn is_known_club_prefix_spec(s: Seq<char>) -> bool {
    ||| starts_with(s, "Sch"@)
    ||| starts_with(s, "Ahrensburger"@)
    ||| starts_with(s, "BSch"@)
    ||| starts_with(s, "Bürgersch"@)
    ||| starts_with(s, "TSV"@)
}

/// A club name without its leading association number, where one is there
/// and a known club prefix follows it.
pub open spec fn numeric_prefix_stripped(v: Seq<char>) -> Option<Seq<char>> {
    let n = lead_len(v, |c: char| is_digit(c));
    if n == 0 {
        None
    } else {
        let rest = v.skip(n as int);
        let s = rest.skip(lead_len(rest, |c: char| is_sep_char(c)) as int);
        if is_known_club_prefix_spec(s) {
            Some(s)
        } else {
            None
        }
    }
}

/// `s` without leading and trailing dots (`str::trim_matches('.')`).
pub open spec fn trim_dots(s: Seq<char>) -> Seq<char> {
    let t = s.skip(lead_len(s, |c: char| is_dot(c)) as int);
    t.take(t.len() - trail_len(t, |c: char| is_dot(c)))
}

/// A roman team number from one to ten.
pub open spec fn is_roman_numeral(s: Seq<char>) -> bool {
    ||| s == "I"@
    ||| s == "II"@
    ||| s == "III"@
    ||| s == "IV"@
    ||| s == "V"@
    ||| s == "VI"@
    ||| s == "VII"@
    ||| s == "VIII"@
    ||| s == "IX"@
    ||| s == "X"@
}

/// A club name without a trailing team number (arabic or roman), where it
/// ends with one.
pub open spec fn team_suffix_stripped(v: Seq<char>) -> Option<Seq<char>> {
    match rsplit_once(v, ' ') {
        None => None,
        Some((name, suffix)) => {
            let sfx = trim_dots(suffix);
            if all_digits(sfx) || is_roman_numeral(sfx) {
                Some(trim(trim_end_pat(name, " -"@)))
            } else {
                None
            }
        },
    }
}

proof fn lemma_last_index_after(a: Seq<char>, c: char, b: Seq<char>)
    requires
        forall|i: int| 0 <= i < b.len() ==> b[i] != c,
    ensures
        crate::text::last_index_of(a + seq![c] + b, c) == a.len(),
    decreases b.len(),
{
    let s = a + seq![c] + b;
    if b.len() > 0 {
        assert(s.last() == b.last());
        assert(s.drop_last() =~= a + seq![c] + b.drop_last());
        lemma_last_index_after(a, c, b.drop_last());
    } else {
        assert(s.last() == c);
    }
}

/// A word without dots is its own `trim_dots`.
proof fn lemma_trim_dots_plain(w: Seq<char>)
    requires
        forall|i: int| 0 <= i < w.len() ==> w[i] != '.',
    ensures
        trim_dots(w) == w,
{
    if w.len() > 0 {
        lemma_lead_len(w, |c: char| is_dot(c), 0);
        assert(w.skip(0) =~= w);
        lemma_trail_len(w, |c: char| is_dot(c), 0);
        assert(w.take(w.len() as int) =~= w);
    } else {
        assert(w.skip(0) =~= w);
        assert(w.take(0) =~= w);
    }
}

/// A club name followed by a space and a team number, in arabic digits or a
/// roman numeral from I to X, loses the number: what is left is the name
/// without trailing ` -` and surrounding white space.
pub proof fn lemma_team_number_dropped(name: Seq<char>, number: Seq<char>)
    requires
        ({
            ||| number == "I"@
            ||| number == "II"@
            ||| number == "III"@
            ||| number == "IV"@
            ||| number == "V"@
            ||| number == "VI"@
            ||| number == "VII"@
            ||| number == "VIII"@
            ||| number == "IX"@
            ||| number == "X"@
            ||| (forall|i: int| 0 <= i < number.len() ==> '0' <= #[trigger] number[i] <= '9')
        }),
    ensures
        team_suffix_stripped(name + " "@ + number) == Some(trim(trim_end_pat(name, " -"@))),
{
    reveal_strlit(" ");
    reveal_strlit("I");
    reveal_strlit("II");
    reveal_strlit("III");
    reveal_strlit("IV");
    reveal_strlit("V");
    reveal_strlit("VI");
    reveal_strlit("VII");
    reveal_strlit("VIII");
    reveal_strlit("IX");
    reveal_strlit("X");
    assert(forall|i: int| 0 <= i < number.len() ==> number[i] != ' ' && number[i] != '.');
    let v = name + " "@ + number;
    assert(" "@ =~= seq![' ']);
    lemma_last_index_after(name, ' ', number);
    assert(v.take(name.len() as int) =~= name);
    assert(v.skip(name.len() as int + 1) =~= number);
    lemma_trim_dots_plain(number);
    if forall|i: int| 0 <= i < number.len() ==> '0' <= #[trigger] number[i] <= '9' {
        assert(all_digits(number));
    } else {
        assert(is_roman_numeral(number));
    }
}

proof fn lemma_replace_absent(s: Seq<char>, p: Seq<char>, q: Seq<char>)
    requires
        p.len() > 0,
        !contains(s, p),
    ensures
        replace(s, p, q) == s,
{
    lemma_index_of(s, p);
}

/// Replacing in a text followed by a space and more: where the pattern has
/// no space and does not occur in what follows, only the text changes.
proof fn lemma_replace_before_space(a: Seq<char>, b: Seq<char>, p: Seq<char>, q: Seq<char>)
    requires
        p.len() > 0,
        forall|i: int| 0 <= i < p.len() ==> p[i] != ' ',
        b.len() > 0,
        b[0] == ' ',
        !contains(b, p),
    ensures
        replace(a + b, p, q) == replace(a, p, q) + b,
    decreases a.len(),
{
    let s = a + b;
    if a.len() == 0 {
        assert(s =~= b);
        lemma_replace_absent(b, p, q);
        lemma_index_of(a, p);
        assert(replace(a, p, q) == a);
        assert(a + b =~= b);
    } else if crate::text::occurs_at(s, p, 0) {
        if p.len() > a.len() {
            assert(s.subrange(0, p.len() as int)[a.len() as int] == s[a.len() as int]);
            assert(s[a.len() as int] == b[0]);
            assert(false);
        }
        assert(a.subrange(0, p.len() as int) =~= s.subrange(0, p.len() as int));
        assert(crate::text::occurs_at(a, p, 0));
        crate::text::lemma_replace_hit(s, p, q);
        crate::text::lemma_replace_hit(a, p, q);
        assert(s.skip(p.len() as int) =~= a.skip(p.len() as int) + b);
        lemma_replace_before_space(a.skip(p.len() as int), b, p, q);
        assert(q + (replace(a.skip(p.len() as int), p, q) + b) =~= (q + replace(a.skip(p.len() as int), p, q))
            + b);
    } else {
        if crate::text::occurs_at(a, p, 0) {
            assert(s.subrange(0, p.len() as int) =~= a.subrange(0, p.len() as int));
        }
        crate::text::lemma_replace_step(s, p, q);
        crate::text::lemma_replace_step(a, p, q);
        assert(s.drop_first() =~= a.drop_first() + b);
        lemma_replace_before_space(a.drop_first(), b, p, q);
        assert(seq![a[0]] + (replace(a.drop_first(), p, q) + b) =~= (seq![a[0]] + replace(a.drop_first(), p, q))
            + b);
    }
}

/// Replacing keeps a text non-empty, and its first character is the text's
/// own unless the pattern stands at the start.
proof fn lemma_replace_first(s: Seq<char>, p: Seq<char>, q: Seq<char>)
    requires
        s.len() > 0,
        p.len() > 0,
        q.len() > 0,
    ensures
        replace(s, p, q).len() > 0,
        s[0] != p[0] ==> replace(s, p, q)[0] == s[0],
        replace(s, p, q)[0] == s[0] || replace(s, p, q)[0] == q[0],
{
    if crate::text::occurs_at(s, p, 0) {
        assert(s.subrange(0, p.len() as int)[0] == s[0]);
        crate::text::lemma_replace_hit(s, p, q);
    } else {
        crate::text::lemma_replace_step(s, p, q);
    }
}

/// A team number: a roman numeral from I to X, or ASCII digits.
pub open spec fn team_number_word(r: Seq<char>) -> bool {
    ||| r == "I"@
    ||| r == "II"@
    ||| r == "III"@
    ||| r == "IV"@
    ||| r == "V"@
    ||| r == "VI"@
    ||| r == "VII"@
    ||| r == "VIII"@
    ||| r == "IX"@
    ||| r == "X"@
    ||| (r.len() > 0 && forall|i: int| 0 <= i < r.len() ==> '0' <= #[trigger] r[i] <= '9')
}

proof fn lemma_team_number_chars(r: Seq<char>)
    requires
        team_number_word(r),
    ensures
        r.len() > 0,
        forall|i: int|
            0 <= i < r.len() ==> (#[trigger] r[i] == 'I' || r[i] == 'V' || r[i] == 'X' || ('0' <= r[i] <= '9')),
{
    reveal_strlit("I");
    reveal_strlit("II");
    reveal_strlit("III");
    reveal_strlit("IV");
    reveal_strlit("V");
    reveal_strlit("VI");
    reveal_strlit("VII");
    reveal_strlit("VIII");
    reveal_strlit("IX");
    reveal_strlit("X");
}

/// A space and a team number hold none of the abbreviations.
proof fn lemma_no_abbreviation_in_number(r: Seq<char>, p: Seq<char>)
    requires
        team_number_word(r),
        p.len() > 0,
        p[0] == 'B' || p[0] == 'S',
    ensures
        !contains(seq![' '] + r, p),
{
    lemma_team_number_chars(r);
    let b = seq![' '] + r;
    assert forall|i: int| !crate::text::occurs_at(b, p, i) by {
        if crate::text::occurs_at(b, p, i) {
            assert(b.subrange(i, i + p.len())[0] == b[i]);
            if i > 0 {
                assert(b[i] == r[i - 1]);
            }
        }
    }
}

/// The abbreviations written out in a name followed by a space and a team
/// number: only the name changes.
proof fn lemma_expanded_before_number(x: Seq<char>, r: Seq<char>)
    requires
        team_number_word(r),
    ensures
        expanded_abbreviations(x + seq![' '] + r) == expanded_abbreviations(x) + seq![' '] + r,
{
    reveal_strlit("BSchG");
    reveal_strlit("SchG");
    reveal_strlit("SchV");
    let b = seq![' '] + r;
    assert(x + seq![' '] + r =~= x + b);
    let p1 = "BSchG"@;
    let p2 = "SchG"@;
    let p3 = "SchV"@;
    assert(p1.len() == 5 && p1[0] == 'B' && p1[1] == 'S' && p1[2] == 'c' && p1[3] == 'h' && p1[4] == 'G');
    assert(p2.len() == 4 && p2[0] == 'S' && p2[1] == 'c' && p2[2] == 'h' && p2[3] == 'G');
    assert(p3.len() == 4 && p3[0] == 'S' && p3[1] == 'c' && p3[2] == 'h' && p3[3] == 'V');
    lemma_no_abbreviation_in_number(r, p1);
    lemma_no_abbreviation_in_number(r, p2);
    lemma_no_abbreviation_in_number(r, p3);
    let q1 = "Bürgerschützengilde"@;
    let q2 = "Schützengilde"@;
    let q3 = "Schützenverein"@;
    lemma_replace_before_space(x, b, p1, q1);
    let r1 = replace(x, p1, q1);
    lemma_replace_before_space(r1, b, p2, q2);
    let r2 = replace(r1, p2, q2);
    lemma_replace_before_space(r2, b, p3, q3);
    assert(expanded_abbreviations(x) + b =~= expanded_abbreviations(x) + seq![' '] + r);
}

/// With its abbreviations written out, a name that does not begin with `B`
/// is not empty and still does not begin with `B`.
proof fn lemma_expanded_first(x: Seq<char>)
    requires
        x.len() > 0,
        x[0] != 'B',
    ensures
        expanded_abbreviations(x).len() > 0,
        expanded_abbreviations(x)[0] != 'B',
{
    reveal_strlit("BSchG");
    reveal_strlit("SchG");
    reveal_strlit("SchV");
    reveal_strlit("Bürgerschützengilde");
    reveal_strlit("Schützengilde");
    reveal_strlit("Schützenverein");
    let p1 = "BSchG"@;
    let q1 = "Bürgerschützengilde"@;
    let q2 = "Schützengilde"@;
    let q3 = "Schützenverein"@;
    assert(p1[0] == 'B');
    assert(q1.len() > 0 && q2.len() > 0 && q2[0] == 'S' && q3.len() > 0 && q3[0] == 'S');
    assert("SchG"@.len() > 0 && "SchV"@.len() > 0);
    lemma_replace_first(x, p1, q1);
    let r1 = replace(x, p1, q1);
    lemma_replace_first(r1, "SchG"@, q2);
    let r2 = replace(r1, "SchG"@, q2);
    lemma_replace_first(r2, "SchV"@, q3);
}

/// The teams of one club share its canonical name: a club name followed by
/// a team number (a roman numeral from I to X, or digits) has the same
/// canonical name whatever the number. It holds of every name that, with
/// its white space collapsed, is not empty and begins with neither a digit
/// nor `B` (after a leading association number, or a `BSchützengilde`
/// prefix, the team number is kept).
pub proof fn lemma_club_teams_share_canonical_name(v: Seq<char>, r1: Seq<char>, r2: Seq<char>)
    requires
        team_number_word(r1),
        team_number_word(r2),
        collapse_ws(v).len() > 0,
        !is_digit(collapse_ws(v)[0]),
        collapse_ws(v)[0] != 'B',
    ensures
        canonical_club(v + " "@ + r1) == canonical_club(v + " "@ + r2),
{
    lemma_canonical_with_team_number(v, r1);
    lemma_canonical_with_team_number(v, r2);
}

proof fn lemma_canonical_with_team_number(v: Seq<char>, r: Seq<char>)
    requires
        team_number_word(r),
        collapse_ws(v).len() > 0,
        !is_digit(collapse_ws(v)[0]),
        collapse_ws(v)[0] != 'B',
    ensures
        canonical_club(v + " "@ + r) == trim(trim_end_pat(expanded_abbreviations(collapse_ws(v)), " -"@)),
{
    reveal_strlit(" ");
    reveal_strlit("Sprenge u.Umgegend");
    reveal_strlit("BSchützengilde ");
    assert(" "@ =~= seq![' ']);
    lemma_team_number_chars(r);
    let x = collapse_ws(v);
    assert forall|i: int| 0 <= i < r.len() implies !crate::text::is_ws(#[trigger] r[i]) by {}
    crate::text::lemma_collapse_ws_after_space(v, r);
    assert(v + " "@ + r =~= v + seq![' '] + r);
    let n0 = x + seq![' '] + r;
    assert(collapse_ws(v + " "@ + r) == n0);
    assert(n0[0] == x[0]);
    assert(lead_len(n0, |c: char| is_digit(c)) == 0);
    assert(numeric_prefix_stripped(n0) is None);
    let sp = "Sprenge u.Umgegend"@;
    assert(sp.last() == 'd');
    assert(n0.last() == r.last());
    assert(n0 != sp);
    lemma_expanded_before_number(x, r);
    lemma_expanded_first(x);
    let e = expanded_abbreviations(x);
    let n2 = e + seq![' '] + r;
    assert(n2[0] == e[0]);
    assert(!starts_with(n2, "BSchützengilde "@)) by {
        if starts_with(n2, "BSchützengilde "@) {
            assert(n2.take(15)[0] == n2[0]);
        }
    }
    lemma_team_number_dropped(e, r);
    assert(e + " "@ + r =~= n2);
}

/// The club spelling after abbreviations are written out.
pub open spec fn expanded_abbreviations(n: Seq<char>) -> Seq<char> {
    replace(
        replace(replace(n, "BSchG"@, "Bürgerschützengilde"@), "SchG"@, "Schützengilde"@),
        "SchV"@,
        "Schützenverein"@,
    )
}

/// The canonical spelling of a club name: white space collapsed, a leading
/// association number dropped, abbreviations written out and a trailing team
/// number dropped.
pub open spec fn canonical_club(v: Seq<char>) -> Seq<char> {
    let n0 = collapse_ws(v);
    let n1 = match numeric_prefix_stripped(n0) {
        Some(x) => x,
        None => n0,
    };
    if n1 == "Sprenge u.Umgegend"@ {
        "Schützenverein Sprenge"@
    } else {
        let n2 = expanded_abbreviations(n1);
        if starts_with(n2, "BSchützengilde "@) {
            "Bürgerschützengilde "@ + n2.skip("BSchützengilde "@.len() as int)
        } else {
            match team_suffix_stripped(n2) {
                Some(x) => x,
                None => n2,
            }
        }
    }
}

/// The canonical name with `Schützengilde`/`Schützenverein` abbreviated again.
pub open spec fn abbreviated_club(canonical: Seq<char>) -> Seq<char> {
    replace(replace(canonical, "Schützengilde"@, "SchG"@), "Schützenverein"@, "SchV"@)
}

pub open spec fn opt_set(o: Option<Seq<char>>) -> Set<Seq<char>> {
    match o {
        Some(x) => set![x],
        None => Set::empty(),
    }
}

/// The spellings under which a club may appear in a result list.
pub open spec fn club_alias_set(club: Seq<char>) -> Set<Seq<char>> {
    let canonical = canonical_club(club);
    let abbreviated = abbreviated_club(canonical);
    let with_short = set![club, canonical, abbreviated] + opt_set(numeric_prefix_stripped(club))
        + opt_set(numeric_prefix_stripped(canonical)) + opt_set(
        numeric_prefix_stripped(abbreviated),
    );
    if canonical == "Schützenverein Sprenge"@ {
        with_short.insert("Sprenge u.Umgegend"@)
    } else {
        with_short
    }
}

/// Each character of `s` that is a letter or digit, lowercased; any other
/// character a space.
pub open spec fn match_chars(s: Seq<char>) -> Seq<char>
    decreases s.len(),
{
    if s.len() == 0 {
        Seq::empty()
    } else {
        match_chars(s.drop_last()) + if alphanumeric(s.last()) {
            lower_chars(s.last())
        } else {
            seq![' ']
        }
    }
}

/// Text reduced for club matching: lowercase letters and digits, words
/// separated by single spaces.
pub open spec fn match_text(s: Seq<char>) -> Seq<char> {
    collapse_ws(match_chars(s))
}

/// The character sequences of a list of strings.
pub open spec fn strs(v: Seq<String>) -> Seq<Seq<char>> {
    v.map_values(|x: String| x@)
}

// ---------------------------------------------------------------------------
// Implementation
// ---------------------------------------------------------------------------

/// The number of leading ASCII digits of `s`.
fn lead_digits(s: &Vec<char>) -> (n: usize)
    ensures
        n == lead_len(s@, |c: char| is_digit(c)),
        n <= s.len(),
{
    let mut i: usize = 0;
    while i < s.len() && is_digit_char(s[i])
        invariant
            0 <= i <= s.len(),
            forall|j: int| 0 <= j < i ==> is_digit(#[trigger] s@[j]),
        decreases s.len() - i,
    {
        i += 1;
    }
    proof {
        lemma_lead_len(s@, |c: char| is_digit(c), i as int);
    }
    i
}

/// The number of leading ASCII white space characters, dots and dashes.
fn lead_seps(s: &Vec<char>) -> (n: usize)
    ensures
        n == lead_len(s@, |c: char| is_sep_char(c)),
        n <= s.len(),
{
    let mut i: usize = 0;
    while i < s.len() && (s[i] == ' ' || s[i] == '\t' || s[i] == '\n' || s[i] == '\u{c}' || s[i]
        == '\r' || s[i] == '.' || s[i] == '-')
        invariant
            0 <= i <= s.len(),
            forall|j: int| 0 <= j < i ==> is_sep_char(#[trigger] s@[j]),
        decreases s.len() - i,
    {
        i += 1;
    }
    proof {
        lemma_lead_len(s@, |c: char| is_sep_char(c), i as int);
    }
    i
}

/// Whether a club name starts with one of the known club prefixes.
pub fn is_known_club_prefix(value: &Vec<char>) -> (r: bool)
    ensures
        r == is_known_club_prefix_spec(value@),
{
    starts_with_str(value, "Sch") || starts_with_str(value, "Ahrensburger") || starts_with_str(
        value,
        "BSch",
    ) || starts_with_str(value, "Bürgersch") || starts_with_str(value, "TSV")
}

/// A club name without its leading association number ("012 SchV X" gives
/// "SchV X"); `None` when there is none or no known club prefix follows.
pub fn club_name_without_numeric_prefix_chars(value: &Vec<char>) -> (r: Option<Vec<char>>)
    ensures
        match (r, numeric_prefix_stripped(value@)) {
            (Some(a), Some(b)) => a@ == b,
            (None, None) => true,
            _ => false,
        },
{
    let n = lead_digits(value);
    if n == 0 {
        return None;
    }
    let rest = slice_chars(value, n, value.len());
    assert(rest@ =~= value@.skip(n as int));
    let m = lead_seps(&rest);
    let stripped = slice_chars(&rest, m, rest.len());
    assert(stripped@ =~= rest@.skip(m as int));
    if is_known_club_prefix(&stripped) {
        Some(stripped)
    } else {
        None
    }
}

/// `club_name_without_numeric_prefix` on strings.
pub fn club_name_without_numeric_prefix(value: &str) -> (r: Option<String>)
    ensures
        match (r, numeric_prefix_stripped(value@)) {
            (Some(a), Some(b)) => a@ == b,
            (None, None) => true,
            _ => false,
        },
{
    let v = chars_of(value);
    match club_name_without_numeric_prefix_chars(&v) {
        Some(s) => Some(string_of(&s)),
        None => None,
    }
}

/// `str::trim_matches('.')`.
pub(crate) fn trim_dots_chars(s: &Vec<char>) -> (r: Vec<char>)
    ensures
        r@ == trim_dots(s@),
{
    let mut i: usize = 0;
    while i < s.len() && s[i] == '.'
        invariant
            0 <= i <= s.len(),
            forall|j: int| 0 <= j < i ==> is_dot(#[trigger] s@[j]),
        decreases s.len() - i,
    {
        i += 1;
    }
    proof {
        lemma_lead_len(s@, |c: char| is_dot(c), i as int);
    }
    let t = slice_chars(s, i, s.len());
    assert(t@ =~= s@.skip(i as int));
    let mut k: usize = 0;
    while k < t.len() && t[t.len() - 1 - k] == '.'
        invariant
            0 <= k <= t.len(),
            forall|j: int| t.len() - k <= j < t.len() ==> is_dot(#[trigger] t@[j]),
        decreases t.len() - k,
    {
        k += 1;
    }
    proof {
        lemma_trail_len(t@, |c: char| is_dot(c), k as int);
    }
    let r = slice_chars(&t, 0, t.len() - k);
    assert(r@ =~= t@.take(t.len() - k));
    r
}

/// Whether `s` is a roman numeral from I to X.
pub fn is_roman_numeral_chars(s: &Vec<char>) -> (r: bool)
    ensures
        r == is_roman_numeral(s@),
{
    eq_str(s, "I") || eq_str(s, "II") || eq_str(s, "III") || eq_str(s, "IV") || eq_str(s, "V")
        || eq_str(s, "VI") || eq_str(s, "VII") || eq_str(s, "VIII") || eq_str(s, "IX") || eq_str(
        s,
        "X",
    )
}

/// A club name without its trailing team number ("Reinfeld 1", "Kassau II").
pub fn club_name_without_team_number_suffix(value: &Vec<char>) -> (r: Option<Vec<char>>)
    ensures
        match (r, team_suffix_stripped(value@)) {
            (Some(a), Some(b)) => a@ == b,
            (None, None) => true,
            _ => false,
        },
{
    match rsplit_once_char(value, ' ') {
        None => None,
        Some((name, suffix)) => {
            let sfx = trim_dots_chars(&suffix);
            if all_digits_vec(&sfx) || is_roman_numeral_chars(&sfx) {
                let pat = chars_of(" -");
                proof {
                    reveal_strlit(" -");
                }
                let without_dash = trim_end_pat_chars(&name, &pat);
                Some(trim_chars(&without_dash))
            } else {
                None
            }
        },
    }
}

/// `canonical_club_name` on character vectors.
pub fn canonical_club_chars(value: &Vec<char>) -> (r: Vec<char>)
    ensures
        r@ == canonical_club(value@),
{
    let n0 = collapse_chars(value);
    let n1 = match club_name_without_numeric_prefix_chars(&n0) {
        Some(x) => x,
        None => n0,
    };
    if eq_str(&n1, "Sprenge u.Umgegend") {
        return chars_of("Schützenverein Sprenge");
    }
    proof {
        reveal_strlit("BSchG");
        reveal_strlit("SchG");
        reveal_strlit("SchV");
    }
    let n2a = replace_str(&n1, "BSchG", "Bürgerschützengilde");
    let n2b = replace_str(&n2a, "SchG", "Schützengilde");
    let n2 = replace_str(&n2b, "SchV", "Schützenverein");
    if starts_with_str(&n2, "BSchützengilde ") {
        let prefix_len = chars_of("BSchützengilde ").len();
        let rest = slice_chars(&n2, prefix_len, n2.len());
        assert(rest@ =~= n2@.skip("BSchützengilde "@.len() as int));
        let mut out = chars_of("Bürgerschützengilde ");
        append_chars(&mut out, &rest);
        return out;
    }
    match club_name_without_team_number_suffix(&n2) {
        Some(x) => x,
        None => n2,
    }
}

/// The canonical spelling of a club name: "080 SchV Reinfeld 1" becomes
/// "Schützenverein Reinfeld".
pub fn canonical_club_name(value: &str) -> (r: String)
    ensures
        r@ == canonical_club(value@),
{
    let v = chars_of(value);
    let c = canonical_club_chars(&v);
    string_of(&c)
}

/// Strings made of the given character vectors.
pub fn strings_of(v: &Vec<Vec<char>>) -> (r: Vec<String>)
    ensures
        strs(r@) == views(v@),
{
    let mut r: Vec<String> = Vec::new();
    let mut i: usize = 0;
    while i < v.len()
        invariant
            0 <= i <= v.len(),
            strs(r@) == views(v@).take(i as int),
        decreases v.len() - i,
    {
        let s = string_of(&v[i]);
        let ghost old_r = r@;
        r.push(s);
        assert(r@ == old_r.push(s));
        assert(strs(r@) =~= strs(old_r).push(s@));
        assert(views(v@).take(i + 1) =~= views(v@).take(i as int).push(v@[i as int]@));
        i += 1;
    }
    assert(views(v@).take(v.len() as int) =~= views(v@));
    r
}

/// Character vectors of the given strings.
pub fn chars_of_all(v: &Vec<String>) -> (r: Vec<Vec<char>>)
    ensures
        views(r@) == strs(v@),
{
    let mut r: Vec<Vec<char>> = Vec::new();
    let mut i: usize = 0;
    while i < v.len()
        invariant
            0 <= i <= v.len(),
            views(r@) == strs(v@).take(i as int),
        decreases v.len() - i,
    {
        let s = chars_of(v[i].as_str());
        let ghost old_r = r@;
        r.push(s);
        assert(r@ == old_r.push(s));
        assert(views(r@) =~= views(old_r).push(s@));
        assert(strs(v@).take(i + 1) =~= strs(v@).take(i as int).push(v@[i as int]@));
        i += 1;
    }
    assert(strs(v@).take(v.len() as int) =~= strs(v@));
    r
}

/// `club_aliases` on character vectors: the spellings in ascending order.
pub fn club_aliases_chars(club: &Vec<char>) -> (r: Vec<Vec<char>>)
    ensures
        sorted_strict(views(r@)),
        views(r@).to_set() == club_alias_set(club@),
{
    let canonical = canonical_club_chars(club);
    proof {
        reveal_strlit("Schützengilde");
        reveal_strlit("Schützenverein");
    }
    let a1 = replace_str(&canonical, "Schützengilde", "SchG");
    let abbreviated = replace_str(&a1, "Schützenverein", "SchV");
    let mut aliases: Vec<Vec<char>> = Vec::new();
    assert(views(aliases@) =~= Seq::<Seq<char>>::empty());
    assert(views(aliases@).to_set() =~= Set::<Seq<char>>::empty());
    sorted_insert(&mut aliases, copy_chars(club));
    sorted_insert(&mut aliases, copy_chars(&canonical));
    sorted_insert(&mut aliases, copy_chars(&abbreviated));
    match club_name_without_numeric_prefix_chars(club) {
        Some(x) => sorted_insert(&mut aliases, x),
        None => {},
    }
    match club_name_without_numeric_prefix_chars(&canonical) {
        Some(x) => sorted_insert(&mut aliases, x),
        None => {},
    }
    match club_name_without_numeric_prefix_chars(&abbreviated) {
        Some(x) => sorted_insert(&mut aliases, x),
        None => {},
    }
    if eq_str(&canonical, "Schützenverein Sprenge") {
        sorted_insert(&mut aliases, chars_of("Sprenge u.Umgegend"));
    }
    assert(views(aliases@).to_set() =~= club_alias_set(club@));
    aliases
}

/// The spellings under which a club may appear in a result list, in
/// ascending order: the name itself, its canonical and abbreviated forms and
/// those forms without a leading association number.
pub fn club_aliases(club: &str) -> (r: Vec<String>)
    ensures
        sorted_strict(strs(r@)),
        strs(r@).to_set() == club_alias_set(club@),
{
    let v = chars_of(club);
    let a = club_aliases_chars(&v);
    strings_of(&a)
}

/// `match_chars` on a character vector.
fn match_chars_vec(s: &Vec<char>) -> (r: Vec<char>)
    ensures
        r@ == match_chars(s@),
{
    let mut r: Vec<char> = Vec::new();
    let mut i: usize = 0;
    while i < s.len()
        invariant
            0 <= i <= s.len(),
            r@ == match_chars(s@.take(i as int)),
        decreases s.len() - i,
    {
        let c = s[i];
        assert(s@.take(i + 1).drop_last() =~= s@.take(i as int));
        assert(s@.take(i + 1).last() == c);
        if is_alphanumeric_char(c) {
            let low = lowercase_of(c);
            append_chars(&mut r, &low);
        } else {
            r.push(' ');
            assert(r@ =~= match_chars(s@.take(i as int)) + seq![' ']);
        }
        i += 1;
    }
    assert(s@.take(s.len() as int) =~= s@);
    r
}

/// `normalize_match_text` on character vectors.
pub fn normalize_match_chars(s: &Vec<char>) -> (r: Vec<char>)
    ensures
        r@ == match_text(s@),
{
    let m = match_chars_vec(s);
    collapse_chars(&m)
}

/// Text reduced for club matching: letters and digits lowercased, anything
/// else a separator, words joined by single spaces.
pub fn normalize_match_text(value: &str) -> (r: String)
    ensures
        r@ == match_text(value@),
{
    let v = chars_of(value);
    let r = normalize_match_chars(&v);
    string_of(&r)
}

/// White space runs collapsed to single spaces, none at the ends.
pub fn collapse_whitespace(value: &str) -> (r: String)
    ensures
        r@ == collapse_ws(value@),
{
    let v = chars_of(value);
    let r = collapse_chars(&v);
    string_of(&r)
}

// ---------------------------------------------------------------------------
// Associations and sources
// ---------------------------------------------------------------------------

/// The association filter `all` (in any ASCII case) admits every association;
/// any other filter admits the association it names.
pub open spec fn association_admitted(association: Seq<char>, filter: Seq<char>) -> bool {
    eq_ignore_ascii_case(filter, "all"@) || association == filter
}

/// Whether an association passes a filter.
pub fn association_matches(association: &str, filter: &str) -> (r: bool)
    ensures
        r == association_admitted(association@, filter@),
{
    let f = chars_of(filter);
    let all = chars_of("all");
    if eq_ignore_ascii_case_chars(&f, &all) {
        return true;
    }
    let a = chars_of(association);
    eq_chars(&a, &f)
}

/// The value of the first entry with the given key.
pub open spec fn lookup(entries: Seq<(Seq<char>, Seq<char>)>, key: Seq<char>) -> Option<Seq<char>>
    decreases entries.len(),
{
    if entries.len() == 0 {
        None
    } else if entries[0].0 == key {
        Some(entries[0].1)
    } else {
        lookup(entries.drop_first(), key)
    }
}

pub open spec fn pair_views(v: Seq<(String, String)>) -> Seq<(Seq<char>, Seq<char>)> {
    v.map_values(|p: (String, String)| (p.0@, p.1@))
}

/// The association code of a Meyton club: the code known for its canonical
/// name, else the fallback. `known` holds club names and association codes,
/// one entry per club, as a map does.
pub fn meyton_association_code(club: &str, known: &Vec<(String, String)>, fallback: &str) -> (r:
    String)
    ensures
        r@ == match lookup(pair_views(known@), canonical_club(club@)) {
            Some(code) => code,
            None => fallback@,
        },
{
    let key = chars_of(&canonical_club_name(club));
    let ghost entries = pair_views(known@);
    assert(entries.skip(0) =~= entries);
    let mut i: usize = 0;
    while i < known.len()
        invariant
            0 <= i <= known.len(),
            entries == pair_views(known@),
            key@ == canonical_club(club@),
            lookup(entries, key@) == lookup(entries.skip(i as int), key@),
        decreases known.len() - i,
    {
        assert(entries.skip(i as int).drop_first() =~= entries.skip(i + 1));
        assert(entries.skip(i as int)[0] == (known@[i as int].0@, known@[i as int].1@));
        let k = chars_of(&known[i].0);
        if eq_chars(&k, &key) {
            return known[i].1.clone();
        }
        i += 1;
    }
    String::from_str(fallback)
}

/// `LM` and `DM` for the state and national championship sources, else the
/// source name itself.
pub open spec fn display_name(source: Seq<char>) -> Seq<char> {
    if contains(source, "landesmeisterschaften"@) || source == "LM"@ {
        "LM"@
    } else if contains(source, "deutsche-meisterschaften"@) || source == "DM"@ {
        "DM"@
    } else {
        source
    }
}

/// The short name under which a source is shown.
pub fn source_display_name(source_name: &str) -> (r: String)
    ensures
        r@ == display_name(source_name@),
{
    let s = chars_of(source_name);
    if contains_str(&s, "landesmeisterschaften") || eq_str(&s, "LM") {
        String::from_str("LM")
    } else if contains_str(&s, "deutsche-meisterschaften") || eq_str(&s, "DM") {
        String::from_str("DM")
    } else {
        String::from_str(source_name)
    }
}

/// The district an association code stands for.
pub open spec fn association_district(code: Seq<char>) -> Seq<char> {
    if code == "OD"@ {
        "Stormarn"@
    } else if code == "RZ"@ {
        "Herzogtum Lauenburg"@
    } else if code == "NF"@ {
        "Nordfriesland"@
    } else if code == "PI"@ {
        "Pinneberg"@
    } else if code == "SE"@ {
        "Segeberg"@
    } else if code == "RD"@ {
        "Rendsburg-Eckernförde"@
    } else if code == "KI"@ {
        "Kiel"@
    } else if code == "HL"@ {
        "Lübeck"@
    } else if code == "SL"@ {
        "Schleswig-Flensburg"@
    } else if code == "IZ"@ {
        "Steinburg"@
    } else if code == "HEI"@ {
        "Dithmarschen"@
    } else if code == "OH"@ {
        "Ostholstein"@
    } else if code == "PLÖ"@ {
        "Plön"@
    } else if code == "FL"@ {
        "Flensburg"@
    } else if code == "NMS"@ {
        "Neumünster"@
    } else {
        code
    }
}

/// The district name of an association code; an unknown code stands for
/// itself.
pub fn association_name(association_code: &str) -> (r: String)
    ensures
        r@ == association_district(association_code@),
{
    let c = chars_of(association_code);
    let name = if eq_str(&c, "OD") {
        "Stormarn"
    } else if eq_str(&c, "RZ") {
        "Herzogtum Lauenburg"
    } else if eq_str(&c, "NF") {
        "Nordfriesland"
    } else if eq_str(&c, "PI") {
        "Pinneberg"
    } else if eq_str(&c, "SE") {
        "Segeberg"
    } else if eq_str(&c, "RD") {
        "Rendsburg-Eckernförde"
    } else if eq_str(&c, "KI") {
        "Kiel"
    } else if eq_str(&c, "HL") {
        "Lübeck"
    } else if eq_str(&c, "SL") {
        "Schleswig-Flensburg"
    } else if eq_str(&c, "IZ") {
        "Steinburg"
    } else if eq_str(&c, "HEI") {
        "Dithmarschen"
    } else if eq_str(&c, "OH") {
        "Ostholstein"
    } else if eq_str(&c, "PLÖ") {
        "Plön"
    } else if eq_str(&c, "FL") {
        "Flensburg"
    } else if eq_str(&c, "NMS") {
        "Neumünster"
    } else {
        association_code
    };
    String::from_str(name)
}

/// `code - name`, or the code alone where the name is empty or the code.
pub open spec fn label_of(code: Seq<char>, name: Seq<char>) -> Seq<char> {
    if name.len() == 0 || name == code {
        code
    } else {
        code + " - "@ + name
    }
}

/// The label of an association.
pub fn association_label(code: &str, name: &str) -> (r: String)
    ensures
        r@ == label_of(code@, name@),
{
    let c = chars_of(code);
    let n = chars_of(name);
    if n.len() == 0 || eq_chars(&n, &c) {
        return String::from_str(code);
    }
    let mut out = copy_chars(&c);
    append_str(&mut out, " - ");
    append_chars(&mut out, &n);
    string_of(&out)
}

/// The place of a ranked result; `None` for not started and out of
/// competition.
pub fn place_from_rank(rank: &Rank) -> (r: Option<u32>)
    ensures
        r == match *rank {
            Rank::Place(p) => Some(p),
            _ => None::<u32>,
        },
{
    match rank {
        Rank::Place(p) => Some(*p),
        _ => None,
    }
}

// ---------------------------------------------------------------------------
// Meyton result lists
// ---------------------------------------------------------------------------

/// Meyton result lists name the system or print ranklists and finals.
pub open spec fn meyton_marked(text: Seq<char>) -> bool {
    contains(text, "Meyton"@) || contains(text, "Ranklist"@) || contains(text, "Finale"@)
}

/// Whether extracted text comes from a Meyton result list.
pub fn is_meyton_text(text: &str) -> (r: bool)
    ensures
        r == meyton_marked(text@),
{
    let v = chars_of(text);
    contains_str(&v, "Meyton") || contains_str(&v, "Ranklist") || contains_str(&v, "Finale")
}

/// A Meyton final names its event on a line with `_K` and `Finale`.
pub open spec fn meyton_event(line: Seq<char>) -> Option<Seq<char>> {
    let t = trim(line);
    if contains(t, "_K"@) && contains(t, "Finale"@) {
        Some(t)
    } else {
        None
    }
}

/// The event name of a Meyton final, read from one line.
pub fn meyton_event_name(line: &str) -> (r: Option<String>)
    ensures
        match (r, meyton_event(line@)) {
            (Some(a), Some(b)) => a@ == b,
            (None, None) => true,
            _ => false,
        },
{
    let v = chars_of(line);
    let t = trim_chars(&v);
    if contains_str(&t, "_K") && contains_str(&t, "Finale") {
        Some(string_of(&t))
    } else {
        None
    }
}

/// A Meyton discipline code: `K` followed by ASCII digits.
pub open spec fn is_k_code(p: Seq<char>) -> bool {
    p.len() >= 1 && p[0] == 'K' && all_digits(p.skip(1))
}

/// Reading `s` from the left with the run `cur` of ASCII letters and digits
/// just before it: the first complete run that is a discipline code.
pub open spec fn k_code_scan(s: Seq<char>, cur: Seq<char>) -> Option<Seq<char>>
    decreases s.len(),
{
    if s.len() == 0 {
        if is_k_code(cur) {
            Some(cur)
        } else {
            None
        }
    } else if is_ascii_alnum(s[0]) {
        k_code_scan(s.drop_first(), cur.push(s[0]))
    } else if is_k_code(cur) {
        Some(cur)
    } else {
        k_code_scan(s.drop_first(), Seq::empty())
    }
}

/// The first line that holds a discipline code gives it: the first run of
/// ASCII letters and digits on that line that is `K` and digits.
pub open spec fn meyton_code(ls: Seq<Seq<char>>) -> Option<Seq<char>>
    decreases ls.len(),
{
    if ls.len() == 0 {
        None
    } else {
        match k_code_scan(ls[0], Seq::empty()) {
            Some(c) => Some(c),
            None => meyton_code(ls.drop_first()),
        }
    }
}

fn is_k_code_chars(p: &Vec<char>) -> (r: bool)
    ensures
        r == is_k_code(p@),
{
    if p.len() == 0 || p[0] != 'K' {
        return false;
    }
    let rest = slice_chars(p, 1, p.len());
    assert(rest@ =~= p@.skip(1));
    all_digits_vec(&rest)
}

fn k_code_in_line(line: &Vec<char>) -> (r: Option<Vec<char>>)
    ensures
        match (r, k_code_scan(line@, Seq::empty())) {
            (Some(a), Some(b)) => a@ == b,
            (None, None) => true,
            _ => false,
        },
{
    let mut cur: Vec<char> = Vec::new();
    let mut i: usize = 0;
    assert(line@.skip(0) =~= line@);
    while i < line.len()
        invariant
            0 <= i <= line.len(),
            k_code_scan(line@, Seq::empty()) == k_code_scan(line@.skip(i as int), cur@),
        decreases line.len() - i,
    {
        let c = line[i];
        assert(line@.skip(i as int)[0] == c);
        assert(line@.skip(i as int).drop_first() =~= line@.skip(i + 1));
        if is_ascii_alnum_char(c) {
            cur.push(c);
        } else {
            if is_k_code_chars(&cur) {
                return Some(cur);
            }
            cur = Vec::new();
        }
        i += 1;
    }
    if is_k_code_chars(&cur) {
        Some(cur)
    } else {
        None
    }
}

/// The discipline code of a Meyton result list (`K40`, ...).
pub fn meyton_discipline_code(text: &str) -> (r: Option<String>)
    ensures
        match (r, meyton_code(lines(text@))) {
            (Some(a), Some(b)) => a@ == b,
            (None, None) => true,
            _ => false,
        },
{
    let v = chars_of(text);
    let ls = split_lines(&v);
    let ghost lv = views(ls@);
    assert(lv.skip(0) =~= lv);
    let mut i: usize = 0;
    while i < ls.len()
        invariant
            0 <= i <= ls.len(),
            lv == views(ls@),
            lv == lines(text@),
            meyton_code(lv) == meyton_code(lv.skip(i as int)),
        decreases ls.len() - i,
    {
        assert(lv.skip(i as int)[0] == ls@[i as int]@);
        assert(lv.skip(i as int).drop_first() =~= lv.skip(i + 1));
        if let Some(c) = k_code_in_line(&ls[i]) {
            return Some(string_of(&c));
        }
        i += 1;
    }
    None
}

/// The number of dots in `w`.
pub open spec fn dot_count(w: Seq<char>) -> int
    decreases w.len(),
{
    if w.len() == 0 {
        0
    } else {
        dot_count(w.drop_last()) + if w.last() == '.' {
            1int
        } else {
            0int
        }
    }
}

/// A date word: three groups of ASCII digits separated by two dots.
pub open spec fn is_date_word(w: Seq<char>) -> bool {
    &&& forall|i: int| 0 <= i < w.len() ==> is_digit(#[trigger] w[i]) || w[i] == '.'
    &&& dot_count(w) == 2
}

pub open spec fn first_date_word(ws: Seq<Seq<char>>) -> Option<Seq<char>>
    decreases ws.len(),
{
    if ws.len() == 0 {
        None
    } else if is_date_word(ws[0]) {
        Some(ws[0])
    } else {
        first_date_word(ws.drop_first())
    }
}

/// The first date word of the first line that has one.
pub open spec fn meyton_date(ls: Seq<Seq<char>>) -> Option<Seq<char>>
    decreases ls.len(),
{
    if ls.len() == 0 {
        None
    } else {
        match first_date_word(words(ls[0])) {
            Some(d) => Some(d),
            None => meyton_date(ls.drop_first()),
        }
    }
}

fn is_date_word_chars(w: &Vec<char>) -> (r: bool)
    ensures
        r == is_date_word(w@),
{
    let mut dots: usize = 0;
    let mut i: usize = 0;
    while i < w.len()
        invariant
            0 <= i <= w.len(),
            dots as int == dot_count(w@.take(i as int)),
            dots <= i,
            forall|j: int| 0 <= j < i ==> is_digit(#[trigger] w@[j]) || w@[j] == '.',
        decreases w.len() - i,
    {
        let c = w[i];
        assert(w@.take(i + 1).drop_last() =~= w@.take(i as int));
        if c == '.' {
            dots += 1;
        } else if !is_digit_char(c) {
            return false;
        }
        i += 1;
    }
    assert(w@.take(i as int) =~= w@);
    dots == 2
}

/// The date of a Meyton result list: the first word `dd.mm.yyyy`-like.
pub fn meyton_event_date(text: &str) -> (r: Option<String>)
    ensures
        match (r, meyton_date(lines(text@))) {
            (Some(a), Some(b)) => a@ == b,
            (None, None) => true,
            _ => false,
        },
{
    let v = chars_of(text);
    let ls = split_lines(&v);
    let ghost lv = views(ls@);
    assert(lv.skip(0) =~= lv);
    let mut i: usize = 0;
    while i < ls.len()
        invariant
            0 <= i <= ls.len(),
            lv == views(ls@),
            lv == lines(text@),
            meyton_date(lv) == meyton_date(lv.skip(i as int)),
        decreases ls.len() - i,
    {
        assert(lv.skip(i as int)[0] == ls@[i as int]@);
        assert(lv.skip(i as int).drop_first() =~= lv.skip(i + 1));
        let ws = split_words(&ls[i]);
        let ghost wv = views(ws@);
        assert(wv.skip(0) =~= wv);
        let mut k: usize = 0;
        while k < ws.len()
            invariant
                0 <= k <= ws.len(),
                wv == views(ws@),
                wv == words(lv[i as int]),
                first_date_word(wv) == first_date_word(wv.skip(k as int)),
                0 <= i < ls.len(),
                lv == views(ls@),
                lv == lines(text@),
                meyton_date(lv) == meyton_date(lv.skip(i as int)),
                lv.skip(i as int)[0] == lv[i as int],
            decreases ws.len() - k,
        {
            assert(wv.skip(k as int)[0] == ws@[k as int]@);
            assert(wv.skip(k as int).drop_first() =~= wv.skip(k + 1));
            if is_date_word_chars(&ws[k]) {
                return Some(string_of(&ws[k]));
            }
            k += 1;
        }
        i += 1;
    }
    None
}

/// A team header of a Meyton result list.
#[derive(Debug)]
pub struct MeytonTeam {
    pub rank: u32,
    pub club: String,
    pub member_count: usize,
}

/// An alias matches normalized text that contains it, or that it ends with.
pub open spec fn alias_hits(normalized: Seq<char>, alias: Seq<char>) -> bool {
    let na = match_text(alias);
    contains(normalized, na) || ends_with(na, normalized)
}

pub open spec fn club_hits(normalized: Seq<char>, club: Seq<char>) -> bool {
    exists|a: Seq<char>| #[trigger] club_alias_set(club).contains(a) && alias_hits(normalized, a)
}

/// The first known club one of whose aliases matches `value`.
pub open spec fn known_match(value: Seq<char>, clubs: Seq<Seq<char>>) -> Option<Seq<char>>
    decreases clubs.len(),
{
    if clubs.len() == 0 {
        None
    } else if club_hits(match_text(value), clubs[0]) {
        Some(clubs[0])
    } else {
        known_match(value, clubs.drop_first())
    }
}

fn club_hits_chars(normalized: &Vec<char>, club: &Vec<char>) -> (r: bool)
    ensures
        r == club_hits(normalized@, club@),
{
    let aliases = club_aliases_chars(club);
    let ghost av = views(aliases@);
    let mut i: usize = 0;
    while i < aliases.len()
        invariant
            0 <= i <= aliases.len(),
            av == views(aliases@),
            av.to_set() == club_alias_set(club@),
            forall|j: int| 0 <= j < i ==> !alias_hits(normalized@, #[trigger] av[j]),
        decreases aliases.len() - i,
    {
        let na = normalize_match_chars(&aliases[i]);
        assert(av[i as int] == aliases@[i as int]@);
        if contains_chars(normalized, &na) || ends_with_chars(&na, normalized) {
            assert(av.contains(av[i as int]));
            assert(club_alias_set(club@).contains(av[i as int]));
            return true;
        }
        i += 1;
    }
    assert forall|a: Seq<char>| #[trigger] club_alias_set(club@).contains(a) implies !alias_hits(
        normalized@,
        a,
    ) by {
        assert(av.to_set().contains(a));
        let j = choose|j: int| 0 <= j < av.len() && av[j] == a;
        assert(!alias_hits(normalized@, av[j]));
    }
    false
}

/// The known club named by `value` in a Meyton header.
pub fn match_known_club(value: &Vec<char>, known_clubs: &Vec<String>) -> (r: Option<String>)
    ensures
        match (r, known_match(value@, strs(known_clubs@))) {
            (Some(a), Some(b)) => a@ == b,
            (None, None) => true,
            _ => false,
        },
{
    let normalized = normalize_match_chars(value);
    let ghost cs = strs(known_clubs@);
    assert(cs.skip(0) =~= cs);
    let mut i: usize = 0;
    while i < known_clubs.len()
        invariant
            0 <= i <= known_clubs.len(),
            cs == strs(known_clubs@),
            normalized@ == match_text(value@),
            known_match(value@, cs) == known_match(value@, cs.skip(i as int)),
        decreases known_clubs.len() - i,
    {
        assert(cs.skip(i as int)[0] == known_clubs@[i as int]@);
        assert(cs.skip(i as int).drop_first() =~= cs.skip(i + 1));
        let club = chars_of(known_clubs[i].as_str());
        if club_hits_chars(&normalized, &club) {
            return Some(known_clubs[i].clone());
        }
        i += 1;
    }
    None
}

/// `rank. club` with a rank that reads as a `u32` and a club that matches a
/// known club: the rank and that known club.
pub open spec fn meyton_team(line: Seq<char>, clubs: Seq<Seq<char>>) -> Option<(u32, Seq<char>)> {
    match split_once(line, ". "@) {
        None => None,
        Some((rank, club)) => match parse_unsigned(rank, u32::MAX as int) {
            None => None,
            Some(r) => match known_match(club, clubs) {
                None => None,
                Some(c) => Some((r as u32, c)),
            },
        },
    }
}

fn rank_value(rank: &Vec<char>) -> (r: Option<u32>)
    ensures
        match parse_unsigned(rank@, u32::MAX as int) {
            Some(v) => r is Some && r->0 as int == v,
            None => r is None,
        },
{
    match parse_unsigned_chars(rank, 0xffff_ffffu64) {
        Some(v) => Some(v as u32),
        None => None,
    }
}

/// The team header of a Meyton team result list, without members yet.
pub fn meyton_team_header(line: &str, known_clubs: &Vec<String>) -> (r: Option<MeytonTeam>)
    ensures
        match (r, meyton_team(line@, strs(known_clubs@))) {
            (Some(a), Some((rank, club))) => a.rank == rank && a.club@ == club && a.member_count
                == 0,
            (None, None) => true,
            _ => false,
        },
{
    let v = chars_of(line);
    let (rank, club) = match split_once_str(&v, ". ") {
        Some(p) => p,
        None => {
            return None;
        },
    };
    let rank = match rank_value(&rank) {
        Some(r) => r,
        None => {
            return None;
        },
    };
    match match_known_club(&club, known_clubs) {
        Some(c) => Some(MeytonTeam { rank, club: c, member_count: 0 }),
        None => None,
    }
}

/// `rank. ...` with a rank that reads as a `u32`.
pub open spec fn rank_header(line: Seq<char>) -> bool {
    match split_once(line, ". "@) {
        Some((rank, _)) => parse_unsigned(rank, u32::MAX as int) is Some,
        None => false,
    }
}

/// Whether a line starts a ranked block of a Meyton result list.
pub fn is_meyton_rank_header(line: &str) -> (r: bool)
    ensures
        r == rank_header(line@),
{
    let v = chars_of(line);
    match split_once_str(&v, ". ") {
        Some((rank, _)) => rank_value(&rank).is_some(),
        None => false,
    }
}

/// The words before the first all-digit word.
pub open spec fn leading_non_numeric(ws: Seq<Seq<char>>) -> Seq<Seq<char>>
    decreases ws.len(),
{
    if ws.len() == 0 || all_digits(ws[0]) {
        Seq::empty()
    } else {
        seq![ws[0]] + leading_non_numeric(ws.drop_first())
    }
}

/// The name of a Meyton shooter row `number name... number ...`: the words
/// after the leading number up to the next number, where they hold a comma.
pub open spec fn shooter_row_name(line: Seq<char>) -> Option<Seq<char>> {
    let ws = words(line);
    if ws.len() == 0 || !all_digits(ws[0]) {
        None
    } else {
        let name = join(leading_non_numeric(ws.drop_first()), " "@);
        if contains(name, ","@) {
            Some(name)
        } else {
            None
        }
    }
}

fn leading_non_numeric_of(ws: &Vec<Vec<char>>, from: usize) -> (r: Vec<Vec<char>>)
    requires
        from <= ws.len(),
    ensures
        views(r@) == leading_non_numeric(views(ws@).skip(from as int)),
{
    let ghost wv = views(ws@);
    let mut r: Vec<Vec<char>> = Vec::new();
    let mut i: usize = from;
    while i < ws.len() && !all_digits_vec(&ws[i])
        invariant
            from <= i <= ws.len(),
            wv == views(ws@),
            leading_non_numeric(wv.skip(from as int)) == views(r@) + leading_non_numeric(
                wv.skip(i as int),
            ),
        decreases ws.len() - i,
    {
        assert(wv.skip(i as int)[0] == ws@[i as int]@);
        assert(wv.skip(i as int).drop_first() =~= wv.skip(i + 1));
        let ghost old_r = views(r@);
        r.push(copy_chars(&ws[i]));
        assert(views(r@) =~= old_r.push(ws@[i as int]@));
        assert(old_r + (seq![ws@[i as int]@] + leading_non_numeric(wv.skip(i + 1))) =~= old_r.push(
            ws@[i as int]@,
        ) + leading_non_numeric(wv.skip(i + 1)));
        i += 1;
    }
    if i < ws.len() {
        assert(wv.skip(i as int)[0] == ws@[i as int]@);
    }
    assert(views(r@) + Seq::<Seq<char>>::empty() =~= views(r@));
    r
}

/// The shooter name of a Meyton shooter row.
pub fn meyton_shooter_name(line: &str) -> (r: Option<String>)
    ensures
        match (r, shooter_row_name(line@)) {
            (Some(a), Some(b)) => a@ == b,
            (None, None) => true,
            _ => false,
        },
{
    let v = chars_of(line);
    let ws = split_words(&v);
    if ws.len() == 0 || !all_digits_vec(&ws[0]) {
        return None;
    }
    assert(views(ws@)[0] == ws@[0]@);
    let parts = leading_non_numeric_of(&ws, 1);
    assert(views(ws@).skip(1) =~= views(ws@).drop_first());
    let sep: Vec<char> = vec![' '];
    proof {
        reveal_strlit(" ");
    }
    assert(sep@ =~= " "@);
    let name = join_chars(&parts, &sep);
    if contains_str(&name, ",") {
        Some(string_of(&name))
    } else {
        None
    }
}

/// Words that end the continuation of a wrapped Meyton name.
pub open spec fn ends_continuation(w: Seq<char>) -> bool {
    all_digits(w) || w == "Single"@ || w == "Shot"@ || w == "Series"@
}

pub open spec fn continuation_words(ws: Seq<Seq<char>>) -> Seq<Seq<char>>
    decreases ws.len(),
{
    if ws.len() == 0 || ends_continuation(ws[0]) {
        Seq::empty()
    } else {
        seq![ws[0]] + continuation_words(ws.drop_first())
    }
}

/// A name wrapped onto the next line: the prefix name, a space and the words
/// of the line up to the first number or `Single`, `Shot`, `Series`.
pub open spec fn continued_name(prefix: Seq<char>, line: Seq<char>) -> Option<Seq<char>> {
    let c = join(continuation_words(words(line)), " "@);
    if c.len() == 0 {
        None
    } else {
        Some(prefix + " "@ + c)
    }
}

/// The name of a Meyton shooter continued on the next line.
pub fn meyton_continued_shooter_name(prefix_name: &str, line: &str) -> (r: Option<String>)
    ensures
        match (r, continued_name(prefix_name@, line@)) {
            (Some(a), Some(b)) => a@ == b,
            (None, None) => true,
            _ => false,
        },
{
    let v = chars_of(line);
    let ws = split_words(&v);
    let ghost wv = views(ws@);
    assert(wv.skip(0) =~= wv);
    let mut parts: Vec<Vec<char>> = Vec::new();
    let mut i: usize = 0;
    while i < ws.len() && !(all_digits_vec(&ws[i]) || eq_str(&ws[i], "Single") || eq_str(
        &ws[i],
        "Shot",
    ) || eq_str(&ws[i], "Series"))
        invariant
            0 <= i <= ws.len(),
            wv == views(ws@),
            continuation_words(wv) == views(parts@) + continuation_words(wv.skip(i as int)),
        decreases ws.len() - i,
    {
        assert(wv.skip(i as int)[0] == ws@[i as int]@);
        assert(wv.skip(i as int).drop_first() =~= wv.skip(i + 1));
        let ghost old_p = views(parts@);
        parts.push(copy_chars(&ws[i]));
        assert(views(parts@) =~= old_p.push(ws@[i as int]@));
        assert(old_p + (seq![ws@[i as int]@] + continuation_words(wv.skip(i + 1))) =~= old_p.push(
            ws@[i as int]@,
        ) + continuation_words(wv.skip(i + 1)));
        i += 1;
    }
    if i < ws.len() {
        assert(wv.skip(i as int)[0] == ws@[i as int]@);
    }
    assert(views(parts@) + Seq::<Seq<char>>::empty() =~= views(parts@));
    let sep: Vec<char> = vec![' '];
    proof {
        reveal_strlit(" ");
    }
    assert(sep@ =~= " "@);
    let c = join_chars(&parts, &sep);
    if c.len() == 0 {
        return None;
    }
    let mut out = chars_of(prefix_name);
    append_str(&mut out, " ");
    append_chars(&mut out, &c);
    Some(string_of(&out))
}

// ---------------------------------------------------------------------------
// Truncated club names
// ---------------------------------------------------------------------------

/// The part of a club name before `...`, without trailing white space.
pub open spec fn truncated(club: Seq<char>) -> Option<Seq<char>> {
    let i = index_of(club, "..."@);
    if i < 0 {
        None
    } else {
        Some(trim_end(club.take(i)))
    }
}

/// The name before `...` of a club name cut off in a result list.
pub fn truncated_prefix(club: &str) -> (r: Option<String>)
    ensures
        match (r, truncated(club@)) {
            (Some(a), Some(b)) => a@ == b,
            (None, None) => true,
            _ => false,
        },
{
    let v = chars_of(club);
    let dots = chars_of("...");
    match find_chars(&v, &dots) {
        None => None,
        Some(i) => {
            proof {
                lemma_index_of(v@, dots@);
            }
            let head = slice_chars(&v, 0, i);
            assert(head@ =~= v@.take(i as int));
            Some(string_of(&trim_end_chars(&head)))
        },
    }
}

/// A club is kept unless it is cut off and another club of the list starts
/// with what is left of it.
pub open spec fn keeps_club(club: Seq<char>, all: Seq<Seq<char>>) -> bool {
    match truncated(club) {
        None => true,
        Some(p) => !(exists|j: int| 0 <= j < all.len() && all[j] != club && #[trigger] starts_with(all[j], p)),
    }
}

pub open spec fn kept_clubs(cs: Seq<Seq<char>>, all: Seq<Seq<char>>) -> Seq<Seq<char>>
    decreases cs.len(),
{
    if cs.len() == 0 {
        Seq::empty()
    } else if keeps_club(cs.last(), all) {
        kept_clubs(cs.drop_last(), all).push(cs.last())
    } else {
        kept_clubs(cs.drop_last(), all)
    }
}

proof fn lemma_kept_clubs(cs: Seq<Seq<char>>, all: Seq<Seq<char>>)
    ensures
        forall|i: int| 0 <= i < cs.len() && keeps_club(cs[i], all) ==> kept_clubs(cs, all).contains(
            #[trigger] cs[i],
        ),
        forall|x: Seq<char>| kept_clubs(cs, all).contains(x) ==> cs.contains(x),
    decreases cs.len(),
{
    if cs.len() > 0 {
        let init = cs.drop_last();
        lemma_kept_clubs(init, all);
        assert forall|i: int| 0 <= i < cs.len() && keeps_club(cs[i], all) implies kept_clubs(
            cs,
            all,
        ).contains(#[trigger] cs[i]) by {
            if i < cs.len() - 1 {
                assert(cs[i] == init[i]);
                let k = kept_clubs(init, all);
                let w = choose|w: int| 0 <= w < k.len() && k[w] == init[i];
                if keeps_club(cs.last(), all) {
                    assert(kept_clubs(cs, all)[w] == init[i]);
                }
            } else {
                assert(kept_clubs(cs, all).last() == cs[i]);
            }
        }
        assert forall|x: Seq<char>| kept_clubs(cs, all).contains(x) implies cs.contains(x) by {
            let k = kept_clubs(init, all);
            let w = choose|w: int| 0 <= w < kept_clubs(cs, all).len() && kept_clubs(cs, all)[w] == x;
            if keeps_club(cs.last(), all) && w == k.len() {
                assert(cs[cs.len() - 1] == x);
            } else {
                assert(k[w] == x);
                assert(k.contains(x));
                assert(init.contains(x));
                let v = choose|v: int| 0 <= v < init.len() && init[v] == x;
                assert(cs[v] == x);
            }
        }
    }
}

/// Collapsing cut-off club names keeps every club name that is not cut off,
/// and adds none that the list did not hold.
pub proof fn lemma_collapse_keeps_full_names(all: Seq<Seq<char>>)
    ensures
        forall|i: int| 0 <= i < all.len() && truncated(all[i]) is None ==> kept_clubs(all, all).contains(
            #[trigger] all[i],
        ),
        forall|x: Seq<char>| kept_clubs(all, all).contains(x) ==> all.contains(x),
{
    lemma_kept_clubs(all, all);
}

fn keeps_club_chars(club: &Vec<char>, all: &Vec<Vec<char>>) -> (r: bool)
    ensures
        r == keeps_club(club@, views(all@)),
{
    let dots = chars_of("...");
    let i = match find_chars(club, &dots) {
        None => {
            return true;
        },
        Some(i) => i,
    };
    proof {
        lemma_index_of(club@, dots@);
    }
    let head = slice_chars(club, 0, i);
    assert(head@ =~= club@.take(i as int));
    let prefix = trim_end_chars(&head);
    let ghost av = views(all@);
    let mut j: usize = 0;
    while j < all.len()
        invariant
            0 <= j <= all.len(),
            av == views(all@),
            truncated(club@) is Some,
            prefix@ == truncated(club@)->0,
            forall|k: int| 0 <= k < j ==> !(av[k] != club@ && #[trigger] starts_with(av[k], prefix@)),
        decreases all.len() - j,
    {
        assert(av[j as int] == all@[j as int]@);
        if !eq_chars(&all[j], club) && starts_with_chars(&all[j], &prefix) {
            assert(starts_with(av[j as int], prefix@) && av[j as int] != club@);
            return false;
        }
        j += 1;
    }
    true
}

/// The clubs of a list without those cut off where the list holds the full
/// name.
pub fn collapse_truncated_clubs(clubs: &Vec<String>) -> (r: Vec<String>)
    ensures
        strs(r@) == kept_clubs(strs(clubs@), strs(clubs@)),
{
    let cv = chars_of_all(clubs);
    let ghost all = strs(clubs@);
    let mut out: Vec<String> = Vec::new();
    let mut i: usize = 0;
    while i < clubs.len()
        invariant
            0 <= i <= clubs.len(),
            all == strs(clubs@),
            views(cv@) == all,
            strs(out@) == kept_clubs(all.take(i as int), all),
        decreases clubs.len() - i,
    {
        assert(all.take(i + 1).drop_last() =~= all.take(i as int));
        assert(all.take(i + 1).last() == clubs@[i as int]@);
        assert(views(cv@)[i as int] == cv@[i as int]@);
        if keeps_club_chars(&cv[i], &cv) {
            let ghost old_out = strs(out@);
            out.push(clubs[i].clone());
            assert(strs(out@) =~= old_out.push(clubs@[i as int]@));
        }
        i += 1;
    }
    assert(all.take(i as int) =~= all);
    out
}

/// The first candidate that starts with `p`.
pub open spec fn first_with_prefix(cands: Seq<Seq<char>>, p: Seq<char>) -> Option<Seq<char>>
    decreases cands.len(),
{
    if cands.len() == 0 {
        None
    } else if starts_with(cands[0], p) {
        Some(cands[0])
    } else {
        first_with_prefix(cands.drop_first(), p)
    }
}

/// The canonical name of a club; where it is cut off, the first candidate
/// that completes it.
pub open spec fn resolved_club(club: Seq<char>, cands: Seq<Seq<char>>) -> Seq<char> {
    let c = canonical_club(club);
    match truncated(c) {
        None => c,
        Some(p) => match first_with_prefix(cands, p) {
            Some(x) => x,
            None => c,
        },
    }
}

/// Resolves a club name that a result list cut off to a full known name;
/// `candidates` in ascending order, as a set of names is walked.
pub fn resolve_truncated_club(club: &str, candidates: &Vec<String>) -> (r: String)
    ensures
        r@ == resolved_club(club@, strs(candidates@)),
{
    let canonical = canonical_club_name(club);
    let prefix = match truncated_prefix(canonical.as_str()) {
        None => {
            return canonical;
        },
        Some(p) => chars_of(p.as_str()),
    };
    let ghost cs = strs(candidates@);
    assert(cs.skip(0) =~= cs);
    let mut i: usize = 0;
    while i < candidates.len()
        invariant
            0 <= i <= candidates.len(),
            cs == strs(candidates@),
            canonical@ == canonical_club(club@),
            truncated(canonical@) is Some,
            prefix@ == truncated(canonical@)->0,
            first_with_prefix(cs, prefix@) == first_with_prefix(cs.skip(i as int), prefix@),
        decreases candidates.len() - i,
    {
        assert(cs.skip(i as int)[0] == candidates@[i as int]@);
        assert(cs.skip(i as int).drop_first() =~= cs.skip(i + 1));
        let c = chars_of(candidates[i].as_str());
        if starts_with_chars(&c, &prefix) {
            return candidates[i].clone();
        }
        i += 1;
    }
    canonical
}

// ---------------------------------------------------------------------------
// Participation lists
// ---------------------------------------------------------------------------

/// The shooter named before an alias on a participation line: the trimmed
/// text before the first occurrence of the alias, without a leading start
/// number, where it holds a comma.
pub open spec fn shooter_in_line(line: Seq<char>, alias: Seq<char>) -> Option<Seq<char>> {
    let i = index_of(line, alias);
    if i < 0 {
        None
    } else {
        let before = trim(line.take(i));
        if before.len() == 0 {
            None
        } else {
            let name = trim(
                match split_once(before, " "@) {
                    Some((prefix, rest)) => if all_digits(prefix) {
                        rest
                    } else {
                        before
                    },
                    None => before,
                },
            );
            if contains(name, ","@) {
                Some(name)
            } else {
                None
            }
        }
    }
}

/// The shooter named on a participation line before a club alias.
pub fn participation_shooter_from_line(line: &str, alias: &str) -> (r: Option<String>)
    ensures
        match (r, shooter_in_line(line@, alias@)) {
            (Some(a), Some(b)) => a@ == b,
            (None, None) => true,
            _ => false,
        },
{
    let l = chars_of(line);
    let a = chars_of(alias);
    match shooter_in_line_chars(&l, &a) {
        Some(n) => Some(string_of(&n)),
        None => None,
    }
}

fn shooter_in_line_chars(line: &Vec<char>, alias: &Vec<char>) -> (r: Option<Vec<char>>)
    ensures
        match (r, shooter_in_line(line@, alias@)) {
            (Some(a), Some(b)) => a@ == b,
            (None, None) => true,
            _ => false,
        },
{
    let i = match find_chars(line, alias) {
        None => {
            return None;
        },
        Some(i) => i,
    };
    proof {
        lemma_index_of(line@, alias@);
    }
    let head = slice_chars(line, 0, i);
    assert(head@ =~= line@.take(i as int));
    let before = trim_chars(&head);
    if before.len() == 0 {
        return None;
    }
    let rest = match split_once_str(&before, " ") {
        Some((prefix, rest)) => if all_digits_vec(&prefix) {
            rest
        } else {
            copy_chars(&before)
        },
        None => copy_chars(&before),
    };
    let name = trim_chars(&rest);
    if contains_str(&name, ",") {
        Some(name)
    } else {
        None
    }
}

/// The number of bytes of a character in UTF-8.
pub open spec fn utf8_width(c: char) -> int {
    if (c as u32) < 0x80 {
        1
    } else if (c as u32) < 0x800 {
        2
    } else if (c as u32) < 0x10000 {
        3
    } else {
        4
    }
}

/// The length of a text in UTF-8 bytes (`str::len`).
pub open spec fn utf8_len(s: Seq<char>) -> int
    decreases s.len(),
{
    if s.len() == 0 {
        0
    } else {
        utf8_len(s.drop_last()) + utf8_width(s.last())
    }
}

fn utf8_len_chars(s: &Vec<char>) -> (r: u128)
    ensures
        r as int == utf8_len(s@),
{
    let mut n: u128 = 0;
    let mut i: usize = 0;
    while i < s.len()
        invariant
            0 <= i <= s.len(),
            n as int == utf8_len(s@.take(i as int)),
            n <= 4 * i,
        decreases s.len() - i,
    {
        assert(s@.take(i + 1).drop_last() =~= s@.take(i as int));
        let c = s[i] as u32;
        let w: u128 = if c < 0x80 {
            1
        } else if c < 0x800 {
            2
        } else if c < 0x10000 {
            3
        } else {
            4
        };
        n = n + w;
        i += 1;
    }
    assert(s@.take(i as int) =~= s@);
    n
}

/// The shooter a line names before one of the aliases, trying the aliases
/// longest first (in UTF-8 bytes) and, among equally long ones, in the given
/// order; with the length of the alias that named it.
pub open spec fn best_shooter(line: Seq<char>, al: Seq<Seq<char>>) -> Option<(int, Seq<char>)>
    decreases al.len(),
{
    if al.len() == 0 {
        None
    } else {
        let prev = best_shooter(line, al.drop_last());
        let n = utf8_len(al.last());
        match shooter_in_line(line, al.last()) {
            None => prev,
            Some(name) => match prev {
                None => Some((n, name)),
                Some((len, _)) => if n > len {
                    Some((n, name))
                } else {
                    prev
                },
            },
        }
    }
}

/// Lines that name no shooter: empty ones and team or club headings.
pub open spec fn skipped_line(l: Seq<char>) -> bool {
    l.len() == 0 || starts_with(l, "Mannschaft"@) || starts_with(l, "Verein "@)
}

/// The shooters named on the lines of a participation list.
pub open spec fn shooter_names(ls: Seq<Seq<char>>, al: Seq<Seq<char>>) -> Set<Seq<char>>
    decreases ls.len(),
{
    if ls.len() == 0 {
        Set::empty()
    } else {
        let prev = shooter_names(ls.drop_last(), al);
        let l = collapse_ws(ls.last());
        if skipped_line(l) {
            prev
        } else {
            match best_shooter(l, al) {
                Some((_, name)) => prev.insert(name),
                None => prev,
            }
        }
    }
}

/// The shooters of a club in a participation list, in ascending order and
/// each once.
pub fn participation_shooters(text: &str, aliases: &Vec<String>) -> (r: Vec<String>)
    ensures
        sorted_strict(strs(r@)),
        strs(r@).to_set() == shooter_names(lines(text@), strs(aliases@)),
{
    let v = chars_of(text);
    let ls = split_lines(&v);
    let av = chars_of_all(aliases);
    let ghost lv = views(ls@);
    let ghost al = views(av@);
    let mut lens: Vec<u128> = Vec::new();
    let mut k: usize = 0;
    while k < av.len()
        invariant
            0 <= k <= av.len(),
            lens.len() == k,
            al == views(av@),
            forall|j: int| 0 <= j < k ==> lens@[j] as int == utf8_len(#[trigger] al[j]),
        decreases av.len() - k,
    {
        assert(al[k as int] == av@[k as int]@);
        lens.push(utf8_len_chars(&av[k]));
        k += 1;
    }
    let mut out: Vec<Vec<char>> = Vec::new();
    assert(views(out@) =~= Seq::<Seq<char>>::empty());
    assert(views(out@).to_set() =~= Set::<Seq<char>>::empty());
    let mut i: usize = 0;
    while i < ls.len()
        invariant
            0 <= i <= ls.len(),
            lv == views(ls@),
            lv == lines(text@),
            al == views(av@),
            al == strs(aliases@),
            lens.len() == av.len(),
            forall|j: int| 0 <= j < av.len() ==> lens@[j] as int == utf8_len(#[trigger] al[j]),
            sorted_strict(views(out@)),
            views(out@).to_set() == shooter_names(lv.take(i as int), al),
        decreases ls.len() - i,
    {
        assert(lv.take(i + 1).drop_last() =~= lv.take(i as int));
        assert(lv.take(i + 1).last() == ls@[i as int]@);
        let line = collapse_chars(&ls[i]);
        if !(line.len() == 0 || starts_with_str(&line, "Mannschaft") || starts_with_str(
            &line,
            "Verein ",
        )) {
            let mut best: Option<(u128, Vec<char>)> = None;
            let mut k: usize = 0;
            while k < av.len()
                invariant
                    0 <= k <= av.len(),
                    al == views(av@),
                    lens.len() == av.len(),
                    forall|j: int| 0 <= j < av.len() ==> lens@[j] as int == utf8_len(
                        #[trigger] al[j],
                    ),
                    match (best, best_shooter(line@, al.take(k as int))) {
                        (None, None) => true,
                        (Some((n, name)), Some((sn, sname))) => n as int == sn && name@ == sname,
                        _ => false,
                    },
                decreases av.len() - k,
            {
                assert(al.take(k + 1).drop_last() =~= al.take(k as int));
                assert(al.take(k + 1).last() == av@[k as int]@);
                match shooter_in_line_chars(&line, &av[k]) {
                    None => {},
                    Some(name) => {
                        let n = lens[k];
                        let replace = match &best {
                            None => true,
                            Some((len, _)) => n > *len,
                        };
                        if replace {
                            best = Some((n, name));
                        }
                    },
                }
                k += 1;
            }
            assert(al.take(k as int) =~= al);
            match best {
                Some((_, name)) => {
                    sorted_insert(&mut out, name);
                },
                None => {},
            }
        }
        i += 1;
    }
    assert(lv.take(i as int) =~= lv);
    strings_of(&out)
}

// ---------------------------------------------------------------------------
// Clubs of the focus association in DAVID21+ result lists
// ---------------------------------------------------------------------------

/// The canonical clubs of the teams of the filtered associations.
pub open spec fn team_club_set(ts: Seq<TeamSpec>, code: Seq<char>) -> Set<Seq<char>>
    decreases ts.len(),
{
    if ts.len() == 0 {
        Set::empty()
    } else {
        let prev = team_club_set(ts.drop_last(), code);
        if association_admitted(ts.last().association, code) {
            prev.insert(canonical_club(ts.last().club))
        } else {
            prev
        }
    }
}

/// The canonical clubs of the individuals of the filtered associations.
pub open spec fn individual_club_set(rs: Seq<IndividualSpec>, code: Seq<char>) -> Set<Seq<char>>
    decreases rs.len(),
{
    if rs.len() == 0 {
        Set::empty()
    } else {
        let prev = individual_club_set(rs.drop_last(), code);
        if association_admitted(rs.last().association, code) {
            prev.insert(canonical_club(rs.last().club))
        } else {
            prev
        }
    }
}

/// The canonical clubs of the filtered associations in result lists, in
/// and out of competition.
pub open spec fn focus_club_set(ls: Seq<ResultListSpec>, code: Seq<char>) -> Set<Seq<char>>
    decreases ls.len(),
{
    if ls.len() == 0 {
        Set::empty()
    } else {
        let l = ls.last();
        focus_club_set(ls.drop_last(), code) + team_club_set(l.team_results, code) + team_club_set(
            l.out_of_competition_team_results,
            code,
        ) + individual_club_set(l.individual_results, code) + individual_club_set(
            l.out_of_competition_individual_results,
            code,
        )
    }
}

fn insert_team_clubs(v: &mut Vec<Vec<char>>, ts: &Vec<TeamResult>, code: &str)
    requires
        sorted_strict(views(old(v)@)),
    ensures
        sorted_strict(views(final(v)@)),
        views(final(v)@).to_set() == views(old(v)@).to_set() + team_club_set(team_views(ts@), code@),
{
    let ghost tv = team_views(ts@);
    let ghost start = views(v@).to_set();
    let mut i: usize = 0;
    assert(tv.take(0) =~= Seq::<TeamSpec>::empty());
    assert(start + Set::<Seq<char>>::empty() =~= start);
    while i < ts.len()
        invariant
            0 <= i <= ts.len(),
            tv == team_views(ts@),
            sorted_strict(views(v@)),
            views(v@).to_set() == start + team_club_set(tv.take(i as int), code@),
        decreases ts.len() - i,
    {
        assert(tv.take(i + 1).drop_last() =~= tv.take(i as int));
        assert(tv.take(i + 1).last() == ts@[i as int]@);
        if association_matches(ts[i].association.as_str(), code) {
            let c = canonical_club_chars(&chars_of(ts[i].club.as_str()));
            let ghost before = views(v@).to_set();
            sorted_insert(v, c);
            assert(start + team_club_set(tv.take(i + 1), code@) =~= before.insert(c@));
        }
        i += 1;
    }
    assert(tv.take(i as int) =~= tv);
}

fn insert_individual_clubs(v: &mut Vec<Vec<char>>, rs: &Vec<IndividualResult>, code: &str)
    requires
        sorted_strict(views(old(v)@)),
    ensures
        sorted_strict(views(final(v)@)),
        views(final(v)@).to_set() == views(old(v)@).to_set() + individual_club_set(
            individual_views(rs@),
            code@,
        ),
{
    let ghost rv = individual_views(rs@);
    let ghost start = views(v@).to_set();
    let mut i: usize = 0;
    assert(rv.take(0) =~= Seq::<IndividualSpec>::empty());
    assert(start + Set::<Seq<char>>::empty() =~= start);
    while i < rs.len()
        invariant
            0 <= i <= rs.len(),
            rv == individual_views(rs@),
            sorted_strict(views(v@)),
            views(v@).to_set() == start + individual_club_set(rv.take(i as int), code@),
        decreases rs.len() - i,
    {
        assert(rv.take(i + 1).drop_last() =~= rv.take(i as int));
        assert(rv.take(i + 1).last() == rs@[i as int]@);
        if association_matches(rs[i].association.as_str(), code) {
            let c = canonical_club_chars(&chars_of(rs[i].club.as_str()));
            let ghost before = views(v@).to_set();
            sorted_insert(v, c);
            assert(start + individual_club_set(rv.take(i + 1), code@) =~= before.insert(c@));
        }
        i += 1;
    }
    assert(rv.take(i as int) =~= rv);
}

pub open spec fn list_views(ls: Seq<SportResultList>) -> Seq<ResultListSpec> {
    ls.map_values(|l: SportResultList| l@)
}

/// The clubs of the focus association (or of all, for `all`) in parsed
/// DAVID21+ result lists: canonical names in ascending order, without
/// names cut off where the full name is among them.
pub fn known_focus_clubs(result_lists: &Vec<SportResultList>, focus_association_code: &str) -> (r:
    Vec<String>)
    ensures
        ({
            let names = ascending(
                focus_club_set(list_views(result_lists@), trim(focus_association_code@)),
            );
            strs(r@) == kept_clubs(names, names)
        }),
{
    let code = string_of(&trim_chars(&chars_of(focus_association_code)));
    let ghost lv = list_views(result_lists@);
    let mut v: Vec<Vec<char>> = Vec::new();
    assert(views(v@) =~= Seq::<Seq<char>>::empty());
    assert(views(v@).to_set() =~= Set::<Seq<char>>::empty());
    assert(lv.take(0) =~= Seq::<ResultListSpec>::empty());
    let mut i: usize = 0;
    while i < result_lists.len()
        invariant
            0 <= i <= result_lists.len(),
            lv == list_views(result_lists@),
            code@ == trim(focus_association_code@),
            sorted_strict(views(v@)),
            views(v@).to_set() == focus_club_set(lv.take(i as int), code@),
        decreases result_lists.len() - i,
    {
        let l = &result_lists[i];
        assert(lv.take(i + 1).drop_last() =~= lv.take(i as int));
        assert(lv.take(i + 1).last() == l@);
        insert_team_clubs(&mut v, &l.team_results, code.as_str());
        insert_team_clubs(&mut v, &l.out_of_competition_team_results, code.as_str());
        insert_individual_clubs(&mut v, &l.individual_results, code.as_str());
        insert_individual_clubs(&mut v, &l.out_of_competition_individual_results, code.as_str());
        i += 1;
    }
    assert(lv.take(i as int) =~= lv);
    proof {
        lemma_ascending(views(v@));
    }
    let names = strings_of(&v);
    collapse_truncated_clubs(&names)
}

/// The canonical club and association of each row of the filtered
/// associations, in the order the rows are read: per list its teams, teams
/// out of competition, individuals, individuals out of competition.
pub open spec fn team_assoc_pairs(ts: Seq<TeamSpec>, code: Seq<char>) -> Seq<(Seq<char>, Seq<char>)>
    decreases ts.len(),
{
    if ts.len() == 0 {
        Seq::empty()
    } else {
        let prev = team_assoc_pairs(ts.drop_last(), code);
        let t = ts.last();
        if association_admitted(t.association, code) {
            prev.push((canonical_club(t.club), t.association))
        } else {
            prev
        }
    }
}

pub open spec fn individual_assoc_pairs(rs: Seq<IndividualSpec>, code: Seq<char>) -> Seq<
    (Seq<char>, Seq<char>),
>
    decreases rs.len(),
{
    if rs.len() == 0 {
        Seq::empty()
    } else {
        let prev = individual_assoc_pairs(rs.drop_last(), code);
        let r = rs.last();
        if association_admitted(r.association, code) {
            prev.push((canonical_club(r.club), r.association))
        } else {
            prev
        }
    }
}

pub open spec fn assoc_pairs(ls: Seq<ResultListSpec>, code: Seq<char>) -> Seq<(Seq<char>, Seq<char>)>
    decreases ls.len(),
{
    if ls.len() == 0 {
        Seq::empty()
    } else {
        let l = ls.last();
        assoc_pairs(ls.drop_last(), code) + team_assoc_pairs(l.team_results, code) + team_assoc_pairs(
            l.out_of_competition_team_results,
            code,
        ) + individual_assoc_pairs(l.individual_results, code) + individual_assoc_pairs(
            l.out_of_competition_individual_results,
            code,
        )
    }
}

proof fn lemma_lookup_append(a: Seq<(Seq<char>, Seq<char>)>, b: Seq<(Seq<char>, Seq<char>)>, k: Seq<char>)
    ensures
        lookup(a + b, k) == match lookup(a, k) {
            Some(v) => Some(v),
            None => lookup(b, k),
        },
    decreases a.len(),
{
    if a.len() > 0 {
        assert((a + b).drop_first() =~= a.drop_first() + b);
        assert((a + b)[0] == a[0]);
        lemma_lookup_append(a.drop_first(), b, k);
    } else {
        assert(a + b =~= b);
    }
}

/// Records a club's association unless the club already has one.
fn note_association(v: &mut Vec<(String, String)>, club: String, association: String)
    requires
        keys_sorted(pair_views(old(v)@)),
    ensures
        keys_sorted(pair_views(final(v)@)),
        forall|k: Seq<char>|
            #![trigger lookup(pair_views(final(v)@), k)]
            lookup(pair_views(final(v)@), k) == match lookup(pair_views(old(v)@), k) {
                Some(x) => Some(x),
                None => if k == club@ {
                    Some(association@)
                } else {
                    None
                },
            },
{
    let kc = chars_of(club.as_str());
    let ghost pv = pair_views(v@);
    assert(pv.skip(0) =~= pv);
    let mut i: usize = 0;
    while i < v.len()
        invariant
            0 <= i <= v.len(),
            pv == pair_views(v@),
            keys_sorted(pv),
            kc@ == club@,
            lookup(pv, club@) == lookup(pv.skip(i as int), club@),
        decreases v.len() - i,
    {
        assert(pv.skip(i as int)[0] == (v@[i as int].0@, v@[i as int].1@));
        assert(pv.skip(i as int).drop_first() =~= pv.skip(i + 1));
        if eq_chars(&chars_of(v[i].0.as_str()), &kc) {
            return;
        }
        i += 1;
    }
    map_insert(v, club, association);
}

fn note_team_associations(v: &mut Vec<(String, String)>, ts: &Vec<TeamResult>, code: &str)
    requires
        keys_sorted(pair_views(old(v)@)),
    ensures
        keys_sorted(pair_views(final(v)@)),
        forall|k: Seq<char>|
            #![trigger lookup(pair_views(final(v)@), k)]
            lookup(pair_views(final(v)@), k) == lookup(
                pair_views(old(v)@) + team_assoc_pairs(team_views(ts@), code@),
                k,
            ),
{
    let ghost tv = team_views(ts@);
    let ghost start = pair_views(v@);
    let mut i: usize = 0;
    assert(tv.take(0) =~= Seq::<TeamSpec>::empty());
    assert(start + Seq::<(Seq<char>, Seq<char>)>::empty() =~= start);
    while i < ts.len()
        invariant
            0 <= i <= ts.len(),
            tv == team_views(ts@),
            keys_sorted(pair_views(v@)),
            forall|k: Seq<char>|
                #![trigger lookup(pair_views(v@), k)]
                lookup(pair_views(v@), k) == lookup(start + team_assoc_pairs(tv.take(i as int), code@), k),
        decreases ts.len() - i,
    {
        assert(tv.take(i + 1).drop_last() =~= tv.take(i as int));
        assert(tv.take(i + 1).last() == ts@[i as int]@);
        if association_matches(ts[i].association.as_str(), code) {
            let c = canonical_club_name(ts[i].club.as_str());
            let ghost cc = c@;
            let ghost a = ts@[i as int].association@;
            let ghost before = pair_views(v@);
            let ghost prev = start + team_assoc_pairs(tv.take(i as int), code@);
            note_association(v, c, ts[i].association.clone());
            assert forall|k: Seq<char>| #[trigger] lookup(pair_views(v@), k) == lookup(
                start + team_assoc_pairs(tv.take(i + 1), code@),
                k,
            ) by {
                assert(start + team_assoc_pairs(tv.take(i + 1), code@) =~= prev + seq![(cc, a)]);
                lemma_lookup_append(prev, seq![(cc, a)], k);
                assert(lookup(pair_views(v@), k) == match lookup(before, k) {
                    Some(x) => Some(x),
                    None => if k == cc {
                        Some(a)
                    } else {
                        None
                    },
                });
                assert(lookup(before, k) == lookup(prev, k));
                assert(seq![(cc, a)].drop_first() =~= Seq::<(Seq<char>, Seq<char>)>::empty());
                assert(lookup(Seq::<(Seq<char>, Seq<char>)>::empty(), k) is None);
                assert(lookup(seq![(cc, a)], k) == if cc == k {
                    Some(a)
                } else {
                    None
                });
            }
        }
        i += 1;
    }
    assert(tv.take(i as int) =~= tv);
}

fn note_individual_associations(v: &mut Vec<(String, String)>, rs: &Vec<IndividualResult>, code: &str)
    requires
        keys_sorted(pair_views(old(v)@)),
    ensures
        keys_sorted(pair_views(final(v)@)),
        forall|k: Seq<char>|
            #![trigger lookup(pair_views(final(v)@), k)]
            lookup(pair_views(final(v)@), k) == lookup(
                pair_views(old(v)@) + individual_assoc_pairs(individual_views(rs@), code@),
                k,
            ),
{
    let ghost rv = individual_views(rs@);
    let ghost start = pair_views(v@);
    let mut i: usize = 0;
    assert(rv.take(0) =~= Seq::<IndividualSpec>::empty());
    assert(start + Seq::<(Seq<char>, Seq<char>)>::empty() =~= start);
    while i < rs.len()
        invariant
            0 <= i <= rs.len(),
            rv == individual_views(rs@),
            keys_sorted(pair_views(v@)),
            forall|k: Seq<char>|
                #![trigger lookup(pair_views(v@), k)]
                lookup(pair_views(v@), k) == lookup(
                    start + individual_assoc_pairs(rv.take(i as int), code@),
                    k,
                ),
        decreases rs.len() - i,
    {
        assert(rv.take(i + 1).drop_last() =~= rv.take(i as int));
        assert(rv.take(i + 1).last() == rs@[i as int]@);
        if association_matches(rs[i].association.as_str(), code) {
            let c = canonical_club_name(rs[i].club.as_str());
            let ghost cc = c@;
            let ghost a = rs@[i as int].association@;
            let ghost before = pair_views(v@);
            let ghost prev = start + individual_assoc_pairs(rv.take(i as int), code@);
            note_association(v, c, rs[i].association.clone());
            assert forall|k: Seq<char>| #[trigger] lookup(pair_views(v@), k) == lookup(
                start + individual_assoc_pairs(rv.take(i + 1), code@),
                k,
            ) by {
                assert(start + individual_assoc_pairs(rv.take(i + 1), code@) =~= prev + seq![(cc, a)]);
                lemma_lookup_append(prev, seq![(cc, a)], k);
                assert(lookup(before, k) == lookup(prev, k));
                assert(seq![(cc, a)].drop_first() =~= Seq::<(Seq<char>, Seq<char>)>::empty());
                assert(lookup(Seq::<(Seq<char>, Seq<char>)>::empty(), k) is None);
                assert(lookup(seq![(cc, a)], k) == if cc == k {
                    Some(a)
                } else {
                    None
                });
            }
        }
        i += 1;
    }
    assert(rv.take(i as int) =~= rv);
}

/// The association of each club of the focus association (or of all) in
/// parsed DAVID21+ result lists: the association of the first row of the
/// club. Canonical club names in ascending order, each once.
pub fn known_club_associations(result_lists: &Vec<SportResultList>, focus_association_code: &str) -> (r:
    Vec<(String, String)>)
    ensures
        keys_sorted(pair_views(r@)),
        forall|k: Seq<char>|
            #[trigger] lookup(pair_views(r@), k) == lookup(
                assoc_pairs(list_views(result_lists@), trim(focus_association_code@)),
                k,
            ),
{
    let code = string_of(&trim_chars(&chars_of(focus_association_code)));
    let ghost lv = list_views(result_lists@);
    let mut v: Vec<(String, String)> = Vec::new();
    assert(pair_views(v@) =~= Seq::<(Seq<char>, Seq<char>)>::empty());
    assert(lv.take(0) =~= Seq::<ResultListSpec>::empty());
    let mut i: usize = 0;
    while i < result_lists.len()
        invariant
            0 <= i <= result_lists.len(),
            lv == list_views(result_lists@),
            code@ == trim(focus_association_code@),
            keys_sorted(pair_views(v@)),
            forall|k: Seq<char>|
                #![trigger lookup(pair_views(v@), k)]
                lookup(pair_views(v@), k) == lookup(assoc_pairs(lv.take(i as int), code@), k),
        decreases result_lists.len() - i,
    {
        let l = &result_lists[i];
        assert(lv.take(i + 1).drop_last() =~= lv.take(i as int));
        assert(lv.take(i + 1).last() == l@);
        let ghost p0 = assoc_pairs(lv.take(i as int), code@);
        let ghost p1 = team_assoc_pairs(l@.team_results, code@);
        let ghost p2 = team_assoc_pairs(l@.out_of_competition_team_results, code@);
        let ghost p3 = individual_assoc_pairs(l@.individual_results, code@);
        let ghost p4 = individual_assoc_pairs(l@.out_of_competition_individual_results, code@);
        let ghost v0 = pair_views(v@);
        note_team_associations(&mut v, &l.team_results, code.as_str());
        let ghost v1 = pair_views(v@);
        note_team_associations(&mut v, &l.out_of_competition_team_results, code.as_str());
        let ghost v2 = pair_views(v@);
        note_individual_associations(&mut v, &l.individual_results, code.as_str());
        let ghost v3 = pair_views(v@);
        note_individual_associations(&mut v, &l.out_of_competition_individual_results, code.as_str());
        assert forall|k: Seq<char>| #[trigger] lookup(pair_views(v@), k) == lookup(
            assoc_pairs(lv.take(i + 1), code@),
            k,
        ) by {
            assert(assoc_pairs(lv.take(i + 1), code@) == p0 + p1 + p2 + p3 + p4);
            lemma_lookup_append(v0, p1, k);
            lemma_lookup_append(p0, p1, k);
            lemma_lookup_append(v1, p2, k);
            lemma_lookup_append(p0 + p1, p2, k);
            lemma_lookup_append(v2, p3, k);
            lemma_lookup_append(p0 + p1 + p2, p3, k);
            lemma_lookup_append(v3, p4, k);
            lemma_lookup_append(p0 + p1 + p2 + p3, p4, k);
        }
        i += 1;
    }
    assert(lv.take(i as int) =~= lv);
    v
}

// ---------------------------------------------------------------------------
// Participation of known clubs
// ---------------------------------------------------------------------------

/// Normalized text names a club where it holds one of the club's aliases,
/// normalized.
pub open spec fn club_named(normalized: Seq<char>, club: Seq<char>) -> bool {
    exists|a: Seq<char>| #[trigger] club_alias_set(club).contains(a) && contains(normalized, match_text(a))
}

/// The participation of a club in one PDF.
pub open spec fn club_match(pdf: (Seq<char>, PathBuf, Seq<char>), club: Seq<char>, source: Seq<char>) -> MatchView {
    MatchView {
        club,
        canonical_club: canonical_club(club),
        shooters: ascending(shooter_names(lines(pdf.2), ascending(club_alias_set(club)))),
        source_name: source,
        pdf_url: pdf.0,
        local_path: pdf.1,
        text_char_count: vstd::utf8::encode_utf8(pdf.2).len() as usize,
    }
}

/// The known clubs a PDF names, in the order of the known clubs.
pub open spec fn pdf_matches(pdf: (Seq<char>, PathBuf, Seq<char>), clubs: Seq<Seq<char>>, source: Seq<char>) -> Seq<MatchView>
    decreases clubs.len(),
{
    if clubs.len() == 0 {
        Seq::empty()
    } else {
        let prev = pdf_matches(pdf, clubs.drop_last(), source);
        if club_named(match_text(pdf.2), clubs.last()) {
            prev.push(club_match(pdf, clubs.last(), source))
        } else {
            prev
        }
    }
}

pub open spec fn all_matches(pdfs: Seq<(Seq<char>, PathBuf, Seq<char>)>, clubs: Seq<Seq<char>>, source: Seq<char>) -> Seq<MatchView>
    decreases pdfs.len(),
{
    if pdfs.len() == 0 {
        Seq::empty()
    } else {
        all_matches(pdfs.drop_last(), clubs, source) + pdf_matches(pdfs.last(), clubs, source)
    }
}

/// Matches are ordered by club, then by PDF.
pub open spec fn match_before(a: MatchView, b: MatchView) -> bool {
    lex_lt(a.club, b.club) || (a.club == b.club && lex_lt(a.pdf_url, b.pdf_url))
}

pub open spec fn match_position(s: Seq<MatchView>, x: MatchView) -> int
    decreases s.len(),
{
    if s.len() == 0 {
        0
    } else if match_before(x, s[0]) {
        0
    } else {
        1 + match_position(s.drop_first(), x)
    }
}

/// The matches in order, equal ones in the order they came.
pub open spec fn sorted_matches(s: Seq<MatchView>) -> Seq<MatchView>
    decreases s.len(),
{
    if s.len() == 0 {
        Seq::empty()
    } else {
        let prev = sorted_matches(s.drop_last());
        prev.insert(match_position(prev, s.last()), s.last())
    }
}

proof fn lemma_match_position(s: Seq<MatchView>, x: MatchView, i: int)
    requires
        0 <= i <= s.len(),
        forall|j: int| 0 <= j < i ==> !match_before(x, #[trigger] s[j]),
        i == s.len() || match_before(x, s[i]),
    ensures
        match_position(s, x) == i,
    decreases i,
{
    if i > 0 {
        assert forall|j: int| 0 <= j < i - 1 implies !match_before(x, #[trigger] s.drop_first()[j]) by {
            assert(s.drop_first()[j] == s[j + 1]);
        }
        if i < s.len() {
            assert(s.drop_first()[i - 1] == s[i]);
        }
        assert(!match_before(x, s[0]));
        lemma_match_position(s.drop_first(), x, i - 1);
    }
}

pub open spec fn pdf_views(v: Seq<ExtractedPdf>) -> Seq<(Seq<char>, PathBuf, Seq<char>)> {
    v.map_values(|p: ExtractedPdf| (p.url@, p.local_path, p.text@))
}

fn club_named_chars(normalized: &Vec<char>, aliases: &Vec<String>, club: Ghost<Seq<char>>) -> (r: bool)
    requires
        strs(aliases@).to_set() == club_alias_set(club@),
    ensures
        r == club_named(normalized@, club@),
{
    let ghost av = strs(aliases@);
    let mut i: usize = 0;
    while i < aliases.len()
        invariant
            0 <= i <= aliases.len(),
            av == strs(aliases@),
            av.to_set() == club_alias_set(club@),
            forall|j: int| 0 <= j < i ==> !contains(normalized@, match_text(#[trigger] av[j])),
        decreases aliases.len() - i,
    {
        let na = normalize_match_chars(&chars_of(aliases[i].as_str()));
        assert(av[i as int] == aliases@[i as int]@);
        if contains_chars(normalized, &na) {
            assert(av.contains(av[i as int]));
            assert(club_alias_set(club@).contains(av[i as int]));
            return true;
        }
        i += 1;
    }
    assert forall|a: Seq<char>| #[trigger] club_alias_set(club@).contains(a) implies !contains(
        normalized@,
        match_text(a),
    ) by {
        assert(av.to_set().contains(a));
        let j = choose|j: int| 0 <= j < av.len() && av[j] == a;
        assert(!contains(normalized@, match_text(av[j])));
    }
    false
}

fn match_less(a: &ParticipationMatch, b: &ParticipationMatch) -> (r: bool)
    ensures
        r == match_before(a@, b@),
{
    let ac = chars_of(a.club.as_str());
    let bc = chars_of(b.club.as_str());
    lex_less(&ac, &bc) || (eq_chars(&ac, &bc) && lex_less(
        &chars_of(a.pdf_url.as_str()),
        &chars_of(b.pdf_url.as_str()),
    ))
}

fn copy_strings(v: &Vec<String>) -> (r: Vec<String>)
    ensures
        strs(r@) == strs(v@),
{
    let mut out: Vec<String> = Vec::new();
    let mut i: usize = 0;
    while i < v.len()
        invariant
            0 <= i <= v.len(),
            strs(out@) == strs(v@).take(i as int),
        decreases v.len() - i,
    {
        let ghost before = strs(out@);
        out.push(v[i].clone());
        assert(strs(out@) =~= before.push(v@[i as int]@));
        assert(strs(v@).take(i + 1) =~= strs(v@).take(i as int).push(v@[i as int]@));
        i += 1;
    }
    assert(strs(v@).take(i as int) =~= strs(v@));
    out
}

/// Where known clubs took part: for each extracted PDF and each known club
/// that it names under one of the club's aliases, the club with its
/// shooters in that PDF; ordered by club and PDF.
pub fn participation_matches(pdfs: &Vec<ExtractedPdf>, known_clubs: &Vec<String>, source_name: &str) -> (r:
    Vec<ParticipationMatch>)
    ensures
        match_views(r@) == sorted_matches(all_matches(pdf_views(pdfs@), strs(known_clubs@), source_name@)),
{
    let ghost pv = pdf_views(pdfs@);
    let ghost cs = strs(known_clubs@);
    let mut found: Vec<ParticipationMatch> = Vec::new();
    assert(match_views(found@) =~= Seq::<MatchView>::empty());
    assert(pv.take(0) =~= Seq::<(Seq<char>, PathBuf, Seq<char>)>::empty());
    let mut i: usize = 0;
    while i < pdfs.len()
        invariant
            0 <= i <= pdfs.len(),
            pv == pdf_views(pdfs@),
            cs == strs(known_clubs@),
            match_views(found@) == all_matches(pv.take(i as int), cs, source_name@),
        decreases pdfs.len() - i,
    {
        let pdf = &pdfs[i];
        let ghost pt = (pdf.url@, pdf.local_path, pdf.text@);
        assert(pv.take(i + 1).drop_last() =~= pv.take(i as int));
        assert(pv.take(i + 1).last() == pt);
        let normalized = normalize_match_chars(&chars_of(pdf.text.as_str()));
        let ghost start = match_views(found@);
        let mut k: usize = 0;
        assert(cs.take(0) =~= Seq::<Seq<char>>::empty());
        assert(start + Seq::<MatchView>::empty() =~= start);
        while k < known_clubs.len()
            invariant
                0 <= k <= known_clubs.len(),
                cs == strs(known_clubs@),
                normalized@ == match_text(pt.2),
                pt == (pdf.url@, pdf.local_path, pdf.text@),
                match_views(found@) == start + pdf_matches(pt, cs.take(k as int), source_name@),
            decreases known_clubs.len() - k,
        {
            let club = &known_clubs[k];
            assert(cs.take(k + 1).drop_last() =~= cs.take(k as int));
            assert(cs.take(k + 1).last() == club@);
            let aliases = club_aliases(club.as_str());
            if club_named_chars(&normalized, &aliases, Ghost(club@)) {
                proof {
                    lemma_ascending(strs(aliases@));
                }
                let shooters = participation_shooters(pdf.text.as_str(), &aliases);
                proof {
                    lemma_ascending(strs(shooters@));
                }
                let m = ParticipationMatch {
                    club: club.clone(),
                    canonical_club: canonical_club_name(club.as_str()),
                    shooters,
                    source_name: String::from_str(source_name),
                    pdf_url: pdf.url.clone(),
                    local_path: pdf.local_path.clone(),
                    text_char_count: pdf.text.as_str().len(),
                };
                assert(m@.shooters == strs(m.shooters@));
                assert(m@ == club_match(pt, club@, source_name@));
                let ghost before = match_views(found@);
                found.push(m);
                assert(match_views(found@) =~= before.push(m@));
                assert(start + pdf_matches(pt, cs.take(k + 1), source_name@) =~= (start + pdf_matches(
                    pt,
                    cs.take(k as int),
                    source_name@,
                )).push(m@));
            }
            k += 1;
        }
        assert(cs.take(k as int) =~= cs);
        i += 1;
    }
    assert(pv.take(i as int) =~= pv);
    let ghost fv = match_views(found@);
    let mut out: Vec<ParticipationMatch> = Vec::new();
    let mut j: usize = 0;
    assert(fv.take(0) =~= Seq::<MatchView>::empty());
    while j < found.len()
        invariant
            0 <= j <= found.len(),
            fv == match_views(found@),
            match_views(out@) == sorted_matches(fv.take(j as int)),
        decreases found.len() - j,
    {
        let x = &found[j];
        let ghost ov = match_views(out@);
        let mut k: usize = 0;
        while k < out.len() && !match_less(x, &out[k])
            invariant
                0 <= k <= out.len(),
                ov == match_views(out@),
                forall|q: int| 0 <= q < k ==> !match_before(x@, #[trigger] ov[q]),
            decreases out.len() - k,
        {
            assert(ov[k as int] == out@[k as int]@);
            k += 1;
        }
        proof {
            if k < out.len() {
                assert(ov[k as int] == out@[k as int]@);
            }
            assert(fv[j as int] == x@);
        }
        let copy = ParticipationMatch {
            club: x.club.clone(),
            canonical_club: x.canonical_club.clone(),
            shooters: copy_strings(&x.shooters),
            source_name: x.source_name.clone(),
            pdf_url: x.pdf_url.clone(),
            local_path: x.local_path.clone(),
            text_char_count: x.text_char_count,
        };
        assert(copy@ == x@);
        proof {
            lemma_match_position(ov, x@, k as int);
            assert(fv.take(j + 1).drop_last() =~= fv.take(j as int));
            assert(fv.take(j + 1).last() == x@);
        }
        out.insert(k, copy);
        assert(match_views(out@) =~= ov.insert(k as int, x@));
        j += 1;
    }
    assert(fv.take(j as int) =~= fv);
    out
}

// ---------------------------------------------------------------------------
// Names of reports and of known clubs
// ---------------------------------------------------------------------------

/// The stem of the file name of a path, as `Path::file_stem` gives it.
pub uninterp spec fn path_file_stem(path: Seq<char>) -> Option<Seq<char>>;

/// `Path::file_stem`, as text; the stem of a path given as text is text
/// again.
#[verifier::external_body]
fn file_stem_text(path: &str) -> (r: Option<String>)
    ensures
        match r {
            Some(s) => path_file_stem(path@) == Some(s@),
            None => path_file_stem(path@) is None,
        },
{
    match std::path::Path::new(path).file_stem() {
        Some(stem) => Some(stem.to_string_lossy().into_owned()),
        None => None,
    }
}

/// The source name of a report, or, where it has none, the stem of its
/// file name (`unknown` where there is none).
pub open spec fn source_name_of(source_name: Seq<char>, path: Seq<char>) -> Seq<char> {
    if trim(source_name).len() == 0 {
        match path_file_stem(path) {
            Some(s) => s,
            None => "unknown"@,
        }
    } else {
        source_name
    }
}

pub fn report_source_name(source_name: &str, path: &str) -> (r: String)
    ensures
        r@ == source_name_of(source_name@, path@),
{
    if trim_chars(&chars_of(source_name)).len() == 0 {
        match file_stem_text(path) {
            Some(s) => s,
            None => String::from_str("unknown"),
        }
    } else {
        String::from_str(source_name)
    }
}

/// A club of an export and the canonical name it was stored with.
pub open spec fn entry_names(club: Seq<char>, canonical: Seq<char>) -> Set<Seq<char>> {
    if trim(canonical).len() == 0 {
        set![canonical_club(club)]
    } else {
        set![canonical_club(club), canonical]
    }
}

pub open spec fn pairs_names(v: Seq<(Seq<char>, Seq<char>)>) -> Set<Seq<char>>
    decreases v.len(),
{
    if v.len() == 0 {
        Set::empty()
    } else {
        pairs_names(v.drop_last()) + entry_names(v.last().0, v.last().1)
    }
}

pub open spec fn canonical_names(v: Seq<Seq<char>>) -> Set<Seq<char>>
    decreases v.len(),
{
    if v.len() == 0 {
        Set::empty()
    } else {
        canonical_names(v.drop_last()).insert(canonical_club(v.last()))
    }
}

fn insert_pairs_names(out: &mut Vec<Vec<char>>, v: &Vec<(String, String)>)
    requires
        sorted_strict(views(old(out)@)),
    ensures
        sorted_strict(views(final(out)@)),
        views(final(out)@).to_set() == views(old(out)@).to_set() + pairs_names(pair_views(v@)),
{
    let ghost pv = pair_views(v@);
    let ghost start = views(out@).to_set();
    assert(pv.take(0) =~= Seq::<(Seq<char>, Seq<char>)>::empty());
    assert(start + Set::<Seq<char>>::empty() =~= start);
    let mut i: usize = 0;
    while i < v.len()
        invariant
            0 <= i <= v.len(),
            pv == pair_views(v@),
            sorted_strict(views(out@)),
            views(out@).to_set() == start + pairs_names(pv.take(i as int)),
        decreases v.len() - i,
    {
        assert(pv.take(i + 1).drop_last() =~= pv.take(i as int));
        assert(pv.take(i + 1).last() == (v@[i as int].0@, v@[i as int].1@));
        let ghost before = views(out@).to_set();
        let c = canonical_club_chars(&chars_of(v[i].0.as_str()));
        sorted_insert(out, c);
        let canon = chars_of(v[i].1.as_str());
        if trim_chars(&canon).len() > 0 {
            let ghost mid = views(out@).to_set();
            sorted_insert(out, canon);
            assert(start + pairs_names(pv.take(i + 1)) =~= before.insert(c@).insert(v@[i as int].1@));
        } else {
            assert(start + pairs_names(pv.take(i + 1)) =~= before.insert(c@));
        }
        i += 1;
    }
    assert(pv.take(i as int) =~= pv);
}

/// The canonical names of all clubs of a podium and a participation export:
/// of the known clubs, and of the club and stored canonical name of each
/// podium item and match; in ascending order, each once.
pub fn combined_known_club_names(
    known_clubs: &Vec<String>,
    podium_clubs: &Vec<(String, String)>,
    match_clubs: &Vec<(String, String)>,
) -> (r: Vec<String>)
    ensures
        sorted_strict(strs(r@)),
        strs(r@).to_set() == canonical_names(strs(known_clubs@)) + pairs_names(pair_views(podium_clubs@))
            + pairs_names(pair_views(match_clubs@)),
{
    let ghost ks = strs(known_clubs@);
    let mut out: Vec<Vec<char>> = Vec::new();
    assert(views(out@) =~= Seq::<Seq<char>>::empty());
    assert(views(out@).to_set() =~= Set::<Seq<char>>::empty());
    assert(ks.take(0) =~= Seq::<Seq<char>>::empty());
    let mut i: usize = 0;
    while i < known_clubs.len()
        invariant
            0 <= i <= known_clubs.len(),
            ks == strs(known_clubs@),
            sorted_strict(views(out@)),
            views(out@).to_set() == canonical_names(ks.take(i as int)),
        decreases known_clubs.len() - i,
    {
        assert(ks.take(i + 1).drop_last() =~= ks.take(i as int));
        assert(ks.take(i + 1).last() == known_clubs@[i as int]@);
        sorted_insert(&mut out, canonical_club_chars(&chars_of(known_clubs[i].as_str())));
        i += 1;
    }
    assert(ks.take(i as int) =~= ks);
    insert_pairs_names(&mut out, podium_clubs);
    insert_pairs_names(&mut out, match_clubs);
    strings_of(&out)
}

} // verus!
