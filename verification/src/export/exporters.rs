//! Exports built from crawl reports and earlier exports.
use std::path::PathBuf;

use vstd::prelude::*;

use crate::export::matching::{
    association_admitted, association_district, association_matches, association_name,
    canonical_club, canonical_club_name, continued_name, is_meyton_rank_header, is_meyton_text,
    lookup, meyton_association_code, meyton_code, meyton_continued_shooter_name, meyton_date,
    meyton_discipline_code, meyton_event, meyton_event_date, meyton_event_name, meyton_marked,
    meyton_shooter_name, meyton_team, meyton_team_header, rank_header, shooter_row_name,
    canonical_names, combined_known_club_names, pairs_names, resolve_truncated_club,
    resolved_club, strs,
};
use crate::export::models::{
    entry_views, CombinedExportConfig, EntryScore, EntryView, ManualNameOverrides,
    ParticipationExportConfig, PodiumEntry, PodiumExportConfig, PodiumResultKind, ScoreView,
};
use crate::sport_results::{
    copy_opt_string, copy_string, individual_views, member_views, team_views, EventSpec,
    IndividualSpec, MemberSpec, Rank, SportResultList, TeamSpec,
};
use crate::export::matching::pair_views;
use crate::export::html::{manual_review_pdfs, review_views, reviews_of};
use crate::export::models::ManualReviewPdf;
use crate::ingest::models::PdfReportItem;
use crate::import::podium::last_value;
use crate::text::{
    chars_of, collapse_chars, collapse_ws, ends_with, ends_with_str, eq_chars, lemma_lex_irreflexive, lemma_lex_transitive, lex_less, lex_lt,
    lines, sorted_insert, sorted_strict, split_lines, string_of, trim, trim_chars, views,
};

verus! {

/// Exports the podium places of the focus association.
#[derive(Debug)]
pub struct PodiumExporter {
    config: PodiumExportConfig,
}

impl PodiumExporter {
    /// The configuration it was made with.
    pub closed spec fn spec_config(&self) -> PodiumExportConfig {
        self.config
    }

    pub fn new(config: PodiumExportConfig) -> (r: Self)
        ensures
            r.spec_config() == config,
    {
        PodiumExporter { config }
    }

    /// What it exports and where it writes.
    pub fn config(&self) -> (r: &PodiumExportConfig)
        ensures
            *r == self.spec_config(),
    {
        &self.config
    }
}

/// What a podium export holds besides the moment it was made: the corrected
/// entries in order, their count, the PDFs for manual review, and the
/// report, source, association and place limit it was made for.
#[derive(Debug)]
pub struct PodiumSummary {
    pub source_report_path: PathBuf,
    pub source_name: String,
    pub focus_association_code: String,
    pub max_place: u32,
    pub item_count: usize,
    pub manual_review_count: usize,
    pub manual_review_pdfs: Vec<ManualReviewPdf>,
    pub items: Vec<PodiumEntry>,
}

impl PodiumExporter {
    /// Puts a podium export together from the entries read from the
    /// report's PDFs: the entries are corrected by the manual overrides and
    /// sorted by shooter, club, rank and discipline; the count is the number
    /// of entries; the PDFs for manual review are exactly the report's PDFs
    /// that are not DAVID21+, in the report's order; the report path,
    /// association code and place limit are the configured ones.
    pub fn summary(
        &self,
        entries: Vec<PodiumEntry>,
        source_name: &str,
        pdfs: &Vec<PdfReportItem>,
        manual_review_count: usize,
    ) -> (r: PodiumSummary)
        ensures
            entry_views(r.items@) == sorted_entries(
                entry_views(entries@).map_values(
                    |e: EntryView| corrected_entry(e, self.spec_config().manual_overrides),
                ),
            ),
            r.item_count == r.items.len(),
            review_views(r.manual_review_pdfs@) == reviews_of(pdfs@),
            r.manual_review_count == manual_review_count,
            r.source_report_path == self.spec_config().crawl_report_path,
            r.source_name@ == source_name@,
            r.focus_association_code@ == self.spec_config().focus_association_code@,
            r.max_place == self.spec_config().max_place,
    {
        let mut corrected = entries;
        apply_manual_overrides(&mut corrected, &self.config.manual_overrides);
        let items = sort_entries(&corrected);
        PodiumSummary {
            source_report_path: self.config.crawl_report_path.clone(),
            source_name: String::from_str(source_name),
            focus_association_code: copy_string(&self.config.focus_association_code),
            max_place: self.config.max_place,
            item_count: items.len(),
            manual_review_count,
            manual_review_pdfs: manual_review_pdfs(pdfs),
            items,
        }
    }
}

/// Exports where known clubs took part.
#[derive(Debug)]
pub struct ParticipationExporter {
    config: ParticipationExportConfig,
}

impl ParticipationExporter {
    /// The configuration it was made with.
    pub closed spec fn spec_config(&self) -> ParticipationExportConfig {
        self.config
    }

    pub fn new(config: ParticipationExportConfig) -> (r: Self)
        ensures
            r.spec_config() == config,
    {
        ParticipationExporter { config }
    }

    /// What it exports and where it writes.
    pub fn config(&self) -> (r: &ParticipationExportConfig)
        ensures
            *r == self.spec_config(),
    {
        &self.config
    }
}

/// Combines podium and participation exports by club.
#[derive(Debug)]
pub struct CombinedExporter {
    config: CombinedExportConfig,
}

impl CombinedExporter {
    /// The configuration it was made with.
    pub closed spec fn spec_config(&self) -> CombinedExportConfig {
        self.config
    }

    pub fn new(config: CombinedExportConfig) -> (r: Self)
        ensures
            r.spec_config() == config,
    {
        CombinedExporter { config }
    }

    /// What it combines and where it writes.
    pub fn config(&self) -> (r: &CombinedExportConfig)
        ensures
            *r == self.spec_config(),
    {
        &self.config
    }
}


// ---------------------------------------------------------------------------
// Podium entries of a DAVID21+ result list
// ---------------------------------------------------------------------------

/// Where a podium entry was found.
pub ghost struct EntrySource {
    pub source_name: Seq<char>,
    pub pdf_url: Seq<char>,
    pub local_path: PathBuf,
}

/// The entry of one shooter of a DAVID21+ result list.
pub open spec fn david_entry(
    ev: EventSpec,
    rank: u32,
    kind: PodiumResultKind,
    shooter: Seq<char>,
    club: Seq<char>,
    association: Seq<char>,
    tenths: u64,
    src: EntrySource,
) -> EntryView {
    EntryView {
        source_name: src.source_name,
        rank,
        result_kind: kind,
        shooter,
        club,
        canonical_club: canonical_club(club),
        association_code: association,
        association_name: association_district(association),
        discipline: ev.discipline,
        discipline_code: ev.discipline_code,
        class_name: ev.class_name,
        event_name: ev.name,
        event_date: ev.date,
        score: ScoreView::Tenths(tenths),
        pdf_url: src.pdf_url,
        local_path: src.local_path,
    }
}

/// One entry per member of a placed team.
pub open spec fn member_entries(t: TeamSpec, members: Seq<MemberSpec>, src: EntrySource) -> Seq<EntryView>
    decreases members.len(),
{
    if members.len() == 0 {
        Seq::empty()
    } else {
        member_entries(t, members.drop_last(), src).push(
            david_entry(
                t.event,
                t.rank->0,
                PodiumResultKind::Team,
                members.last().name,
                t.club,
                t.association,
                members.last().total_tenths,
                src,
            ),
        )
    }
}

/// A placed team gives one entry per member, in the members' order: each
/// with the member's name and the member's own total (not the team's),
/// and the team's place, club and association.
pub proof fn lemma_member_entries_carry_member_totals(t: TeamSpec, members: Seq<MemberSpec>, src: EntrySource)
    ensures
        member_entries(t, members, src).len() == members.len(),
        forall|k: int|
            0 <= k < members.len() ==> {
                let e = #[trigger] member_entries(t, members, src)[k];
                &&& e.score == ScoreView::Tenths(members[k].total_tenths)
                &&& e.shooter == members[k].name
                &&& e.rank == t.rank->0
                &&& e.result_kind == PodiumResultKind::Team
                &&& e.club == t.club
                &&& e.association_code == t.association
            },
    decreases members.len(),
{
    if members.len() > 0 {
        lemma_member_entries_carry_member_totals(t, members.drop_last(), src);
        let prev = member_entries(t, members.drop_last(), src);
        assert forall|k: int| 0 <= k < members.len() - 1 implies member_entries(t, members, src)[k] == prev[k]
            && members[k] == members.drop_last()[k] by {}
    }
}

/// The members of the placed teams of the filtered associations.
pub open spec fn team_entries(teams: Seq<TeamSpec>, code: Seq<char>, src: EntrySource) -> Seq<EntryView>
    decreases teams.len(),
{
    if teams.len() == 0 {
        Seq::empty()
    } else {
        let t = teams.last();
        team_entries(teams.drop_last(), code, src) + if association_admitted(t.association, code)
            && t.rank is Some {
            member_entries(t, t.members, src)
        } else {
            Seq::empty()
        }
    }
}

/// The placed individuals of the filtered associations.
pub open spec fn individual_entries(rs: Seq<IndividualSpec>, code: Seq<char>, src: EntrySource) -> Seq<
    EntryView,
>
    decreases rs.len(),
{
    if rs.len() == 0 {
        Seq::empty()
    } else {
        let r = rs.last();
        let prev = individual_entries(rs.drop_last(), code, src);
        match r.rank {
            Rank::Place(p) => if association_admitted(r.association, code) {
                prev.push(
                    david_entry(
                        r.event,
                        p,
                        PodiumResultKind::Individual,
                        r.name,
                        r.club,
                        r.association,
                        r.total_tenths,
                        src,
                    ),
                )
            } else {
                prev
            },
            _ => prev,
        }
    }
}

/// The number of individuals of a list that have a place.
pub open spec fn placed_count(rs: Seq<IndividualSpec>) -> nat
    decreases rs.len(),
{
    if rs.len() == 0 {
        0
    } else {
        placed_count(rs.drop_last()) + if rs.last().rank is Place {
            1nat
        } else {
            0nat
        }
    }
}

/// The number of members of the placed teams of a list.
pub open spec fn placed_member_count(teams: Seq<TeamSpec>) -> nat
    decreases teams.len(),
{
    if teams.len() == 0 {
        0
    } else {
        placed_member_count(teams.drop_last()) + if teams.last().rank is Some {
            teams.last().members.len()
        } else {
            0nat
        }
    }
}

/// With the filter `all` (in any ASCII case) every member of every placed
/// team is exported; with any filter, every exported team entry belongs to
/// a team whose association the filter admits.
pub proof fn lemma_team_filter(teams: Seq<TeamSpec>, code: Seq<char>, src: EntrySource)
    ensures
        crate::text::eq_ignore_ascii_case(code, "all"@) ==> team_entries(teams, code, src).len()
            == placed_member_count(teams),
        forall|i: int|
            0 <= i < team_entries(teams, code, src).len() ==> association_admitted(
                (#[trigger] team_entries(teams, code, src)[i]).association_code,
                code,
            ) && team_entries(teams, code, src)[i].result_kind == PodiumResultKind::Team,
    decreases teams.len(),
{
    if teams.len() > 0 {
        let t = teams.last();
        lemma_team_filter(teams.drop_last(), code, src);
        lemma_member_entries_carry_member_totals(t, t.members, src);
        let prev = team_entries(teams.drop_last(), code, src);
        let all = team_entries(teams, code, src);
        assert forall|i: int| 0 <= i < all.len() implies association_admitted(
            (#[trigger] all[i]).association_code,
            code,
        ) && all[i].result_kind == PodiumResultKind::Team by {
            if i < prev.len() {
                assert(all[i] == prev[i]);
            } else {
                assert(all[i] == member_entries(t, t.members, src)[i - prev.len()]);
            }
        }
    }
}

/// With the filter `all` (in any ASCII case) every placed individual of a
/// list is exported, whatever its association; with any filter, every
/// exported individual has an association that the filter admits.
pub proof fn lemma_individual_filter(rs: Seq<IndividualSpec>, code: Seq<char>, src: EntrySource)
    ensures
        crate::text::eq_ignore_ascii_case(code, "all"@) ==> individual_entries(rs, code, src).len()
            == placed_count(rs),
        forall|i: int|
            0 <= i < individual_entries(rs, code, src).len() ==> association_admitted(
                (#[trigger] individual_entries(rs, code, src)[i]).association_code,
                code,
            ),
    decreases rs.len(),
{
    if rs.len() > 0 {
        lemma_individual_filter(rs.drop_last(), code, src);
        let prev = individual_entries(rs.drop_last(), code, src);
        assert forall|i: int|
            0 <= i < individual_entries(rs, code, src).len() implies association_admitted(
            (#[trigger] individual_entries(rs, code, src)[i]).association_code,
            code,
        ) by {
            if i < prev.len() {
                assert(individual_entries(rs, code, src)[i] == prev[i]);
            }
        }
    }
}

fn entry_from(
    ev: &crate::sport_results::EventInfo,
    rank: u32,
    kind: PodiumResultKind,
    shooter: &String,
    club: &String,
    association: &String,
    tenths: u64,
    source_name: &str,
    pdf_url: &str,
    local_path: &PathBuf,
) -> (r: PodiumEntry)
    ensures
        r@ == david_entry(
            ev@,
            rank,
            kind,
            shooter@,
            club@,
            association@,
            tenths,
            EntrySource { source_name: source_name@, pdf_url: pdf_url@, local_path: *local_path },
        ),
{
    PodiumEntry {
        source_name: String::from_str(source_name),
        rank,
        result_kind: kind,
        shooter: copy_string(shooter),
        club: copy_string(club),
        canonical_club: canonical_club_name(club.as_str()),
        association_code: copy_string(association),
        association_name: association_name(association.as_str()),
        discipline: copy_opt_string(&ev.discipline),
        discipline_code: copy_opt_string(&ev.discipline_code),
        class_name: copy_opt_string(&ev.class_name),
        event_name: copy_string(&ev.name),
        event_date: copy_opt_string(&ev.date),
        score: EntryScore::Tenths(tenths),
        pdf_url: String::from_str(pdf_url),
        local_path: local_path.clone(),
    }
}

impl PodiumExporter {
    /// The podium entries of a DAVID21+ result list: the members of every
    /// placed team and every placed individual of the focus association (or
    /// of all, for `all`), teams first, in list order.
    pub fn export_items_from_result_list(
        &self,
        result_list: &SportResultList,
        source_name: &str,
        pdf_url: &str,
        local_path: &PathBuf,
    ) -> (r: Vec<PodiumEntry>)
        ensures
            entry_views(r@) == team_entries(
                result_list@.team_results,
                trim(self.spec_config().focus_association_code@),
                EntrySource { source_name: source_name@, pdf_url: pdf_url@, local_path: *local_path },
            ) + individual_entries(
                result_list@.individual_results,
                trim(self.spec_config().focus_association_code@),
                EntrySource { source_name: source_name@, pdf_url: pdf_url@, local_path: *local_path },
            ),
    {
        let ghost src = EntrySource {
            source_name: source_name@,
            pdf_url: pdf_url@,
            local_path: *local_path,
        };
        let code = string_of(&trim_chars(&chars_of(self.config.focus_association_code.as_str())));
        let ghost tv = team_views(result_list.team_results@);
        let ghost iv = individual_views(result_list.individual_results@);
        let mut items: Vec<PodiumEntry> = Vec::new();
        let mut i: usize = 0;
        while i < result_list.team_results.len()
            invariant
                0 <= i <= result_list.team_results.len(),
                tv == team_views(result_list.team_results@),
                code@ == trim(self.spec_config().focus_association_code@),
                src == (EntrySource {
                    source_name: source_name@,
                    pdf_url: pdf_url@,
                    local_path: *local_path,
                }),
                entry_views(items@) == team_entries(tv.take(i as int), code@, src),
            decreases result_list.team_results.len() - i,
        {
            let team = &result_list.team_results[i];
            assert(tv.take(i + 1).drop_last() =~= tv.take(i as int));
            assert(tv.take(i + 1).last() == team@);
            let ghost before = entry_views(items@);
            if association_matches(team.association.as_str(), code.as_str()) && team.rank.is_some() {
                let rank = match team.rank {
                    Some(r) => r,
                    None => 0,
                };
                let ghost mv = member_views(team.members@);
                let mut k: usize = 0;
                while k < team.members.len()
                    invariant
                        0 <= k <= team.members.len(),
                        mv == member_views(team.members@),
                        team.rank == Some(rank),
                        entry_views(items@) == before + member_entries(team@, mv.take(k as int), src),
                        src == (EntrySource {
                            source_name: source_name@,
                            pdf_url: pdf_url@,
                            local_path: *local_path,
                        }),
                    decreases team.members.len() - k,
                {
                    let m = &team.members[k];
                    assert(mv.take(k + 1).drop_last() =~= mv.take(k as int));
                    assert(mv.take(k + 1).last() == m@);
                    let e = entry_from(
                        &team.event,
                        rank,
                        PodiumResultKind::Team,
                        &m.name,
                        &team.club,
                        &team.association,
                        m.total_tenths,
                        source_name,
                        pdf_url,
                        local_path,
                    );
                    let ghost old_items = entry_views(items@);
                    items.push(e);
                    assert(entry_views(items@) =~= old_items.push(e@));
                    k += 1;
                }
                assert(mv.take(k as int) =~= mv);
                assert(team@.members == mv);
            } else {
                assert(before + Seq::<EntryView>::empty() =~= before);
            }
            i += 1;
        }
        assert(tv.take(i as int) =~= tv);
        let ghost after_teams = entry_views(items@);
        let mut j: usize = 0;
        while j < result_list.individual_results.len()
            invariant
                0 <= j <= result_list.individual_results.len(),
                iv == individual_views(result_list.individual_results@),
                code@ == trim(self.spec_config().focus_association_code@),
                src == (EntrySource {
                    source_name: source_name@,
                    pdf_url: pdf_url@,
                    local_path: *local_path,
                }),
                entry_views(items@) == after_teams + individual_entries(iv.take(j as int), code@, src),
            decreases result_list.individual_results.len() - j,
        {
            let r = &result_list.individual_results[j];
            assert(iv.take(j + 1).drop_last() =~= iv.take(j as int));
            assert(iv.take(j + 1).last() == r@);
            if let Rank::Place(p) = r.rank {
                if association_matches(r.association.as_str(), code.as_str()) {
                    let e = entry_from(
                        &r.event,
                        p,
                        PodiumResultKind::Individual,
                        &r.name,
                        &r.club,
                        &r.association,
                        r.total_tenths,
                        source_name,
                        pdf_url,
                        local_path,
                    );
                    let ghost old_items = entry_views(items@);
                    items.push(e);
                    assert(entry_views(items@) =~= old_items.push(e@));
                    assert(after_teams + individual_entries(iv.take(j + 1), code@, src) =~= (after_teams
                        + individual_entries(iv.take(j as int), code@, src)).push(e@));
                }
            }
            j += 1;
        }
        assert(iv.take(j as int) =~= iv);
        items
    }
}

// ---------------------------------------------------------------------------
// Order and corrections of podium entries
// ---------------------------------------------------------------------------

/// `Option<String>` order: nothing first, then text order.
pub open spec fn opt_lt(a: Option<Seq<char>>, b: Option<Seq<char>>) -> bool {
    match (a, b) {
        (None, Some(_)) => true,
        (Some(x), Some(y)) => lex_lt(x, y),
        _ => false,
    }
}

/// Entries are ordered by shooter, club, rank and discipline.
pub open spec fn entry_before(a: EntryView, b: EntryView) -> bool {
    ||| lex_lt(a.shooter, b.shooter)
    ||| (a.shooter == b.shooter && lex_lt(a.club, b.club))
    ||| (a.shooter == b.shooter && a.club == b.club && a.rank < b.rank)
    ||| (a.shooter == b.shooter && a.club == b.club && a.rank == b.rank && opt_lt(
        a.discipline,
        b.discipline,
    ))
}

/// Where `x` goes into an ordered list: before the first entry that it
/// precedes, so after every entry equal to it.
pub open spec fn insert_position(s: Seq<EntryView>, x: EntryView) -> int
    decreases s.len(),
{
    if s.len() == 0 {
        0
    } else if entry_before(x, s[0]) {
        0
    } else {
        1 + insert_position(s.drop_first(), x)
    }
}

/// The entries in order, equal ones in the order they came (a stable sort).
pub open spec fn sorted_entries(s: Seq<EntryView>) -> Seq<EntryView>
    decreases s.len(),
{
    if s.len() == 0 {
        Seq::empty()
    } else {
        let prev = sorted_entries(s.drop_last());
        prev.insert(insert_position(prev, s.last()), s.last())
    }
}

proof fn lemma_insert_position(s: Seq<EntryView>, x: EntryView, i: int)
    requires
        0 <= i <= s.len(),
        forall|j: int| 0 <= j < i ==> !entry_before(x, #[trigger] s[j]),
        i == s.len() || entry_before(x, s[i]),
    ensures
        insert_position(s, x) == i,
    decreases i,
{
    if i > 0 {
        assert forall|j: int| 0 <= j < i - 1 implies !entry_before(x, #[trigger] s.drop_first()[j]) by {
            assert(s.drop_first()[j] == s[j + 1]);
        }
        if i < s.len() {
            assert(s.drop_first()[i - 1] == s[i]);
        }
        assert(!entry_before(x, s[0]));
        lemma_insert_position(s.drop_first(), x, i - 1);
    }
}

proof fn lemma_opt_lt_order(a: Option<Seq<char>>, b: Option<Seq<char>>, c: Option<Seq<char>>)
    ensures
        !opt_lt(a, a),
        opt_lt(a, b) && opt_lt(b, c) ==> opt_lt(a, c),
{
    if let Some(x) = a {
        lemma_lex_irreflexive(x);
    }
    if let (Some(x), Some(y), Some(z)) = (a, b, c) {
        if lex_lt(x, y) && lex_lt(y, z) {
            lemma_lex_transitive(x, y, z);
        }
    }
}

/// `entry_before` is a strict order: irreflexive and transitive.
proof fn lemma_entry_before_order(a: EntryView, b: EntryView, c: EntryView)
    ensures
        !entry_before(a, a),
        entry_before(a, b) && entry_before(b, c) ==> entry_before(a, c),
{
    lemma_lex_irreflexive(a.shooter);
    lemma_lex_irreflexive(a.club);
    lemma_opt_lt_order(a.discipline, b.discipline, c.discipline);
    if lex_lt(a.shooter, b.shooter) && lex_lt(b.shooter, c.shooter) {
        lemma_lex_transitive(a.shooter, b.shooter, c.shooter);
    }
    if lex_lt(a.club, b.club) && lex_lt(b.club, c.club) {
        lemma_lex_transitive(a.club, b.club, c.club);
    }
}

proof fn lemma_insert_position_bounds(s: Seq<EntryView>, x: EntryView)
    ensures
        0 <= insert_position(s, x) <= s.len(),
        forall|j: int| 0 <= j < insert_position(s, x) ==> !entry_before(x, #[trigger] s[j]),
        insert_position(s, x) < s.len() ==> entry_before(x, s[insert_position(s, x)]),
    decreases s.len(),
{
    if s.len() > 0 && !entry_before(x, s[0]) {
        let t = s.drop_first();
        lemma_insert_position_bounds(t, x);
        assert forall|j: int| 0 <= j < insert_position(s, x) implies !entry_before(x, #[trigger] s[j]) by {
            if j > 0 {
                assert(s[j] == t[j - 1]);
            }
        }
        if insert_position(s, x) < s.len() {
            assert(s[insert_position(s, x)] == t[insert_position(t, x)]);
        }
    }
}

/// No entry comes after one that it precedes.
pub open spec fn entries_ordered(s: Seq<EntryView>) -> bool {
    forall|i: int, j: int| 0 <= i < j < s.len() ==> !entry_before(#[trigger] s[j], #[trigger] s[i])
}

/// Sorting podium entries keeps each entry as often as it came, and the
/// result is ordered by shooter, club, rank and discipline.
pub proof fn lemma_sorted_entries_are_an_ordered_permutation(s: Seq<EntryView>)
    ensures
        sorted_entries(s).to_multiset() == s.to_multiset(),
        sorted_entries(s).len() == s.len(),
        entries_ordered(sorted_entries(s)),
    decreases s.len(),
{
    broadcast use vstd::seq_lib::to_multiset_build, vstd::seq_lib::to_multiset_insert;

    if s.len() > 0 {
        let prev = sorted_entries(s.drop_last());
        let x = s.last();
        lemma_sorted_entries_are_an_ordered_permutation(s.drop_last());
        lemma_insert_position_bounds(prev, x);
        let p = insert_position(prev, x);
        let r = prev.insert(p, x);
        assert(s =~= s.drop_last().push(x));
        assert(s.drop_last().push(x).to_multiset() == s.drop_last().to_multiset().insert(x));
        assert(r.to_multiset() == prev.to_multiset().insert(x));
        assert forall|i: int, j: int| 0 <= i < j < r.len() implies !entry_before(
            #[trigger] r[j],
            #[trigger] r[i],
        ) by {
            if j < p {
                assert(r[i] == prev[i] && r[j] == prev[j]);
            } else if j == p {
                assert(r[i] == prev[i] && r[j] == x);
            } else if i > p {
                assert(r[i] == prev[i - 1] && r[j] == prev[j - 1]);
            } else if i == p {
                assert(r[i] == x && r[j] == prev[j - 1]);
                lemma_entry_before_order(prev[j - 1], x, prev[p]);
                lemma_entry_before_order(prev[p], x, prev[p]);
                if j - 1 > p {
                    assert(!entry_before(prev[j - 1], prev[p]));
                }
            } else {
                assert(r[i] == prev[i] && r[j] == prev[j - 1]);
            }
        }
    } else {
        assert(s =~= Seq::<EntryView>::empty());
    }
}

fn opt_less(a: &Option<String>, b: &Option<String>) -> (r: bool)
    ensures
        r == opt_lt(crate::export::models::opt_seq(*a), crate::export::models::opt_seq(*b)),
{
    match (a, b) {
        (None, Some(_)) => true,
        (Some(x), Some(y)) => lex_less(&chars_of(x.as_str()), &chars_of(y.as_str())),
        _ => false,
    }
}

pub fn entry_less(a: &PodiumEntry, b: &PodiumEntry) -> (r: bool)
    ensures
        r == entry_before(a@, b@),
{
    let sa = chars_of(a.shooter.as_str());
    let sb = chars_of(b.shooter.as_str());
    if lex_less(&sa, &sb) {
        return true;
    }
    if !eq_chars(&sa, &sb) {
        return false;
    }
    let ca = chars_of(a.club.as_str());
    let cb = chars_of(b.club.as_str());
    if lex_less(&ca, &cb) {
        return true;
    }
    if !eq_chars(&ca, &cb) {
        return false;
    }
    if a.rank < b.rank {
        return true;
    }
    if a.rank != b.rank {
        return false;
    }
    opt_less(&a.discipline, &b.discipline)
}

/// Podium entries ordered by shooter, club, rank and discipline; equal ones
/// keep their order.
pub fn sort_entries(items: &Vec<PodiumEntry>) -> (r: Vec<PodiumEntry>)
    ensures
        entry_views(r@) == sorted_entries(entry_views(items@)),
{
    let ghost iv = entry_views(items@);
    let mut out: Vec<PodiumEntry> = Vec::new();
    let mut i: usize = 0;
    assert(iv.take(0) =~= Seq::<EntryView>::empty());
    while i < items.len()
        invariant
            0 <= i <= items.len(),
            iv == entry_views(items@),
            entry_views(out@) == sorted_entries(iv.take(i as int)),
        decreases items.len() - i,
    {
        let x = copy_entry(&items[i]);
        assert(x@ == iv[i as int]);
        let mut k: usize = 0;
        let ghost ov = entry_views(out@);
        while k < out.len() && !entry_less(&x, &out[k])
            invariant
                0 <= k <= out.len(),
                ov == entry_views(out@),
                forall|j: int| 0 <= j < k ==> !entry_before(x@, #[trigger] ov[j]),
            decreases out.len() - k,
        {
            k += 1;
        }
        proof {
            lemma_insert_position(ov, x@, k as int);
            assert(iv.take(i + 1).drop_last() =~= iv.take(i as int));
            assert(iv.take(i + 1).last() == x@);
        }
        out.insert(k, x);
        assert(entry_views(out@) =~= ov.insert(k as int, x@));
        i += 1;
    }
    assert(iv.take(i as int) =~= iv);
    out
}

/// An entry with the manual corrections applied to its shooter and its
/// canonical club.
pub open spec fn corrected_entry(e: EntryView, o: ManualNameOverrides) -> EntryView {
    EntryView {
        shooter: match last_value(pair_views(o.athlete_names@), e.shooter) {
            Some(v) => v,
            None => e.shooter,
        },
        canonical_club: match last_value(pair_views(o.club_names@), e.canonical_club) {
            Some(v) => v,
            None => match last_value(pair_views(o.club_names@), e.club) {
                Some(v) => v,
                None => e.canonical_club,
            },
        },
        ..e
    }
}

/// A correction changes only the shooter and the canonical club of an
/// entry: its raw club, rank, score and source stay as the parser found
/// them. Without corrections an entry stays as it is, and of two
/// corrections of one name the later one wins.
pub proof fn lemma_corrections_keep_raw_values(
    e: EntryView,
    o: ManualNameOverrides,
    from: Seq<char>,
    to: Seq<char>,
)
    ensures
        corrected_entry(e, o) == (EntryView {
            shooter: corrected_entry(e, o).shooter,
            canonical_club: corrected_entry(e, o).canonical_club,
            ..e
        }),
        o.club_names@.len() == 0 && o.athlete_names@.len() == 0 ==> corrected_entry(e, o) == e,
        last_value(pair_views(o.athlete_names@).push((from, to)), from) == Some(to),
{
}

pub fn copy_entry(e: &PodiumEntry) -> (r: PodiumEntry)
    ensures
        r@ == e@,
{
    PodiumEntry {
        source_name: copy_string(&e.source_name),
        rank: e.rank,
        result_kind: e.result_kind,
        shooter: copy_string(&e.shooter),
        club: copy_string(&e.club),
        canonical_club: copy_string(&e.canonical_club),
        association_code: copy_string(&e.association_code),
        association_name: copy_string(&e.association_name),
        discipline: copy_opt_string(&e.discipline),
        discipline_code: copy_opt_string(&e.discipline_code),
        class_name: copy_opt_string(&e.class_name),
        event_name: copy_string(&e.event_name),
        event_date: copy_opt_string(&e.event_date),
        score: match &e.score {
            EntryScore::Tenths(t) => EntryScore::Tenths(*t),
            EntryScore::MeytonRow(r) => EntryScore::MeytonRow(copy_string(r)),
        },
        pdf_url: copy_string(&e.pdf_url),
        local_path: e.local_path.clone(),
    }
}

/// Applies manual name corrections to every entry: the shooter by its name,
/// the canonical club by itself or by the raw club.
pub fn apply_manual_overrides(items: &mut Vec<PodiumEntry>, overrides: &ManualNameOverrides)
    ensures
        entry_views(final(items)@) == entry_views(old(items)@).map_values(
            |e: EntryView| corrected_entry(e, *overrides),
        ),
{
    let ghost iv = entry_views(items@);
    let mut out: Vec<PodiumEntry> = Vec::new();
    let mut i: usize = 0;
    while i < items.len()
        invariant
            0 <= i <= items.len(),
            iv == entry_views(items@),
            entry_views(out@) == iv.take(i as int).map_values(
                |e: EntryView| corrected_entry(e, *overrides),
            ),
        decreases items.len() - i,
    {
        let mut e = copy_entry(&items[i]);
        let shooter = overrides.corrected_athlete_name(e.shooter.as_str());
        let canonical = overrides.corrected_club_name(e.club.as_str(), e.canonical_club.as_str());
        e.shooter = shooter;
        e.canonical_club = canonical;
        let ghost old_out = entry_views(out@);
        assert(iv[i as int] == items@[i as int]@);
        assert(e@ == corrected_entry(iv[i as int], *overrides));
        out.push(e);
        assert(entry_views(out@) =~= old_out.push(corrected_entry(iv[i as int], *overrides)));
        assert(entry_views(out@) =~= iv.take(i + 1).map_values(
            |e: EntryView| corrected_entry(e, *overrides),
        ));
        i += 1;
    }
    assert(iv.take(i as int) =~= iv);
    *items = out;
}

// ---------------------------------------------------------------------------
// Podium entries of a Meyton team result list
// ---------------------------------------------------------------------------

/// What a Meyton result list is read with: the known clubs, their
/// association codes, the fallback code and where the list was found.
pub ghost struct MeytonContext {
    pub known_clubs: Seq<Seq<char>>,
    pub associations: Seq<(Seq<char>, Seq<char>)>,
    pub fallback_code: Seq<char>,
    pub src: EntrySource,
}

/// The state of reading a Meyton list: the current event, the current team
/// (rank, club, members read), a shooter whose name continues on the next
/// line (name so far, the row it was read from), and the entries so far.
pub ghost struct MeytonState {
    pub event_name: Seq<char>,
    pub event_date: Option<Seq<char>>,
    pub discipline_code: Option<Seq<char>>,
    pub team: Option<(u32, Seq<char>, nat)>,
    pub pending: Option<(Seq<char>, Seq<char>)>,
    pub entries: Seq<EntryView>,
}

pub open spec fn meyton_start() -> MeytonState {
    MeytonState {
        event_name: Seq::empty(),
        event_date: None,
        discipline_code: None,
        team: None,
        pending: None,
        entries: Seq::empty(),
    }
}

/// The entry of a Meyton team member.
pub open spec fn meyton_entry(
    st: MeytonState,
    rank: u32,
    club: Seq<char>,
    name: Seq<char>,
    row: Seq<char>,
    ctx: MeytonContext,
) -> EntryView {
    let code = match lookup(ctx.associations, canonical_club(club)) {
        Some(c) => c,
        None => ctx.fallback_code,
    };
    EntryView {
        source_name: ctx.src.source_name,
        rank,
        result_kind: PodiumResultKind::Individual,
        shooter: name,
        club,
        canonical_club: canonical_club(club),
        association_code: code,
        association_name: association_district(code),
        discipline: Some(st.event_name),
        discipline_code: st.discipline_code,
        class_name: Some("Mixed"@),
        event_name: st.event_name,
        event_date: st.event_date,
        score: ScoreView::MeytonRow(row),
        pdf_url: ctx.src.pdf_url,
        local_path: ctx.src.local_path,
    }
}

/// A shooter line below a team header: the first two complete names become
/// entries; a name that ends in a comma waits for its continuation.
pub open spec fn meyton_member_step(st: MeytonState, line: Seq<char>, ctx: MeytonContext) -> MeytonState {
    match st.team {
        None => st,
        Some((rank, club, count)) => if count >= 2 {
            st
        } else {
            let shooter: Option<(Seq<char>, Seq<char>)> = match st.pending {
                None => match shooter_row_name(line) {
                    Some(n) => Some((n, line)),
                    None => None,
                },
                Some((prefix, row)) => match continued_name(prefix, line) {
                    Some(n) => Some((n, row)),
                    None => None,
                },
            };
            let st1 = MeytonState { pending: None, ..st };
            match shooter {
                None => st1,
                Some((name, row)) => if ends_with(name, ","@) {
                    MeytonState { pending: Some((name, row)), ..st1 }
                } else {
                    MeytonState {
                        team: Some((rank, club, count + 1)),
                        entries: st1.entries.push(meyton_entry(st1, rank, club, name, row, ctx)),
                        ..st1
                    }
                },
            }
        },
    }
}

/// One line of a Meyton list, white space already collapsed.
pub open spec fn meyton_step(st: MeytonState, line: Seq<char>, ctx: MeytonContext) -> MeytonState {
    match meyton_event(line) {
        Some(name) => MeytonState {
            event_name: name,
            event_date: None,
            discipline_code: meyton_code(lines(name)),
            team: None,
            pending: None,
            ..st
        },
        None => {
            let st1 = if st.event_date is None {
                MeytonState { event_date: meyton_date(lines(line)), ..st }
            } else {
                st
            };
            let st2 = if rank_header(line) {
                MeytonState { team: None, pending: None, ..st1 }
            } else {
                st1
            };
            match meyton_team(line, ctx.known_clubs) {
                Some((rank, club)) => MeytonState { team: Some((rank, club, 0)), pending: None, ..st2 },
                None => meyton_member_step(st2, line, ctx),
            }
        },
    }
}

pub open spec fn meyton_run(ls: Seq<Seq<char>>, ctx: MeytonContext) -> MeytonState
    decreases ls.len(),
{
    if ls.len() == 0 {
        meyton_start()
    } else {
        meyton_step(meyton_run(ls.drop_last(), ctx), collapse_ws(ls.last()), ctx)
    }
}

/// The reading state in executable form.
struct MeytonReader {
    event_name: String,
    event_date: Option<String>,
    discipline_code: Option<String>,
    team: Option<(u32, String, usize)>,
    pending: Option<(String, String)>,
    entries: Vec<PodiumEntry>,
}

impl View for MeytonReader {
    type V = MeytonState;

    closed spec fn view(&self) -> MeytonState {
        MeytonState {
            event_name: self.event_name@,
            event_date: crate::export::models::opt_seq(self.event_date),
            discipline_code: crate::export::models::opt_seq(self.discipline_code),
            team: match self.team {
                Some((r, c, n)) => Some((r, c@, n as nat)),
                None => None,
            },
            pending: match self.pending {
                Some((n, r)) => Some((n@, r@)),
                None => None,
            },
            entries: entry_views(self.entries@),
        }
    }
}

impl MeytonReader {
    closed spec fn wf(&self) -> bool {
        self.team matches Some((_, _, n)) ==> n <= 2
    }

    fn member_line(
        self,
        line: &String,
        known_club_associations: &Vec<(String, String)>,
        fallback: &str,
        source_name: &str,
        pdf_url: &str,
        local_path: &PathBuf,
        ctx: Ghost<MeytonContext>,
    ) -> (r: MeytonReader)
        requires
            self.wf(),
            ctx@.associations == pair_views(known_club_associations@),
            ctx@.fallback_code == fallback@,
            ctx@.src == (EntrySource {
                source_name: source_name@,
                pdf_url: pdf_url@,
                local_path: *local_path,
            }),
        ensures
            r.wf(),
            r@ == meyton_member_step(self@, line@, ctx@),
    {
        let mut st = self;
        let (rank, club, count) = match &st.team {
            None => {
                return st;
            },
            Some((r, c, n)) => (*r, copy_string(c), *n),
        };
        if count >= 2 {
            return st;
        }
        let pending = st.pending.take();
        let shooter: Option<(String, String)> = match pending {
            None => match meyton_shooter_name(line.as_str()) {
                Some(n) => Some((n, copy_string(line))),
                None => None,
            },
            Some((prefix, row)) => match meyton_continued_shooter_name(prefix.as_str(), line.as_str()) {
                Some(n) => Some((n, row)),
                None => None,
            },
        };
        let (name, row) = match shooter {
            None => {
                return st;
            },
            Some(s) => s,
        };
        if ends_with_str(&chars_of(name.as_str()), ",") {
            st.pending = Some((name, row));
            return st;
        }
        let code = meyton_association_code(club.as_str(), known_club_associations, fallback);
        let entry = PodiumEntry {
            source_name: String::from_str(source_name),
            rank,
            result_kind: PodiumResultKind::Individual,
            shooter: name,
            club: copy_string(&club),
            canonical_club: canonical_club_name(club.as_str()),
            association_name: association_name(code.as_str()),
            association_code: code,
            discipline: Some(copy_string(&st.event_name)),
            discipline_code: copy_opt_string(&st.discipline_code),
            class_name: Some(String::from_str("Mixed")),
            event_name: copy_string(&st.event_name),
            event_date: copy_opt_string(&st.event_date),
            score: EntryScore::MeytonRow(row),
            pdf_url: String::from_str(pdf_url),
            local_path: local_path.clone(),
        };
        let ghost old_entries = entry_views(st.entries@);
        st.entries.push(entry);
        assert(entry_views(st.entries@) =~= old_entries.push(entry@));
        st.team = Some((rank, club, count + 1));
        st
    }

    fn line(
        self,
        line: &String,
        known_clubs: &Vec<String>,
        known_club_associations: &Vec<(String, String)>,
        fallback: &str,
        source_name: &str,
        pdf_url: &str,
        local_path: &PathBuf,
        ctx: Ghost<MeytonContext>,
    ) -> (r: MeytonReader)
        requires
            self.wf(),
            ctx@.known_clubs == crate::export::matching::strs(known_clubs@),
            ctx@.associations == pair_views(known_club_associations@),
            ctx@.fallback_code == fallback@,
            ctx@.src == (EntrySource {
                source_name: source_name@,
                pdf_url: pdf_url@,
                local_path: *local_path,
            }),
        ensures
            r.wf(),
            r@ == meyton_step(self@, line@, ctx@),
    {
        let mut st = self;
        if let Some(name) = meyton_event_name(line.as_str()) {
            st.discipline_code = meyton_discipline_code(name.as_str());
            st.event_name = name;
            st.event_date = None;
            st.team = None;
            st.pending = None;
            return st;
        }
        if st.event_date.is_none() {
            st.event_date = meyton_event_date(line.as_str());
        }
        if is_meyton_rank_header(line.as_str()) {
            st.team = None;
            st.pending = None;
        }
        match meyton_team_header(line.as_str(), known_clubs) {
            Some(team) => {
                st.team = Some((team.rank, team.club, 0));
                st.pending = None;
                st
            },
            None => st.member_line(
                line,
                known_club_associations,
                fallback,
                source_name,
                pdf_url,
                local_path,
                ctx,
            ),
        }
    }
}

impl PodiumExporter {
    /// The podium entries of a Meyton team result list: for each known
    /// club's team header, the first two shooters named below it, each
    /// with the team's rank.
    pub fn export_meyton_team_items(
        &self,
        text: &str,
        known_clubs: &Vec<String>,
        known_club_associations: &Vec<(String, String)>,
        source_name: &str,
        pdf_url: &str,
        local_path: &PathBuf,
    ) -> (r: Vec<PodiumEntry>)
        ensures
            entry_views(r@) == if meyton_marked(text@) {
                meyton_run(
                    lines(text@),
                    MeytonContext {
                        known_clubs: crate::export::matching::strs(known_clubs@),
                        associations: pair_views(known_club_associations@),
                        fallback_code: self.spec_config().focus_association_code@,
                        src: EntrySource {
                            source_name: source_name@,
                            pdf_url: pdf_url@,
                            local_path: *local_path,
                        },
                    },
                ).entries
            } else {
                Seq::<EntryView>::empty()
            },
    {
        if !is_meyton_text(text) {
            let none: Vec<PodiumEntry> = Vec::new();
            assert(entry_views(none@) =~= Seq::<EntryView>::empty());
            return none;
        }
        let ghost ctx = MeytonContext {
            known_clubs: crate::export::matching::strs(known_clubs@),
            associations: pair_views(known_club_associations@),
            fallback_code: self.config.focus_association_code@,
            src: EntrySource { source_name: source_name@, pdf_url: pdf_url@, local_path: *local_path },
        };
        let ls = split_lines(&chars_of(text));
        let ghost lv = views(ls@);
        let entries: Vec<PodiumEntry> = Vec::new();
        let mut st = MeytonReader {
            event_name: String::new(),
            event_date: None,
            discipline_code: None,
            team: None,
            pending: None,
            entries,
        };
        assert(entry_views(st.entries@) =~= Seq::<EntryView>::empty());
        assert(st@ == meyton_start());
        assert(lv.take(0) =~= Seq::<Seq<char>>::empty());
        let mut i: usize = 0;
        while i < ls.len()
            invariant
                0 <= i <= ls.len(),
                lv == views(ls@),
                st.wf(),
                st@ == meyton_run(lv.take(i as int), ctx),
                ctx.known_clubs == crate::export::matching::strs(known_clubs@),
                ctx.associations == pair_views(known_club_associations@),
                ctx.fallback_code == self.config.focus_association_code@,
                ctx.src == (EntrySource {
                    source_name: source_name@,
                    pdf_url: pdf_url@,
                    local_path: *local_path,
                }),
            decreases ls.len() - i,
        {
            assert(lv.take(i + 1).drop_last() =~= lv.take(i as int));
            assert(lv.take(i + 1).last() == ls@[i as int]@);
            let line = string_of(&collapse_chars(&ls[i]));
            st = st.line(
                &line,
                known_clubs,
                known_club_associations,
                self.config.focus_association_code.as_str(),
                source_name,
                pdf_url,
                local_path,
                Ghost(ctx),
            );
            i += 1;
        }
        assert(lv.take(i as int) =~= lv);
        st.entries
    }
}

// ---------------------------------------------------------------------------
// Combining podium and participation exports by club
// ---------------------------------------------------------------------------

/// What the combination reads of a podium item.
#[derive(Debug, Clone)]
pub struct CombinedPodiumKey {
    pub club: String,
    pub canonical_club: String,
    pub shooter: String,
    pub rank: u32,
    pub discipline: Option<String>,
}

/// What the combination reads of a participation match.
#[derive(Debug, Clone)]
pub struct CombinedMatchKey {
    pub club: String,
    pub canonical_club: String,
    pub pdf_url: String,
}

/// One club of the combined export: the positions of its podium items and
/// of its matches in the inputs, in the order they are shown.
#[derive(Debug, Clone)]
pub struct CombinedGroup {
    pub club: String,
    pub podium_items: Vec<usize>,
    pub participation_matches: Vec<usize>,
}

/// How two exports combine: the known names that cut-off names are
/// resolved against, the resolved club of each podium item and match, and
/// the clubs in ascending order.
#[derive(Debug, Clone)]
pub struct CombinedPlan {
    pub known_names: Vec<String>,
    pub podium_clubs: Vec<String>,
    pub match_clubs: Vec<String>,
    pub clubs: Vec<CombinedGroup>,
    pub club_count: usize,
    pub podium_item_count: usize,
    pub participation_match_count: usize,
}

/// The number of podium items over all groups.
pub open spec fn podium_sum(gs: Seq<CombinedGroup>) -> int
    decreases gs.len(),
{
    if gs.len() == 0 {
        0
    } else {
        podium_sum(gs.drop_last()) + gs.last().podium_items.len()
    }
}

/// The number of matches over all groups.
pub open spec fn match_sum(gs: Seq<CombinedGroup>) -> int
    decreases gs.len(),
{
    if gs.len() == 0 {
        0
    } else {
        match_sum(gs.drop_last()) + gs.last().participation_matches.len()
    }
}

/// How often `x` occurs in `ks`.
spec fn occurrences(ks: Seq<Seq<char>>, x: Seq<char>) -> int
    decreases ks.len(),
{
    if ks.len() == 0 {
        0
    } else {
        occurrences(ks.drop_last(), x) + if ks.last() == x {
            1int
        } else {
            0int
        }
    }
}

/// The number of positions of each of `ks` in `cs`, summed.
spec fn count_sum(ks: Seq<Seq<char>>, cs: Seq<Seq<char>>) -> int
    decreases ks.len(),
{
    if ks.len() == 0 {
        0
    } else {
        count_sum(ks.drop_last(), cs) + positions_of(cs, ks.last()).len()
    }
}

spec fn distinct(ks: Seq<Seq<char>>) -> bool {
    forall|i: int, j: int| 0 <= i < j < ks.len() ==> #[trigger] ks[i] != #[trigger] ks[j]
}

proof fn lemma_count_sum_step(ks: Seq<Seq<char>>, cs: Seq<Seq<char>>)
    requires
        cs.len() > 0,
    ensures
        count_sum(ks, cs) == count_sum(ks, cs.drop_last()) + occurrences(ks, cs.last()),
    decreases ks.len(),
{
    if ks.len() > 0 {
        lemma_count_sum_step(ks.drop_last(), cs);
    }
}

proof fn lemma_occurrences(ks: Seq<Seq<char>>, x: Seq<char>)
    requires
        distinct(ks),
    ensures
        occurrences(ks, x) == if ks.contains(x) {
            1int
        } else {
            0int
        },
    decreases ks.len(),
{
    if ks.len() > 0 {
        let init = ks.drop_last();
        assert(distinct(init)) by {
            assert forall|i: int, j: int| 0 <= i < j < init.len() implies #[trigger] init[i]
                != #[trigger] init[j] by {
                assert(init[i] == ks[i] && init[j] == ks[j]);
            }
        }
        lemma_occurrences(init, x);
        if ks.last() == x {
            assert(!init.contains(x)) by {
                if init.contains(x) {
                    let i = choose|i: int| 0 <= i < init.len() && init[i] == x;
                    assert(ks[i] == x && ks[ks.len() - 1] == x);
                }
            }
            assert(ks.contains(x)) by {
                assert(ks[ks.len() - 1] == x);
            }
        } else {
            assert(ks.contains(x) == init.contains(x)) by {
                if ks.contains(x) {
                    let i = choose|i: int| 0 <= i < ks.len() && ks[i] == x;
                    assert(init[i] == x);
                }
                if init.contains(x) {
                    let i = choose|i: int| 0 <= i < init.len() && init[i] == x;
                    assert(ks[i] == x);
                }
            }
        }
    }
}

proof fn lemma_count_sum_total(ks: Seq<Seq<char>>, cs: Seq<Seq<char>>)
    requires
        distinct(ks),
        forall|i: int| 0 <= i < cs.len() ==> ks.contains(#[trigger] cs[i]),
    ensures
        count_sum(ks, cs) == cs.len(),
    decreases cs.len(),
{
    if cs.len() == 0 {
        lemma_count_sum_empty(ks, cs);
    } else {
        let init = cs.drop_last();
        assert forall|i: int| 0 <= i < init.len() implies ks.contains(#[trigger] init[i]) by {
            assert(init[i] == cs[i]);
        }
        lemma_count_sum_total(ks, init);
        lemma_count_sum_step(ks, cs);
        assert(ks.contains(cs[cs.len() - 1]));
        lemma_occurrences(ks, cs.last());
    }
}

proof fn lemma_count_sum_empty(ks: Seq<Seq<char>>, cs: Seq<Seq<char>>)
    requires
        cs.len() == 0,
    ensures
        count_sum(ks, cs) == 0,
    decreases ks.len(),
{
    if ks.len() > 0 {
        lemma_count_sum_empty(ks.drop_last(), cs);
    }
}

proof fn lemma_podium_position_bound(s: Seq<usize>, x: usize, keys: Seq<CombinedPodiumKey>)
    ensures
        0 <= podium_position(s, x, keys) <= s.len(),
    decreases s.len(),
{
    if s.len() > 0 {
        lemma_podium_position_bound(s.drop_first(), x, keys);
    }
}

proof fn lemma_match_position_bound(s: Seq<usize>, x: usize, keys: Seq<CombinedMatchKey>)
    ensures
        0 <= match_key_position(s, x, keys) <= s.len(),
    decreases s.len(),
{
    if s.len() > 0 {
        lemma_match_position_bound(s.drop_first(), x, keys);
    }
}

proof fn lemma_order_lens(s: Seq<usize>, pk: Seq<CombinedPodiumKey>, mk: Seq<CombinedMatchKey>)
    ensures
        podium_order(s, pk).len() == s.len(),
        match_order(s, mk).len() == s.len(),
    decreases s.len(),
{
    if s.len() > 0 {
        lemma_order_lens(s.drop_last(), pk, mk);
        lemma_podium_position_bound(podium_order(s.drop_last(), pk), s.last(), pk);
        lemma_match_position_bound(match_order(s.drop_last(), mk), s.last(), mk);
    }
}

proof fn lemma_group_sums_are_counts(
    gs: Seq<CombinedGroup>,
    pcs: Seq<Seq<char>>,
    mcs: Seq<Seq<char>>,
    podium: Seq<CombinedPodiumKey>,
    matches: Seq<CombinedMatchKey>,
)
    requires
        forall|q: int| 0 <= q < gs.len() ==> group_ok(#[trigger] gs[q], pcs, mcs, podium, matches),
    ensures
        podium_sum(gs) == count_sum(strs(gs.map_values(|g: CombinedGroup| g.club)), pcs),
        match_sum(gs) == count_sum(strs(gs.map_values(|g: CombinedGroup| g.club)), mcs),
    decreases gs.len(),
{
    if gs.len() > 0 {
        let init = gs.drop_last();
        assert forall|q: int| 0 <= q < init.len() implies group_ok(#[trigger] init[q], pcs, mcs, podium, matches) by {
            assert(init[q] == gs[q]);
        }
        lemma_group_sums_are_counts(init, pcs, mcs, podium, matches);
        let names = strs(gs.map_values(|g: CombinedGroup| g.club));
        assert(names.drop_last() =~= strs(init.map_values(|g: CombinedGroup| g.club)));
        let last = gs[gs.len() - 1];
        assert(group_ok(last, pcs, mcs, podium, matches));
        assert(names.last() == last.club@);
        lemma_order_lens(positions_of(pcs, last.club@), podium, matches);
        lemma_order_lens(positions_of(mcs, last.club@), podium, matches);
    }
}

/// Every podium item and every match sits in exactly one group, so the
/// groups together hold as many items and matches as the inputs.
proof fn lemma_groups_cover_inputs(
    gs: Seq<CombinedGroup>,
    pcs: Seq<Seq<char>>,
    mcs: Seq<Seq<char>>,
    podium: Seq<CombinedPodiumKey>,
    matches: Seq<CombinedMatchKey>,
)
    requires
        sorted_strict(strs(gs.map_values(|g: CombinedGroup| g.club))),
        forall|i: int| 0 <= i < pcs.len() ==> strs(gs.map_values(|g: CombinedGroup| g.club)).contains(#[trigger] pcs[i]),
        forall|i: int| 0 <= i < mcs.len() ==> strs(gs.map_values(|g: CombinedGroup| g.club)).contains(#[trigger] mcs[i]),
        forall|q: int| 0 <= q < gs.len() ==> group_ok(#[trigger] gs[q], pcs, mcs, podium, matches),
    ensures
        podium_sum(gs) == pcs.len(),
        match_sum(gs) == mcs.len(),
{
    let names = strs(gs.map_values(|g: CombinedGroup| g.club));
    assert(distinct(names)) by {
        assert forall|i: int, j: int| 0 <= i < j < names.len() implies #[trigger] names[i] != #[trigger] names[j] by {
            lemma_lex_irreflexive(names[i]);
        }
    }
    lemma_group_sums_are_counts(gs, pcs, mcs, podium, matches);
    lemma_count_sum_total(names, pcs);
    lemma_count_sum_total(names, mcs);
}

/// The club an item is stored with: its canonical name, or where that is
/// empty, the canonical form of its club.
pub open spec fn base_club(club: Seq<char>, canonical: Seq<char>) -> Seq<char> {
    if trim(canonical).len() == 0 {
        canonical_club(club)
    } else {
        canonical
    }
}

pub open spec fn podium_key_views(v: Seq<CombinedPodiumKey>) -> Seq<(Seq<char>, Seq<char>)> {
    v.map_values(|k: CombinedPodiumKey| (k.club@, k.canonical_club@))
}

pub open spec fn match_key_views(v: Seq<CombinedMatchKey>) -> Seq<(Seq<char>, Seq<char>)> {
    v.map_values(|k: CombinedMatchKey| (k.club@, k.canonical_club@))
}

/// The positions in `cs` that hold `c`, ascending.
pub open spec fn positions_of(cs: Seq<Seq<char>>, c: Seq<char>) -> Seq<usize>
    decreases cs.len(),
{
    if cs.len() == 0 {
        Seq::empty()
    } else {
        let prev = positions_of(cs.drop_last(), c);
        if cs.last() == c {
            prev.push((cs.len() - 1) as usize)
        } else {
            prev
        }
    }
}

/// Podium items of a club are shown by shooter, rank and discipline.
pub open spec fn podium_before(a: CombinedPodiumKey, b: CombinedPodiumKey) -> bool {
    ||| lex_lt(a.shooter@, b.shooter@)
    ||| (a.shooter@ == b.shooter@ && a.rank < b.rank)
    ||| (a.shooter@ == b.shooter@ && a.rank == b.rank && opt_lt(
        crate::export::models::opt_seq(a.discipline),
        crate::export::models::opt_seq(b.discipline),
    ))
}

pub open spec fn podium_position(s: Seq<usize>, x: usize, keys: Seq<CombinedPodiumKey>) -> int
    decreases s.len(),
{
    if s.len() == 0 {
        0
    } else if podium_before(keys[x as int], keys[s[0] as int]) {
        0
    } else {
        1 + podium_position(s.drop_first(), x, keys)
    }
}

/// Positions of podium items in display order, equal ones as they came.
pub open spec fn podium_order(s: Seq<usize>, keys: Seq<CombinedPodiumKey>) -> Seq<usize>
    decreases s.len(),
{
    if s.len() == 0 {
        Seq::empty()
    } else {
        let prev = podium_order(s.drop_last(), keys);
        prev.insert(podium_position(prev, s.last(), keys), s.last())
    }
}

pub open spec fn match_key_before(a: CombinedMatchKey, b: CombinedMatchKey) -> bool {
    lex_lt(a.pdf_url@, b.pdf_url@)
}

pub open spec fn match_key_position(s: Seq<usize>, x: usize, keys: Seq<CombinedMatchKey>) -> int
    decreases s.len(),
{
    if s.len() == 0 {
        0
    } else if match_key_before(keys[x as int], keys[s[0] as int]) {
        0
    } else {
        1 + match_key_position(s.drop_first(), x, keys)
    }
}

/// Positions of matches in display order (by PDF), equal ones as they came.
pub open spec fn match_order(s: Seq<usize>, keys: Seq<CombinedMatchKey>) -> Seq<usize>
    decreases s.len(),
{
    if s.len() == 0 {
        Seq::empty()
    } else {
        let prev = match_order(s.drop_last(), keys);
        prev.insert(match_key_position(prev, s.last(), keys), s.last())
    }
}

proof fn lemma_podium_position(s: Seq<usize>, x: usize, keys: Seq<CombinedPodiumKey>, i: int)
    requires
        0 <= i <= s.len(),
        forall|j: int| 0 <= j < i ==> !podium_before(keys[x as int], keys[#[trigger] s[j] as int]),
        i == s.len() || podium_before(keys[x as int], keys[s[i] as int]),
    ensures
        podium_position(s, x, keys) == i,
    decreases i,
{
    if i > 0 {
        assert forall|j: int| 0 <= j < i - 1 implies !podium_before(
            keys[x as int],
            keys[#[trigger] s.drop_first()[j] as int],
        ) by {
            assert(s.drop_first()[j] == s[j + 1]);
        }
        if i < s.len() {
            assert(s.drop_first()[i - 1] == s[i]);
        }
        assert(!podium_before(keys[x as int], keys[s[0] as int]));
        lemma_podium_position(s.drop_first(), x, keys, i - 1);
    }
}

proof fn lemma_match_key_position(s: Seq<usize>, x: usize, keys: Seq<CombinedMatchKey>, i: int)
    requires
        0 <= i <= s.len(),
        forall|j: int| 0 <= j < i ==> !match_key_before(keys[x as int], keys[#[trigger] s[j] as int]),
        i == s.len() || match_key_before(keys[x as int], keys[s[i] as int]),
    ensures
        match_key_position(s, x, keys) == i,
    decreases i,
{
    if i > 0 {
        assert forall|j: int| 0 <= j < i - 1 implies !match_key_before(
            keys[x as int],
            keys[#[trigger] s.drop_first()[j] as int],
        ) by {
            assert(s.drop_first()[j] == s[j + 1]);
        }
        if i < s.len() {
            assert(s.drop_first()[i - 1] == s[i]);
        }
        assert(!match_key_before(keys[x as int], keys[s[0] as int]));
        lemma_match_key_position(s.drop_first(), x, keys, i - 1);
    }
}

/// `podium_before` is a strict order: irreflexive and transitive.
proof fn lemma_podium_before_order(a: CombinedPodiumKey, b: CombinedPodiumKey, c: CombinedPodiumKey)
    ensures
        !podium_before(a, a),
        podium_before(a, b) && podium_before(b, c) ==> podium_before(a, c),
{
    lemma_lex_irreflexive(a.shooter@);
    lemma_opt_lt_order(
        crate::export::models::opt_seq(a.discipline),
        crate::export::models::opt_seq(b.discipline),
        crate::export::models::opt_seq(c.discipline),
    );
    if lex_lt(a.shooter@, b.shooter@) && lex_lt(b.shooter@, c.shooter@) {
        lemma_lex_transitive(a.shooter@, b.shooter@, c.shooter@);
    }
}

proof fn lemma_podium_position_facts(s: Seq<usize>, x: usize, keys: Seq<CombinedPodiumKey>)
    ensures
        0 <= podium_position(s, x, keys) <= s.len(),
        forall|j: int|
            0 <= j < podium_position(s, x, keys) ==> !podium_before(keys[x as int], keys[#[trigger] s[j] as int]),
        podium_position(s, x, keys) < s.len() ==> podium_before(
            keys[x as int],
            keys[s[podium_position(s, x, keys)] as int],
        ),
    decreases s.len(),
{
    if s.len() > 0 && !podium_before(keys[x as int], keys[s[0] as int]) {
        let t = s.drop_first();
        lemma_podium_position_facts(t, x, keys);
        assert forall|j: int| 0 <= j < podium_position(s, x, keys) implies !podium_before(
            keys[x as int],
            keys[#[trigger] s[j] as int],
        ) by {
            if j > 0 {
                assert(s[j] == t[j - 1]);
            }
        }
        if podium_position(s, x, keys) < s.len() {
            assert(s[podium_position(s, x, keys)] == t[podium_position(t, x, keys)]);
        }
    }
}

/// No podium item comes after one that it precedes (by shooter, rank and
/// discipline).
pub open spec fn podium_keys_ordered(s: Seq<usize>, keys: Seq<CombinedPodiumKey>) -> bool {
    forall|i: int, j: int|
        0 <= i < j < s.len() ==> !podium_before(keys[#[trigger] s[j] as int], keys[#[trigger] s[i] as int])
}

/// The display order of podium items is ordered by shooter, rank and
/// discipline.
pub proof fn lemma_podium_order_is_ordered(s: Seq<usize>, keys: Seq<CombinedPodiumKey>)
    ensures
        podium_keys_ordered(podium_order(s, keys), keys),
    decreases s.len(),
{
    if s.len() > 0 {
        let prev = podium_order(s.drop_last(), keys);
        let x = s.last();
        lemma_podium_order_is_ordered(s.drop_last(), keys);
        lemma_podium_position_facts(prev, x, keys);
        let p = podium_position(prev, x, keys);
        let r = prev.insert(p, x);
        assert(r == podium_order(s, keys));
        assert forall|i: int, j: int| 0 <= i < j < r.len() implies !podium_before(
            keys[#[trigger] r[j] as int],
            keys[#[trigger] r[i] as int],
        ) by {
            if j < p {
                assert(r[i] == prev[i] && r[j] == prev[j]);
            } else if j == p {
                assert(r[i] == prev[i] && r[j] == x);
            } else if i > p {
                assert(r[i] == prev[i - 1] && r[j] == prev[j - 1]);
            } else if i == p {
                assert(r[i] == x && r[j] == prev[j - 1]);
                lemma_podium_before_order(keys[prev[j - 1] as int], keys[x as int], keys[prev[p] as int]);
                lemma_podium_before_order(keys[prev[p] as int], keys[x as int], keys[prev[p] as int]);
                if j - 1 > p {
                    assert(!podium_before(keys[prev[j - 1] as int], keys[prev[p] as int]));
                }
            } else {
                assert(r[i] == prev[i] && r[j] == prev[j - 1]);
            }
        }
    }
}

proof fn lemma_match_position_facts(s: Seq<usize>, x: usize, keys: Seq<CombinedMatchKey>)
    ensures
        0 <= match_key_position(s, x, keys) <= s.len(),
        forall|j: int|
            0 <= j < match_key_position(s, x, keys) ==> !match_key_before(keys[x as int], keys[#[trigger] s[j] as int]),
        match_key_position(s, x, keys) < s.len() ==> match_key_before(
            keys[x as int],
            keys[s[match_key_position(s, x, keys)] as int],
        ),
    decreases s.len(),
{
    if s.len() > 0 && !match_key_before(keys[x as int], keys[s[0] as int]) {
        let t = s.drop_first();
        lemma_match_position_facts(t, x, keys);
        assert forall|j: int| 0 <= j < match_key_position(s, x, keys) implies !match_key_before(
            keys[x as int],
            keys[#[trigger] s[j] as int],
        ) by {
            if j > 0 {
                assert(s[j] == t[j - 1]);
            }
        }
        if match_key_position(s, x, keys) < s.len() {
            assert(s[match_key_position(s, x, keys)] == t[match_key_position(t, x, keys)]);
        }
    }
}

/// No match comes after one whose PDF URL it precedes.
pub open spec fn match_keys_ordered(s: Seq<usize>, keys: Seq<CombinedMatchKey>) -> bool {
    forall|i: int, j: int|
        0 <= i < j < s.len() ==> !match_key_before(keys[#[trigger] s[j] as int], keys[#[trigger] s[i] as int])
}

/// The display order of matches is ordered by PDF URL.
pub proof fn lemma_match_order_is_ordered(s: Seq<usize>, keys: Seq<CombinedMatchKey>)
    ensures
        match_keys_ordered(match_order(s, keys), keys),
    decreases s.len(),
{
    if s.len() > 0 {
        let prev = match_order(s.drop_last(), keys);
        let x = s.last();
        lemma_match_order_is_ordered(s.drop_last(), keys);
        lemma_match_position_facts(prev, x, keys);
        let p = match_key_position(prev, x, keys);
        let r = prev.insert(p, x);
        assert(r == match_order(s, keys));
        assert forall|i: int, j: int| 0 <= i < j < r.len() implies !match_key_before(
            keys[#[trigger] r[j] as int],
            keys[#[trigger] r[i] as int],
        ) by {
            if j < p {
                assert(r[i] == prev[i] && r[j] == prev[j]);
            } else if j == p {
                assert(r[i] == prev[i] && r[j] == x);
            } else if i > p {
                assert(r[i] == prev[i - 1] && r[j] == prev[j - 1]);
            } else if i == p {
                assert(r[i] == x && r[j] == prev[j - 1]);
                let a = keys[prev[j - 1] as int].pdf_url@;
                let b = keys[x as int].pdf_url@;
                let c = keys[prev[p] as int].pdf_url@;
                lemma_lex_irreflexive(c);
                if lex_lt(a, b) && lex_lt(b, c) {
                    lemma_lex_transitive(a, b, c);
                }
                if lex_lt(c, b) && lex_lt(b, c) {
                    lemma_lex_transitive(c, b, c);
                }
                if j - 1 > p {
                    assert(!match_key_before(keys[prev[j - 1] as int], keys[prev[p] as int]));
                }
            } else {
                assert(r[i] == prev[i] && r[j] == prev[j - 1]);
            }
        }
    }
}

fn podium_less(a: &CombinedPodiumKey, b: &CombinedPodiumKey) -> (r: bool)
    ensures
        r == podium_before(*a, *b),
{
    let sa = chars_of(a.shooter.as_str());
    let sb = chars_of(b.shooter.as_str());
    if lex_less(&sa, &sb) {
        return true;
    }
    if !eq_chars(&sa, &sb) {
        return false;
    }
    if a.rank < b.rank {
        return true;
    }
    if a.rank != b.rank {
        return false;
    }
    opt_less(&a.discipline, &b.discipline)
}

/// The resolved clubs of a list of items.
pub open spec fn resolved_clubs(v: Seq<(Seq<char>, Seq<char>)>, names: Seq<Seq<char>>) -> Seq<Seq<char>> {
    v.map_values(|p: (Seq<char>, Seq<char>)| resolved_club(base_club(p.0, p.1), names))
}

/// The clubs of the combined export: each known club and the club of each
/// podium item and match, resolved against the known names.
pub open spec fn group_names(
    known: Seq<Seq<char>>,
    podium: Seq<Seq<char>>,
    matches: Seq<Seq<char>>,
    names: Seq<Seq<char>>,
) -> Set<Seq<char>> {
    known.map_values(|k: Seq<char>| resolved_club(canonical_club(k), names)).to_set() + podium.to_set()
        + matches.to_set()
}

fn resolve_all(v: &Vec<(String, String)>, names: &Vec<String>) -> (r: Vec<String>)
    ensures
        strs(r@) == resolved_clubs(pair_views(v@), strs(names@)),
{
    let ghost pv = pair_views(v@);
    let mut out: Vec<String> = Vec::new();
    let mut i: usize = 0;
    while i < v.len()
        invariant
            0 <= i <= v.len(),
            pv == pair_views(v@),
            strs(out@) == resolved_clubs(pv.take(i as int), strs(names@)),
        decreases v.len() - i,
    {
        let base = item_canonical_club_name(&v[i].0, &v[i].1);
        let resolved = resolve_truncated_club(base.as_str(), names);
        let ghost before = strs(out@);
        out.push(resolved);
        assert(strs(out@) =~= before.push(resolved@));
        assert(pv[i as int] == (v@[i as int].0@, v@[i as int].1@));
        assert(resolved_clubs(pv.take(i + 1), strs(names@)) =~= resolved_clubs(
            pv.take(i as int),
            strs(names@),
        ).push(resolved@));
        i += 1;
    }
    assert(pv.take(i as int) =~= pv);
    out
}

fn item_canonical_club_name(club: &String, canonical: &String) -> (r: String)
    ensures
        r@ == base_club(club@, canonical@),
{
    if trim_chars(&chars_of(canonical.as_str())).len() == 0 {
        canonical_club_name(club.as_str())
    } else {
        canonical.clone()
    }
}

pub(crate) fn positions_in(cs: &Vec<String>, c: &Vec<char>) -> (r: Vec<usize>)
    ensures
        r@ == positions_of(strs(cs@), c@),
        forall|j: int| 0 <= j < r.len() ==> r@[j] < cs.len(),
{
    let ghost sv = strs(cs@);
    let mut out: Vec<usize> = Vec::new();
    let mut i: usize = 0;
    assert(sv.take(0) =~= Seq::<Seq<char>>::empty());
    while i < cs.len()
        invariant
            0 <= i <= cs.len(),
            sv == strs(cs@),
            out@ == positions_of(sv.take(i as int), c@),
            forall|j: int| 0 <= j < out.len() ==> out@[j] < i,
        decreases cs.len() - i,
    {
        assert(sv.take(i + 1).drop_last() =~= sv.take(i as int));
        assert(sv.take(i + 1).last() == cs@[i as int]@);
        if eq_chars(&chars_of(cs[i].as_str()), c) {
            out.push(i);
        }
        i += 1;
    }
    assert(sv.take(i as int) =~= sv);
    out
}

fn order_podium(idx: &Vec<usize>, keys: &Vec<CombinedPodiumKey>) -> (r: Vec<usize>)
    requires
        forall|j: int| 0 <= j < idx.len() ==> idx@[j] < keys.len(),
    ensures
        r@ == podium_order(idx@, keys@),
{
    let mut out: Vec<usize> = Vec::new();
    let mut i: usize = 0;
    assert(idx@.take(0) =~= Seq::<usize>::empty());
    while i < idx.len()
        invariant
            0 <= i <= idx.len(),
            forall|j: int| 0 <= j < idx.len() ==> idx@[j] < keys.len(),
            forall|j: int| 0 <= j < out.len() ==> out@[j] < keys.len(),
            out@ == podium_order(idx@.take(i as int), keys@),
        decreases idx.len() - i,
    {
        let x = idx[i];
        let mut k: usize = 0;
        while k < out.len() && !podium_less(&keys[x], &keys[out[k]])
            invariant
                0 <= k <= out.len(),
                x < keys.len(),
                forall|j: int| 0 <= j < out.len() ==> out@[j] < keys.len(),
                forall|j: int| 0 <= j < k ==> !podium_before(keys@[x as int], keys@[#[trigger] out@[j] as int]),
            decreases out.len() - k,
        {
            k += 1;
        }
        proof {
            lemma_podium_position(out@, x, keys@, k as int);
            assert(idx@.take(i + 1).drop_last() =~= idx@.take(i as int));
            assert(idx@.take(i + 1).last() == x);
        }
        let ghost ov = out@;
        out.insert(k, x);
        assert(out@ =~= ov.insert(k as int, x));
        i += 1;
    }
    assert(idx@.take(i as int) =~= idx@);
    out
}

fn order_matches(idx: &Vec<usize>, keys: &Vec<CombinedMatchKey>) -> (r: Vec<usize>)
    requires
        forall|j: int| 0 <= j < idx.len() ==> idx@[j] < keys.len(),
    ensures
        r@ == match_order(idx@, keys@),
{
    let mut out: Vec<usize> = Vec::new();
    let mut i: usize = 0;
    assert(idx@.take(0) =~= Seq::<usize>::empty());
    while i < idx.len()
        invariant
            0 <= i <= idx.len(),
            forall|j: int| 0 <= j < idx.len() ==> idx@[j] < keys.len(),
            forall|j: int| 0 <= j < out.len() ==> out@[j] < keys.len(),
            out@ == match_order(idx@.take(i as int), keys@),
        decreases idx.len() - i,
    {
        let x = idx[i];
        let mut k: usize = 0;
        while k < out.len() && !lex_less(
            &chars_of(keys[x].pdf_url.as_str()),
            &chars_of(keys[out[k]].pdf_url.as_str()),
        )
            invariant
                0 <= k <= out.len(),
                x < keys.len(),
                forall|j: int| 0 <= j < out.len() ==> out@[j] < keys.len(),
                forall|j: int| 0 <= j < k ==> !match_key_before(keys@[x as int], keys@[#[trigger] out@[j] as int]),
            decreases out.len() - k,
        {
            k += 1;
        }
        proof {
            lemma_match_key_position(out@, x, keys@, k as int);
            assert(idx@.take(i + 1).drop_last() =~= idx@.take(i as int));
            assert(idx@.take(i + 1).last() == x);
        }
        let ghost ov = out@;
        out.insert(k, x);
        assert(out@ =~= ov.insert(k as int, x));
        i += 1;
    }
    assert(idx@.take(i as int) =~= idx@);
    out
}

proof fn lemma_positions_of(cs: Seq<Seq<char>>, c: Seq<char>)
    requires
        cs.len() <= usize::MAX,
    ensures
        positions_of(cs, c).no_duplicates(),
        forall|k: int| 0 <= k < cs.len() ==> (positions_of(cs, c).contains(k as usize) <==> cs[k] == c),
        forall|x: usize| #[trigger] positions_of(cs, c).contains(x) ==> x < cs.len() && cs[x as int] == c,
    decreases cs.len(),
{
    if cs.len() > 0 {
        let init = cs.drop_last();
        let prev = positions_of(init, c);
        lemma_positions_of(init, c);
        let last = (cs.len() - 1) as usize;
        if prev.contains(last) {
            assert(last < init.len());
        }
        assert forall|k: int| 0 <= k < cs.len() implies (positions_of(cs, c).contains(k as usize)
            <==> cs[k] == c) by {
            if k < cs.len() - 1 {
                assert(cs[k] == init[k]);
                if prev.contains(k as usize) && cs.last() == c {
                    let w = choose|w: int| 0 <= w < prev.len() && prev[w] == k as usize;
                    assert(positions_of(cs, c)[w] == k as usize);
                }
                if positions_of(cs, c).contains(k as usize) && cs.last() == c {
                    let w = choose|w: int| 0 <= w < positions_of(cs, c).len() && positions_of(cs, c)[w] == k as usize;
                    assert(w < prev.len());
                    assert(prev[w] == k as usize);
                }
            } else if cs.last() == c {
                assert(positions_of(cs, c).last() == last);
            }
        }
        assert forall|x: usize| #[trigger] positions_of(cs, c).contains(x) implies x < cs.len() && cs[x as int] == c by {
            let w = choose|w: int| 0 <= w < positions_of(cs, c).len() && positions_of(cs, c)[w] == x;
            if w < prev.len() {
                assert(prev[w] == x);
                assert(prev.contains(x));
                assert(x < init.len());
                assert(cs[x as int] == init[x as int]);
            } else {
                assert(cs.last() == c);
                assert(positions_of(cs, c)[w] == last);
            }
        }
    } else {
        assert(positions_of(cs, c) =~= Seq::<usize>::empty());
    }
}

proof fn lemma_podium_order_permutes(s: Seq<usize>, keys: Seq<CombinedPodiumKey>)
    ensures
        podium_order(s, keys).to_multiset() == s.to_multiset(),
    decreases s.len(),
{
    broadcast use vstd::seq_lib::to_multiset_build, vstd::seq_lib::to_multiset_insert;

    if s.len() > 0 {
        let prev = podium_order(s.drop_last(), keys);
        lemma_podium_order_permutes(s.drop_last(), keys);
        lemma_podium_position_bounds(prev, s.last(), keys);
        assert(s =~= s.drop_last().push(s.last()));
        assert(s.drop_last().push(s.last()).to_multiset() == s.drop_last().to_multiset().insert(s.last()));
    } else {
        assert(s =~= Seq::<usize>::empty());
    }
}

proof fn lemma_podium_position_bounds(s: Seq<usize>, x: usize, keys: Seq<CombinedPodiumKey>)
    ensures
        0 <= podium_position(s, x, keys) <= s.len(),
    decreases s.len(),
{
    if s.len() > 0 {
        lemma_podium_position_bounds(s.drop_first(), x, keys);
    }
}

proof fn lemma_match_order_permutes(s: Seq<usize>, keys: Seq<CombinedMatchKey>)
    ensures
        match_order(s, keys).to_multiset() == s.to_multiset(),
    decreases s.len(),
{
    broadcast use vstd::seq_lib::to_multiset_build, vstd::seq_lib::to_multiset_insert;

    if s.len() > 0 {
        let prev = match_order(s.drop_last(), keys);
        lemma_match_order_permutes(s.drop_last(), keys);
        lemma_match_position_bounds(prev, s.last(), keys);
        assert(s =~= s.drop_last().push(s.last()));
        assert(s.drop_last().push(s.last()).to_multiset() == s.drop_last().to_multiset().insert(s.last()));
    } else {
        assert(s =~= Seq::<usize>::empty());
    }
}

proof fn lemma_match_position_bounds(s: Seq<usize>, x: usize, keys: Seq<CombinedMatchKey>)
    ensures
        0 <= match_key_position(s, x, keys) <= s.len(),
    decreases s.len(),
{
    if s.len() > 0 {
        lemma_match_position_bounds(s.drop_first(), x, keys);
    }
}

proof fn lemma_same_elements(a: Seq<usize>, b: Seq<usize>)
    requires
        a.to_multiset() == b.to_multiset(),
        b.no_duplicates(),
    ensures
        a.no_duplicates(),
        forall|x: usize| a.contains(x) <==> b.contains(x),
{
    broadcast use vstd::seq_lib::to_multiset_contains;

    b.lemma_multiset_has_no_duplicates();
    assert forall|x: usize| a.contains(x) <==> b.contains(x) by {
        assert(a.contains(x) <==> a.to_multiset().count(x) > 0);
        assert(b.contains(x) <==> b.to_multiset().count(x) > 0);
    }
    assert forall|x: usize| a.to_multiset().contains(x) implies a.to_multiset().count(x) == 1 by {
        assert(b.to_multiset().contains(x));
    }
    a.lemma_multiset_has_no_duplicates_conv();
}

/// A club of the combined export lists exactly the podium items and the
/// matches whose resolved club is its own, each once: no item is lost,
/// repeated, or shown under another club.
pub proof fn lemma_combined_groups_are_exact(
    podium_clubs: Seq<Seq<char>>,
    match_clubs: Seq<Seq<char>>,
    club: Seq<char>,
    podium: Seq<CombinedPodiumKey>,
    matches: Seq<CombinedMatchKey>,
)
    requires
        podium_clubs.len() <= usize::MAX,
        match_clubs.len() <= usize::MAX,
    ensures
        podium_order(positions_of(podium_clubs, club), podium).no_duplicates(),
        forall|k: int|
            0 <= k < podium_clubs.len() ==> (podium_order(positions_of(podium_clubs, club), podium).contains(
                k as usize,
            ) <==> podium_clubs[k] == club),
        forall|x: usize|
            podium_order(positions_of(podium_clubs, club), podium).contains(x) ==> x < podium_clubs.len(),
        match_order(positions_of(match_clubs, club), matches).no_duplicates(),
        forall|k: int|
            0 <= k < match_clubs.len() ==> (match_order(positions_of(match_clubs, club), matches).contains(
                k as usize,
            ) <==> match_clubs[k] == club),
        forall|x: usize|
            match_order(positions_of(match_clubs, club), matches).contains(x) ==> x < match_clubs.len(),
{
    lemma_positions_of(podium_clubs, club);
    lemma_positions_of(match_clubs, club);
    lemma_podium_order_permutes(positions_of(podium_clubs, club), podium);
    lemma_match_order_permutes(positions_of(match_clubs, club), matches);
    lemma_same_elements(podium_order(positions_of(podium_clubs, club), podium), positions_of(podium_clubs, club));
    lemma_same_elements(match_order(positions_of(match_clubs, club), matches), positions_of(match_clubs, club));
    assert forall|x: usize|
        podium_order(positions_of(podium_clubs, club), podium).contains(x) implies x < podium_clubs.len() by {
        assert(positions_of(podium_clubs, club).contains(x));
    }
    assert forall|x: usize|
        match_order(positions_of(match_clubs, club), matches).contains(x) implies x < match_clubs.len() by {
        assert(positions_of(match_clubs, club).contains(x));
    }
}

pub open spec fn group_ok(
    g: CombinedGroup,
    podium_clubs: Seq<Seq<char>>,
    match_clubs: Seq<Seq<char>>,
    podium: Seq<CombinedPodiumKey>,
    matches: Seq<CombinedMatchKey>,
) -> bool {
    &&& g.podium_items@ == podium_order(positions_of(podium_clubs, g.club@), podium)
    &&& g.participation_matches@ == match_order(positions_of(match_clubs, g.club@), matches)
}

impl CombinedExporter {
    /// How a podium and a participation export combine by club. Each known
    /// club, podium item and match is resolved to a full canonical name
    /// (cut-off names against the known names); the clubs come in
    /// ascending order, each with its podium items by shooter, rank and
    /// discipline and its matches by PDF.
    pub fn plan(
        known_clubs: &Vec<String>,
        podium: &Vec<CombinedPodiumKey>,
        matches: &Vec<CombinedMatchKey>,
    ) -> (r: CombinedPlan)
        ensures
            sorted_strict(strs(r.known_names@)),
            strs(r.known_names@).to_set() == canonical_names(strs(known_clubs@)) + pairs_names(
                podium_key_views(podium@),
            ) + pairs_names(match_key_views(matches@)),
            strs(r.podium_clubs@) == resolved_clubs(podium_key_views(podium@), strs(r.known_names@)),
            strs(r.match_clubs@) == resolved_clubs(match_key_views(matches@), strs(r.known_names@)),
            sorted_strict(strs(r.clubs@.map_values(|g: CombinedGroup| g.club))),
            strs(r.clubs@.map_values(|g: CombinedGroup| g.club)).to_set() == group_names(
                strs(known_clubs@),
                strs(r.podium_clubs@),
                strs(r.match_clubs@),
                strs(r.known_names@),
            ),
            r.club_count == r.clubs.len(),
            r.podium_item_count == podium.len(),
            r.podium_item_count == podium_sum(r.clubs@),
            r.participation_match_count == matches.len(),
            r.participation_match_count == match_sum(r.clubs@),
            forall|i: int|
                0 <= i < r.clubs.len() ==> group_ok(
                    #[trigger] r.clubs@[i],
                    strs(r.podium_clubs@),
                    strs(r.match_clubs@),
                    podium@,
                    matches@,
                ),
            forall|i: int|
                0 <= i < r.clubs.len() ==> podium_keys_ordered((#[trigger] r.clubs@[i]).podium_items@, podium@)
                    && match_keys_ordered(r.clubs@[i].participation_matches@, matches@),
    {
        let mut pp: Vec<(String, String)> = Vec::new();
        let mut i: usize = 0;
        while i < podium.len()
            invariant
                0 <= i <= podium.len(),
                pair_views(pp@) == podium_key_views(podium@).take(i as int),
            decreases podium.len() - i,
        {
            let ghost before = pair_views(pp@);
            pp.push((podium[i].club.clone(), podium[i].canonical_club.clone()));
            assert(pair_views(pp@) =~= before.push((podium@[i as int].club@, podium@[i as int].canonical_club@)));
            assert(podium_key_views(podium@).take(i + 1) =~= podium_key_views(podium@).take(i as int).push(
                (podium@[i as int].club@, podium@[i as int].canonical_club@),
            ));
            i += 1;
        }
        assert(podium_key_views(podium@).take(i as int) =~= podium_key_views(podium@));
        let mut mp: Vec<(String, String)> = Vec::new();
        let mut i: usize = 0;
        while i < matches.len()
            invariant
                0 <= i <= matches.len(),
                pair_views(mp@) == match_key_views(matches@).take(i as int),
            decreases matches.len() - i,
        {
            let ghost before = pair_views(mp@);
            mp.push((matches[i].club.clone(), matches[i].canonical_club.clone()));
            assert(pair_views(mp@) =~= before.push((matches@[i as int].club@, matches@[i as int].canonical_club@)));
            assert(match_key_views(matches@).take(i + 1) =~= match_key_views(matches@).take(i as int).push(
                (matches@[i as int].club@, matches@[i as int].canonical_club@),
            ));
            i += 1;
        }
        assert(match_key_views(matches@).take(i as int) =~= match_key_views(matches@));
        let known_names = combined_known_club_names(known_clubs, &pp, &mp);
        let podium_clubs = resolve_all(&pp, &known_names);
        let match_clubs = resolve_all(&mp, &known_names);
        let ghost names = strs(known_names@);
        let ghost ks = strs(known_clubs@);
        let ghost kr = ks.map_values(|k: Seq<char>| resolved_club(canonical_club(k), names));
        let mut keys: Vec<Vec<char>> = Vec::new();
        assert(views(keys@) =~= Seq::<Seq<char>>::empty());
        assert(views(keys@).to_set() =~= Set::<Seq<char>>::empty());
        let mut i: usize = 0;
        while i < known_clubs.len()
            invariant
                0 <= i <= known_clubs.len(),
                names == strs(known_names@),
                ks == strs(known_clubs@),
                kr == ks.map_values(|k: Seq<char>| resolved_club(canonical_club(k), names)),
                sorted_strict(views(keys@)),
                views(keys@).to_set() == kr.take(i as int).to_set(),
            decreases known_clubs.len() - i,
        {
            let c = canonical_club_name(known_clubs[i].as_str());
            let r = resolve_truncated_club(c.as_str(), &known_names);
            let ghost before = views(keys@).to_set();
            sorted_insert(&mut keys, chars_of(r.as_str()));
            assert(kr.take(i + 1) =~= kr.take(i as int).push(r@));
            proof {
                crate::text::lemma_push_to_set(kr.take(i as int), r@);
            }
            i += 1;
        }
        assert(kr.take(i as int) =~= kr);
        let ghost after_known = views(keys@).to_set();
        let ghost pcs = strs(podium_clubs@);
        let mut i: usize = 0;
        assert(pcs.take(0).to_set() =~= Set::<Seq<char>>::empty());
        assert(after_known + Set::<Seq<char>>::empty() =~= after_known);
        while i < podium_clubs.len()
            invariant
                0 <= i <= podium_clubs.len(),
                pcs == strs(podium_clubs@),
                sorted_strict(views(keys@)),
                views(keys@).to_set() == after_known + pcs.take(i as int).to_set(),
            decreases podium_clubs.len() - i,
        {
            let ghost before = views(keys@).to_set();
            sorted_insert(&mut keys, chars_of(podium_clubs[i].as_str()));
            assert(pcs.take(i + 1) =~= pcs.take(i as int).push(podium_clubs@[i as int]@));
            proof {
                crate::text::lemma_push_to_set(pcs.take(i as int), podium_clubs@[i as int]@);
            }
            assert(after_known + pcs.take(i + 1).to_set() =~= before.insert(podium_clubs@[i as int]@));
            i += 1;
        }
        assert(pcs.take(i as int) =~= pcs);
        let ghost after_podium = views(keys@).to_set();
        let ghost mcs = strs(match_clubs@);
        let mut i: usize = 0;
        assert(mcs.take(0).to_set() =~= Set::<Seq<char>>::empty());
        assert(after_podium + Set::<Seq<char>>::empty() =~= after_podium);
        while i < match_clubs.len()
            invariant
                0 <= i <= match_clubs.len(),
                mcs == strs(match_clubs@),
                sorted_strict(views(keys@)),
                views(keys@).to_set() == after_podium + mcs.take(i as int).to_set(),
            decreases match_clubs.len() - i,
        {
            let ghost before = views(keys@).to_set();
            sorted_insert(&mut keys, chars_of(match_clubs[i].as_str()));
            assert(mcs.take(i + 1) =~= mcs.take(i as int).push(match_clubs@[i as int]@));
            proof {
                crate::text::lemma_push_to_set(mcs.take(i as int), match_clubs@[i as int]@);
            }
            assert(after_podium + mcs.take(i + 1).to_set() =~= before.insert(match_clubs@[i as int]@));
            i += 1;
        }
        assert(mcs.take(i as int) =~= mcs);
        assert(views(keys@).to_set() == group_names(ks, pcs, mcs, names));
        let mut clubs: Vec<CombinedGroup> = Vec::new();
        let mut g: usize = 0;
        while g < keys.len()
            invariant
                0 <= g <= keys.len(),
                clubs.len() == g,
                pcs == strs(podium_clubs@),
                mcs == strs(match_clubs@),
                podium_clubs.len() == podium.len(),
                match_clubs.len() == matches.len(),
                strs(clubs@.map_values(|c: CombinedGroup| c.club)) == views(keys@).take(g as int),
                forall|q: int| 0 <= q < g ==> group_ok(#[trigger] clubs@[q], pcs, mcs, podium@, matches@),
            decreases keys.len() - g,
        {
            let key = &keys[g];
            let pidx = positions_in(&podium_clubs, key);
            let midx = positions_in(&match_clubs, key);
            let group = CombinedGroup {
                club: string_of(key),
                podium_items: order_podium(&pidx, podium),
                participation_matches: order_matches(&midx, matches),
            };
            let ghost before = clubs@.map_values(|c: CombinedGroup| c.club);
            clubs.push(group);
            assert(clubs@.map_values(|c: CombinedGroup| c.club) =~= before.push(group.club));
            assert(strs(clubs@.map_values(|c: CombinedGroup| c.club)) =~= strs(before).push(key@));
            assert(views(keys@).take(g + 1) =~= views(keys@).take(g as int).push(keys@[g as int]@));
            g += 1;
        }
        assert(views(keys@).take(g as int) =~= views(keys@));
        proof {
            let names = strs(clubs@.map_values(|c: CombinedGroup| c.club));
            assert forall|i: int| 0 <= i < pcs.len() implies names.contains(#[trigger] pcs[i]) by {
                assert(pcs.to_set().contains(pcs[i]));
                assert(names.to_set().contains(pcs[i]));
            }
            assert forall|i: int| 0 <= i < mcs.len() implies names.contains(#[trigger] mcs[i]) by {
                assert(mcs.to_set().contains(mcs[i]));
                assert(names.to_set().contains(mcs[i]));
            }
            lemma_groups_cover_inputs(clubs@, pcs, mcs, podium@, matches@);
            assert forall|q: int| 0 <= q < clubs.len() implies podium_keys_ordered(
                (#[trigger] clubs@[q]).podium_items@,
                podium@,
            ) && match_keys_ordered(clubs@[q].participation_matches@, matches@) by {
                lemma_podium_order_is_ordered(positions_of(pcs, clubs@[q].club@), podium@);
                lemma_match_order_is_ordered(positions_of(mcs, clubs@[q].club@), matches@);
            }
        }
        let club_count = clubs.len();
        let podium_item_count = podium.len();
        let participation_match_count = matches.len();
        CombinedPlan {
            known_names,
            podium_clubs,
            match_clubs,
            clubs,
            club_count,
            podium_item_count,
            participation_match_count,
        }
    }
}
} // verus!
