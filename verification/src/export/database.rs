//! Exports read from the local database.
use crate::export::exporters::{positions_in, positions_of, CombinedGroup};
use crate::export::matching::strs;
use crate::export::models::{DatabaseCombinedExportConfig, DatabasePodiumExportConfig, PodiumResultKind};
use crate::text::{
    chars_of, eq_chars, lemma_lex_irreflexive, lemma_lex_total, lemma_lex_transitive,
    lemma_push_to_set, lex_less, lex_lt, sorted_insert, sorted_strict, string_of, views,
};
use vstd::prelude::*;

verus! {

/// Exports podium results from the local database.
#[derive(Debug)]
pub struct DatabasePodiumExporter {
    config: DatabasePodiumExportConfig,
}

impl DatabasePodiumExporter {
    /// The configuration it was made with.
    pub closed spec fn spec_config(&self) -> DatabasePodiumExportConfig {
        self.config
    }

    pub fn new(config: DatabasePodiumExportConfig) -> (r: Self)
        ensures
            r.spec_config() == config,
    {
        DatabasePodiumExporter { config }
    }

    /// What it exports and where it writes.
    pub fn config(&self) -> (r: &DatabasePodiumExportConfig)
        ensures
            *r == self.spec_config(),
    {
        &self.config
    }
}

/// Exports state medals beside national participation from the local database.
#[derive(Debug)]
pub struct DatabaseCombinedExporter {
    config: DatabaseCombinedExportConfig,
}

impl DatabaseCombinedExporter {
    /// The configuration it was made with.
    pub closed spec fn spec_config(&self) -> DatabaseCombinedExportConfig {
        self.config
    }

    pub fn new(config: DatabaseCombinedExportConfig) -> (r: Self)
        ensures
            r.spec_config() == config,
    {
        DatabaseCombinedExporter { config }
    }

    /// What it exports and where it writes.
    pub fn config(&self) -> (r: &DatabaseCombinedExportConfig)
        ensures
            *r == self.spec_config(),
    {
        &self.config
    }
}

/// The kind of a podium row read from the database: a team result for
/// `team`, an individual one for anything else.
pub fn database_result_kind(kind: &str) -> (r: PodiumResultKind)
    ensures
        r == (if kind@ == "team"@ {
            PodiumResultKind::Team
        } else {
            PodiumResultKind::Individual
        }),
{
    proof {
        reveal_strlit("team");
    }
    if crate::text::eq_str(&crate::text::chars_of(kind), "team") {
        PodiumResultKind::Team
    } else {
        PodiumResultKind::Individual
    }
}

// ---------------------------------------------------------------------------
// Clubs of the combined export from the database
// ---------------------------------------------------------------------------

pub open spec fn group_clubs(groups: Seq<CombinedGroup>) -> Seq<Seq<char>> {
    groups.map_values(|g: CombinedGroup| g.club@)
}

/// The clubs of the combined export read from the database: each canonical
/// club of a podium item or a match once, in ascending order, with the
/// positions of its podium items and of its matches in the order they were
/// read.
pub fn database_groups(podium_clubs: &Vec<String>, match_clubs: &Vec<String>) -> (r: Vec<CombinedGroup>)
    ensures
        sorted_strict(group_clubs(r@)),
        group_clubs(r@).to_set() == strs(podium_clubs@).to_set() + strs(match_clubs@).to_set(),
        forall|i: int|
            0 <= i < r.len() ==> (#[trigger] r@[i]).podium_items@ == positions_of(
                strs(podium_clubs@),
                r@[i].club@,
            ) && r@[i].participation_matches@ == positions_of(strs(match_clubs@), r@[i].club@),
{
    let ghost ps = strs(podium_clubs@);
    let ghost ms = strs(match_clubs@);
    let mut keys: Vec<Vec<char>> = Vec::new();
    let mut i: usize = 0;
    assert(views(keys@).to_set() =~= ps.take(0).to_set());
    while i < podium_clubs.len()
        invariant
            0 <= i <= podium_clubs.len(),
            ps == strs(podium_clubs@),
            sorted_strict(views(keys@)),
            views(keys@).to_set() == ps.take(i as int).to_set(),
        decreases podium_clubs.len() - i,
    {
        sorted_insert(&mut keys, chars_of(podium_clubs[i].as_str()));
        assert(ps.take(i + 1) =~= ps.take(i as int).push(podium_clubs@[i as int]@));
        proof {
            lemma_push_to_set(ps.take(i as int), podium_clubs@[i as int]@);
        }
        i += 1;
    }
    assert(ps.take(i as int) =~= ps);
    let mut j: usize = 0;
    assert(ms.take(0).to_set() =~= Set::<Seq<char>>::empty());
    assert(views(keys@).to_set() =~= ps.to_set() + ms.take(0).to_set());
    while j < match_clubs.len()
        invariant
            0 <= j <= match_clubs.len(),
            ps == strs(podium_clubs@),
            ms == strs(match_clubs@),
            sorted_strict(views(keys@)),
            views(keys@).to_set() == ps.to_set() + ms.take(j as int).to_set(),
        decreases match_clubs.len() - j,
    {
        sorted_insert(&mut keys, chars_of(match_clubs[j].as_str()));
        assert(ms.take(j + 1) =~= ms.take(j as int).push(match_clubs@[j as int]@));
        proof {
            lemma_push_to_set(ms.take(j as int), match_clubs@[j as int]@);
        }
        assert(views(keys@).to_set() =~= ps.to_set() + ms.take(j + 1).to_set());
        j += 1;
    }
    assert(ms.take(j as int) =~= ms);
    let mut groups: Vec<CombinedGroup> = Vec::new();
    let mut g: usize = 0;
    while g < keys.len()
        invariant
            0 <= g <= keys.len(),
            groups.len() == g,
            ps == strs(podium_clubs@),
            ms == strs(match_clubs@),
            group_clubs(groups@) == views(keys@).take(g as int),
            forall|q: int|
                0 <= q < g ==> (#[trigger] groups@[q]).podium_items@ == positions_of(ps, groups@[q].club@)
                    && groups@[q].participation_matches@ == positions_of(ms, groups@[q].club@),
        decreases keys.len() - g,
    {
        let key = &keys[g];
        let group = CombinedGroup {
            club: string_of(key),
            podium_items: positions_in(podium_clubs, key),
            participation_matches: positions_in(match_clubs, key),
        };
        let ghost before = group_clubs(groups@);
        groups.push(group);
        assert(group_clubs(groups@) =~= before.push(keys@[g as int]@));
        assert(views(keys@).take(g + 1) =~= views(keys@).take(g as int).push(keys@[g as int]@));
        g += 1;
    }
    assert(views(keys@).take(g as int) =~= views(keys@));
    groups
}

// ---------------------------------------------------------------------------
// Participation matches from the database
// ---------------------------------------------------------------------------

/// A participation as the database lists it: one row per shooter.
#[derive(Debug, Clone)]
pub struct DatabaseParticipationRow {
    pub source_name: String,
    pub shooter: Option<String>,
    pub club: String,
    pub canonical_club: String,
    pub pdf_url: String,
    pub local_path: String,
}

/// A participation of a club in one PDF, with its shooters; the path of the
/// PDF as text.
#[derive(Debug, Clone)]
pub struct DatabaseMatch {
    pub club: String,
    pub canonical_club: String,
    pub shooters: Vec<String>,
    pub source_name: String,
    pub pdf_url: String,
    pub local_path: String,
}

/// The key a match is kept under: canonical club, then PDF.
pub open spec fn row_key(r: DatabaseParticipationRow) -> (Seq<char>, Seq<char>) {
    (r.canonical_club@, r.pdf_url@)
}

pub open spec fn match_key(m: DatabaseMatch) -> (Seq<char>, Seq<char>) {
    (m.canonical_club@, m.pdf_url@)
}

/// Keys in order: by canonical club, then by PDF.
pub open spec fn key_lt(a: (Seq<char>, Seq<char>), b: (Seq<char>, Seq<char>)) -> bool {
    lex_lt(a.0, b.0) || (a.0 == b.0 && lex_lt(a.1, b.1))
}

pub open spec fn keys_ascending(s: Seq<(Seq<char>, Seq<char>)>) -> bool {
    forall|i: int, j: int| 0 <= i < j < s.len() ==> key_lt(#[trigger] s[i], #[trigger] s[j])
}

proof fn lemma_key_order(a: (Seq<char>, Seq<char>), b: (Seq<char>, Seq<char>), c: (Seq<char>, Seq<char>))
    ensures
        !key_lt(a, a),
        key_lt(a, b) && key_lt(b, c) ==> key_lt(a, c),
        a != b ==> key_lt(a, b) || key_lt(b, a),
{
    lemma_lex_irreflexive(a.0);
    lemma_lex_irreflexive(a.1);
    lemma_lex_total(a.0, b.0);
    lemma_lex_total(a.1, b.1);
    if lex_lt(a.0, b.0) && lex_lt(b.0, c.0) {
        lemma_lex_transitive(a.0, b.0, c.0);
    }
    if lex_lt(a.1, b.1) && lex_lt(b.1, c.1) {
        lemma_lex_transitive(a.1, b.1, c.1);
    }
}

pub open spec fn key_views(v: Seq<(Vec<char>, Vec<char>)>) -> Seq<(Seq<char>, Seq<char>)> {
    v.map_values(|k: (Vec<char>, Vec<char>)| (k.0@, k.1@))
}

fn key_less(a: &(Vec<char>, Vec<char>), b: &(Vec<char>, Vec<char>)) -> (r: bool)
    ensures
        r == key_lt((a.0@, a.1@), (b.0@, b.1@)),
{
    lex_less(&a.0, &b.0) || (eq_chars(&a.0, &b.0) && lex_less(&a.1, &b.1))
}

fn key_insert(v: &mut Vec<(Vec<char>, Vec<char>)>, x: (Vec<char>, Vec<char>))
    requires
        keys_ascending(key_views(old(v)@)),
    ensures
        keys_ascending(key_views(final(v)@)),
        key_views(final(v)@).to_set() == key_views(old(v)@).to_set().insert((x.0@, x.1@)),
{
    let ghost old_v = key_views(v@);
    let ghost xv = (x.0@, x.1@);
    let mut i: usize = 0;
    while i < v.len() && key_less(&v[i], &x)
        invariant
            0 <= i <= v.len(),
            key_views(v@) == old_v,
            xv == (x.0@, x.1@),
            forall|j: int| 0 <= j < i ==> key_lt(#[trigger] old_v[j], xv),
        decreases v.len() - i,
    {
        i += 1;
    }
    if i < v.len() && eq_chars(&v[i].0, &x.0) && eq_chars(&v[i].1, &x.1) {
        assert(old_v.to_set().insert(xv) =~= old_v.to_set()) by {
            assert(old_v[i as int] == xv);
        }
        return;
    }
    proof {
        if i < v.len() {
            lemma_key_order(old_v[i as int], xv, xv);
        }
    }
    v.insert(i, x);
    proof {
        let nv = key_views(v@);
        assert(nv =~= old_v.insert(i as int, xv));
        assert forall|a: int, b: int| 0 <= a < b < nv.len() implies key_lt(
            #[trigger] nv[a],
            #[trigger] nv[b],
        ) by {
            if b < i {
                assert(key_lt(old_v[a], old_v[b]));
            } else if b == i {
                assert(key_lt(old_v[a], xv));
            } else if a == i {
                lemma_key_order(old_v[i as int], xv, xv);
                if b - 1 > i {
                    assert(key_lt(old_v[i as int], old_v[b - 1]));
                    lemma_key_order(xv, old_v[i as int], old_v[b - 1]);
                }
            } else if a < i {
                assert(key_lt(old_v[a], xv));
                lemma_key_order(old_v[i as int], xv, xv);
                if b - 1 > i {
                    assert(key_lt(old_v[i as int], old_v[b - 1]));
                    lemma_key_order(xv, old_v[i as int], old_v[b - 1]);
                }
                lemma_key_order(old_v[a], xv, old_v[b - 1]);
            } else {
                assert(key_lt(old_v[a - 1], old_v[b - 1]));
            }
        }
        assert(nv.to_set() =~= old_v.to_set().insert(xv)) by {
            assert forall|y: (Seq<char>, Seq<char>)| nv.to_set().contains(y) implies old_v.to_set().insert(
                xv,
            ).contains(y) by {
                let k = choose|k: int| 0 <= k < nv.len() && nv[k] == y;
                if k < i {
                    assert(old_v[k] == y);
                } else if k > i {
                    assert(old_v[k - 1] == y);
                }
            }
            assert forall|y: (Seq<char>, Seq<char>)| old_v.to_set().insert(xv).contains(y) implies nv.to_set().contains(
                y,
            ) by {
                if y == xv {
                    assert(nv[i as int] == xv);
                } else {
                    let k = choose|k: int| 0 <= k < old_v.len() && old_v[k] == y;
                    if k < i {
                        assert(nv[k] == y);
                    } else {
                        assert(nv[k + 1] == y);
                    }
                }
            }
        }
    }
}

/// The first row of a key.
pub open spec fn first_row(rows: Seq<DatabaseParticipationRow>, key: (Seq<char>, Seq<char>)) -> Option<
    DatabaseParticipationRow,
>
    decreases rows.len(),
{
    if rows.len() == 0 {
        None
    } else {
        match first_row(rows.drop_last(), key) {
            Some(f) => Some(f),
            None => if row_key(rows.last()) == key {
                Some(rows.last())
            } else {
                None
            },
        }
    }
}

/// The shooters of a key, each once, in the order of their rows.
pub open spec fn group_shooters(rows: Seq<DatabaseParticipationRow>, key: (Seq<char>, Seq<char>)) -> Seq<
    Seq<char>,
>
    decreases rows.len(),
{
    if rows.len() == 0 {
        Seq::empty()
    } else {
        let prev = group_shooters(rows.drop_last(), key);
        let r = rows.last();
        if row_key(r) == key && r.shooter is Some && !prev.contains(r.shooter->0@) {
            prev.push(r.shooter->0@)
        } else {
            prev
        }
    }
}

fn contains_name(v: &Vec<Vec<char>>, x: &Vec<char>) -> (r: bool)
    ensures
        r == views(v@).contains(x@),
{
    let mut i: usize = 0;
    while i < v.len()
        invariant
            0 <= i <= v.len(),
            forall|j: int| 0 <= j < i ==> views(v@)[j] != x@,
        decreases v.len() - i,
    {
        if eq_chars(&v[i], x) {
            assert(views(v@)[i as int] == x@);
            return true;
        }
        i += 1;
    }
    false
}

/// One match per canonical club and PDF, in that order: the club, source
/// and file of its first row, and the shooters of its rows, each once.
pub fn participation_matches_from_rows(rows: &Vec<DatabaseParticipationRow>) -> (r: Vec<DatabaseMatch>)
    ensures
        keys_ascending(r@.map_values(|m: DatabaseMatch| match_key(m))),
        r@.map_values(|m: DatabaseMatch| match_key(m)).to_set() == rows@.map_values(
            |x: DatabaseParticipationRow| row_key(x),
        ).to_set(),
        forall|i: int|
            0 <= i < r.len() ==> (first_row(rows@, match_key(#[trigger] r@[i])) matches Some(f) && r@[i].club@
                == f.club@ && r@[i].source_name@ == f.source_name@ && r@[i].local_path@ == f.local_path@
                && strs(r@[i].shooters@) == group_shooters(rows@, match_key(r@[i]))),
{
    let ghost rk = rows@.map_values(|x: DatabaseParticipationRow| row_key(x));
    let mut keys: Vec<(Vec<char>, Vec<char>)> = Vec::new();
    let mut i: usize = 0;
    assert(key_views(keys@).to_set() =~= rk.take(0).to_set());
    while i < rows.len()
        invariant
            0 <= i <= rows.len(),
            rk == rows@.map_values(|x: DatabaseParticipationRow| row_key(x)),
            keys_ascending(key_views(keys@)),
            key_views(keys@).to_set() == rk.take(i as int).to_set(),
        decreases rows.len() - i,
    {
        key_insert(&mut keys, (chars_of(rows[i].canonical_club.as_str()), chars_of(rows[i].pdf_url.as_str())));
        assert(rk.take(i + 1) =~= rk.take(i as int).push(rk[i as int]));
        proof {
            lemma_push_to_set(rk.take(i as int), rk[i as int]);
        }
        i += 1;
    }
    assert(rk.take(i as int) =~= rk);
    let mut out: Vec<DatabaseMatch> = Vec::new();
    let mut g: usize = 0;
    while g < keys.len()
        invariant
            0 <= g <= keys.len(),
            out.len() == g,
            rk == rows@.map_values(|x: DatabaseParticipationRow| row_key(x)),
            out@.map_values(|m: DatabaseMatch| match_key(m)) == key_views(keys@).take(g as int),
            key_views(keys@).to_set() == rk.to_set(),
            forall|q: int|
                0 <= q < g ==> (first_row(rows@, match_key(#[trigger] out@[q])) matches Some(f)
                    && out@[q].club@ == f.club@ && out@[q].source_name@ == f.source_name@
                    && out@[q].local_path@ == f.local_path@ && strs(out@[q].shooters@) == group_shooters(
                    rows@,
                    match_key(out@[q]),
                )),
        decreases keys.len() - g,
    {
        let ghost key = key_views(keys@)[g as int];
        assert(key == (keys@[g as int].0@, keys@[g as int].1@));
        assert(key_views(keys@).to_set().contains(key));
        assert(rk.to_set().contains(key));
        let mut first: Option<usize> = None;
        let mut shooters: Vec<Vec<char>> = Vec::new();
        let mut k: usize = 0;
        assert(rows@.take(0) =~= Seq::<DatabaseParticipationRow>::empty());
        while k < rows.len()
            invariant
                0 <= k <= rows.len(),
                g < keys.len(),
                key == (keys@[g as int].0@, keys@[g as int].1@),
                match first {
                    Some(f) => f < k && first_row(rows@.take(k as int), key) == Some(rows@[f as int]),
                    None => first_row(rows@.take(k as int), key) is None,
                },
                views(shooters@) == group_shooters(rows@.take(k as int), key),
            decreases rows.len() - k,
        {
            assert(rows@.take(k + 1).drop_last() =~= rows@.take(k as int));
            assert(rows@.take(k + 1).last() == rows@[k as int]);
            let row = &rows[k];
            if eq_chars(&chars_of(row.canonical_club.as_str()), &keys[g].0) && eq_chars(
                &chars_of(row.pdf_url.as_str()),
                &keys[g].1,
            ) {
                if first.is_none() {
                    first = Some(k);
                }
                match &row.shooter {
                    Some(s) => {
                        let sc = chars_of(s.as_str());
                        if !contains_name(&shooters, &sc) {
                            let ghost before = views(shooters@);
                            shooters.push(sc);
                            assert(views(shooters@) =~= before.push(s@));
                        }
                    },
                    None => {},
                }
            }
            k += 1;
        }
        assert(rows@.take(k as int) =~= rows@);
        // Every key came from a row, so the key has a first row.
        let f = match first {
            Some(f) => f,
            None => {
                proof {
                    let w = choose|w: int| 0 <= w < rk.len() && rk[w] == key;
                    lemma_first_row_found(rows@, key, w);
                }
                0
            },
        };
        let mut names: Vec<String> = Vec::new();
        let mut n: usize = 0;
        while n < shooters.len()
            invariant
                0 <= n <= shooters.len(),
                strs(names@) == views(shooters@).take(n as int),
            decreases shooters.len() - n,
        {
            let ghost before = strs(names@);
            names.push(string_of(&shooters[n]));
            assert(strs(names@) =~= before.push(shooters@[n as int]@));
            assert(views(shooters@).take(n + 1) =~= views(shooters@).take(n as int).push(shooters@[n as int]@));
            n += 1;
        }
        assert(views(shooters@).take(n as int) =~= views(shooters@));
        let m = DatabaseMatch {
            club: rows[f].club.clone(),
            canonical_club: string_of(&keys[g].0),
            shooters: names,
            source_name: rows[f].source_name.clone(),
            pdf_url: string_of(&keys[g].1),
            local_path: rows[f].local_path.clone(),
        };
        let ghost before = out@.map_values(|m: DatabaseMatch| match_key(m));
        out.push(m);
        assert(out@.map_values(|m: DatabaseMatch| match_key(m)) =~= before.push(key));
        assert(key_views(keys@).take(g + 1) =~= key_views(keys@).take(g as int).push(key));
        g += 1;
    }
    assert(key_views(keys@).take(g as int) =~= key_views(keys@));
    out
}

proof fn lemma_first_row_found(rows: Seq<DatabaseParticipationRow>, key: (Seq<char>, Seq<char>), w: int)
    requires
        0 <= w < rows.len(),
        row_key(rows[w]) == key,
    ensures
        first_row(rows, key) is Some,
    decreases rows.len(),
{
    if w < rows.len() - 1 {
        lemma_first_row_found(rows.drop_last(), key, w);
    }
}

} // verus!
