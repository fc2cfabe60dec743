//! The club editor: the context its links carry, what it shows of a club
//! and its aliases, and how it reads an edit request and answers it.
use vstd::prelude::*;

use crate::export::html::{escape_chars, escaped};
use crate::export::matching::{lookup, pair_views};
use crate::text::{
    append_chars, append_str, chars_of, ends_with, ends_with_str, eq_chars, eq_str, join,
    join_chars, parse_i64, signed_decimal, signed_decimal_chars, slice_chars, starts_with,
    starts_with_str, string_of, trim, trim_chars, views,
};
use crate::web::{form_pair, form_pair_chars, keys_sorted, lemma_lookup_sorted, map_insert, map_remove};

verus! {

broadcast use vstd::string::group_string_axioms;

// ---------------------------------------------------------------------------
// The context of the editor's links
// ---------------------------------------------------------------------------

/// Query keys that describe the editor's own state; its links do not carry
/// them on.
pub open spec fn editor_state_key(k: Seq<char>) -> bool {
    ||| k == "error"@
    ||| k == "draft"@
    ||| k == "draft_alias_id"@
    ||| k == "draft_operation"@
    ||| k == "saved"@
    ||| k == "edit"@
}

/// The query parameters without the editor's state, in order.
pub open spec fn without_state(q: Seq<(Seq<char>, Seq<char>)>) -> Seq<(Seq<char>, Seq<char>)>
    decreases q.len(),
{
    if q.len() == 0 {
        Seq::empty()
    } else if editor_state_key(q[0].0) {
        without_state(q.drop_first())
    } else {
        seq![q[0]] + without_state(q.drop_first())
    }
}

proof fn lemma_without_state(q: Seq<(Seq<char>, Seq<char>)>)
    requires
        keys_sorted(q),
    ensures
        keys_sorted(without_state(q)),
        forall|k: Seq<char>|
            #[trigger] lookup(without_state(q), k) == if editor_state_key(k) {
                None
            } else {
                lookup(q, k)
            },
        forall|m: int|
            0 <= m < without_state(q).len() ==> exists|j: int|
                0 <= j < q.len() && #[trigger] without_state(q)[m] == q[j],
    decreases q.len(),
{
    if q.len() > 0 {
        let tail = q.drop_first();
        assert(keys_sorted(tail)) by {
            assert forall|a: int, b: int| 0 <= a < b < tail.len() implies crate::text::lex_lt(
                #[trigger] tail[a].0,
                #[trigger] tail[b].0,
            ) by {
                assert(tail[a] == q[a + 1] && tail[b] == q[b + 1]);
            }
        }
        lemma_without_state(tail);
        let rest = without_state(tail);
        if !editor_state_key(q[0].0) {
            let w = seq![q[0]] + rest;
            assert(w.drop_first() =~= rest);
            assert forall|k: Seq<char>| #[trigger] lookup(w, k) == if editor_state_key(k) {
                None
            } else {
                lookup(q, k)
            } by {
                assert(w[0] == q[0]);
                assert(lookup(rest, k) == if editor_state_key(k) {
                    None
                } else {
                    lookup(tail, k)
                });
            }
            assert forall|a: int, b: int| 0 <= a < b < w.len() implies crate::text::lex_lt(
                #[trigger] w[a].0,
                #[trigger] w[b].0,
            ) by {
                assert(w[b] == rest[b - 1]);
                if a == 0 {
                    let j = choose|j: int| 0 <= j < tail.len() && #[trigger] rest[b - 1] == tail[j];
                    assert(tail[j] == q[j + 1]);
                } else {
                    assert(w[a] == rest[a - 1]);
                }
            }
            assert forall|m: int| 0 <= m < w.len() implies exists|j: int|
                0 <= j < q.len() && #[trigger] w[m] == q[j] by {
                if m == 0 {
                    assert(w[0] == q[0]);
                } else {
                    assert(w[m] == rest[m - 1]);
                    let j = choose|j: int| 0 <= j < tail.len() && #[trigger] rest[m - 1] == tail[j];
                    assert(tail[j] == q[j + 1]);
                }
            }
        } else {
            assert forall|k: Seq<char>| #[trigger] lookup(rest, k) == if editor_state_key(k) {
                None
            } else {
                lookup(q, k)
            } by {
                assert(lookup(rest, k) == if editor_state_key(k) {
                    None
                } else {
                    lookup(tail, k)
                });
            }
            assert forall|m: int| 0 <= m < rest.len() implies exists|j: int|
                0 <= j < q.len() && #[trigger] rest[m] == q[j] by {
                let j = choose|j: int| 0 <= j < tail.len() && #[trigger] rest[m] == tail[j];
                assert(tail[j] == q[j + 1]);
            }
        }
    }
}

/// The parameters that the editor's links carry: the query without the
/// editor's state, and `detail=1` on a club's own page.
pub open spec fn context_lookup(
    query: Seq<(Seq<char>, Seq<char>)>,
    detail: bool,
    k: Seq<char>,
) -> Option<Seq<char>> {
    if detail && k == "detail"@ {
        Some("1"@)
    } else if editor_state_key(k) {
        None
    } else {
        lookup(query, k)
    }
}

fn is_state_key(k: &String) -> (r: bool)
    ensures
        r == editor_state_key(k@),
{
    let c = chars_of(k.as_str());
    eq_str(&c, "error") || eq_str(&c, "draft") || eq_str(&c, "draft_alias_id") || eq_str(
        &c,
        "draft_operation",
    ) || eq_str(&c, "saved") || eq_str(&c, "edit")
}

/// The parameters that the editor's links carry, as a map in key order.
pub fn editor_context(query: &Vec<(String, String)>, detail: bool) -> (r: Vec<(String, String)>)
    requires
        keys_sorted(pair_views(query@)),
    ensures
        keys_sorted(pair_views(r@)),
        forall|k: Seq<char>|
            #[trigger] lookup(pair_views(r@), k) == context_lookup(pair_views(query@), detail, k),
{
    let ghost qv = pair_views(query@);
    let mut out: Vec<(String, String)> = Vec::new();
    let mut i: usize = 0;
    assert(qv.skip(0) =~= qv);
    assert(pair_views(out@) + without_state(qv.skip(0)) =~= without_state(qv));
    while i < query.len()
        invariant
            0 <= i <= query.len(),
            qv == pair_views(query@),
            pair_views(out@) + without_state(qv.skip(i as int)) == without_state(qv),
        decreases query.len() - i,
    {
        let ghost s = qv.skip(i as int);
        assert(s[0] == (query@[i as int].0@, query@[i as int].1@));
        assert(s.drop_first() =~= qv.skip(i + 1));
        if !is_state_key(&query[i].0) {
            let ghost before = pair_views(out@);
            out.push((query[i].0.clone(), query[i].1.clone()));
            assert(pair_views(out@) =~= before.push(s[0]));
            assert(pair_views(out@) + without_state(qv.skip(i + 1)) =~= before + (seq![s[0]]
                + without_state(s.drop_first())));
        }
        i += 1;
    }
    assert(qv.skip(i as int) =~= Seq::<(Seq<char>, Seq<char>)>::empty());
    assert(pair_views(out@) =~= without_state(qv));
    proof {
        lemma_without_state(qv);
    }
    if detail {
        map_insert(&mut out, String::from_str("detail"), String::from_str("1"));
    }
    proof {
        reveal_strlit("detail");
        reveal_strlit("1");
    }
    out
}

/// A path and its query, form-encoded as `application/x-www-form-urlencoded`
/// does: `name=value` pairs joined by `&`, after a `?`.
pub open spec fn query_url(path: Seq<char>, query: Seq<(Seq<char>, Seq<char>)>) -> Seq<char> {
    path + "?"@ + join(
        query.map_values(|e: (Seq<char>, Seq<char>)| form_pair(e.0, e.1)),
        "&"@,
    )
}

/// A path with a query, as the editor's links and redirects are written.
pub fn url(path: &str, query: &Vec<(String, String)>) -> (r: String)
    ensures
        r@ == query_url(path@, pair_views(query@)),
{
    let ghost qv = pair_views(query@);
    let ghost pairs = qv.map_values(|e: (Seq<char>, Seq<char>)| form_pair(e.0, e.1));
    let mut parts: Vec<Vec<char>> = Vec::new();
    let mut i: usize = 0;
    while i < query.len()
        invariant
            0 <= i <= query.len(),
            qv == pair_views(query@),
            pairs == qv.map_values(|e: (Seq<char>, Seq<char>)| form_pair(e.0, e.1)),
            views(parts@) == pairs.take(i as int),
        decreases query.len() - i,
    {
        let ghost before = views(parts@);
        parts.push(form_pair_chars(query[i].0.as_str(), query[i].1.as_str()));
        assert(views(parts@) =~= before.push(pairs[i as int]));
        assert(pairs.take(i + 1) =~= pairs.take(i as int).push(pairs[i as int]));
        i += 1;
    }
    assert(pairs.take(i as int) =~= pairs);
    let mut out = chars_of(path);
    append_str(&mut out, "?");
    append_chars(&mut out, &join_chars(&parts, &chars_of("&")));
    string_of(&out)
}

// ---------------------------------------------------------------------------
// What the editor shows
// ---------------------------------------------------------------------------

/// An alias of a club as the editor lists it.
#[derive(Debug, Clone)]
pub struct ClubAliasEntry {
    pub id: i64,
    pub alias: String,
    pub status: String,
}

/// A line of the editor's alias list: an active alias in an editable
/// field (its id and its escaped value), or a line of text.
#[derive(Debug, Clone)]
pub struct AliasRow {
    pub editable: bool,
    pub alias_id: String,
    pub html: String,
}

/// What the editor shows of a club; `context` is what its links carry.
#[derive(Debug, Clone)]
pub struct ClubEditorView {
    pub context: Vec<(String, String)>,
    pub club_name: String,
    pub name_value: String,
    pub alias_value: String,
    pub action: String,
    pub close_url: String,
    pub notice: String,
    pub aliases: Vec<AliasRow>,
    pub merge_options: String,
}

/// The notice above the editor: an error in place, or that a change was
/// saved, or nothing.
pub open spec fn notice_of(q: Seq<(Seq<char>, Seq<char>)>) -> Seq<char> {
    match lookup(q, "error"@) {
        Some(e) => "<p role=\"alert\">"@ + escaped(e) + "</p>"@,
        None => if lookup(q, "saved"@) is Some {
            "<p role=\"status\">Änderung gespeichert.</p>"@
        } else {
            Seq::empty()
        },
    }
}

pub fn editor_notice(query: &Vec<(String, String)>) -> (r: String)
    ensures
        r@ == notice_of(pair_views(query@)),
{
    match crate::web::map_get(query, "error") {
        Some(e) => {
            let mut out = chars_of("<p role=\"alert\">");
            append_chars(&mut out, &escape_chars(&chars_of(e.as_str())));
            append_str(&mut out, "</p>");
            string_of(&out)
        },
        None => match crate::web::map_get(query, "saved") {
            Some(_) => String::from_str("<p role=\"status\">Änderung gespeichert.</p>"),
            None => String::new(),
        },
    }
}

/// The value of a key, or a default.
pub open spec fn value_or(q: Seq<(Seq<char>, Seq<char>)>, key: Seq<char>, default: Seq<char>) -> Seq<char> {
    match lookup(q, key) {
        Some(v) => v,
        None => default,
    }
}

fn map_get_or(query: &Vec<(String, String)>, key: &str, default: &str) -> (r: Vec<char>)
    ensures
        r@ == value_or(pair_views(query@), key@, default@),
{
    match crate::web::map_get(query, key) {
        Some(v) => chars_of(v.as_str()),
        None => chars_of(default),
    }
}

/// The value an active alias shows: the draft that failed to save, where
/// the failed edit was of this alias, else the alias.
pub open spec fn alias_shown(q: Seq<(Seq<char>, Seq<char>)>, id: i64, alias: Seq<char>) -> Seq<char> {
    if lookup(q, "draft_alias_id"@) == Some(signed_decimal(id as int)) {
        value_or(q, "draft"@, alias)
    } else {
        alias
    }
}

/// An active alias is editable; any other shows as muted text.
pub open spec fn alias_row_ok(row: AliasRow, q: Seq<(Seq<char>, Seq<char>)>, a: ClubAliasEntry) -> bool {
    if a.status@ == "active"@ {
        &&& row.editable
        &&& row.alias_id@ == signed_decimal(a.id as int)
        &&& row.html@ == escaped(alias_shown(q, a.id, a.alias@))
    } else {
        &&& !row.editable
        &&& row.alias_id@ == Seq::<char>::empty()
        &&& row.html@ == "<p class=\"muted\">"@ + escaped(a.alias@) + " (inaktiv)</p>"@
    }
}

/// The note shown where a club has no aliases.
pub open spec fn no_alias_note() -> Seq<char> {
    "<p class=\"muted\">Noch keine Aliase vorhanden.</p>"@
}

/// The alias list of the editor: one line per alias, or one note where
/// there is none.
pub fn alias_rows(query: &Vec<(String, String)>, aliases: &Vec<ClubAliasEntry>) -> (r: Vec<AliasRow>)
    ensures
        aliases.len() == 0 ==> r.len() == 1 && !r[0].editable && r[0].alias_id@ == Seq::<char>::empty()
            && r[0].html@ == no_alias_note(),
        aliases.len() > 0 ==> r.len() == aliases.len() && forall|i: int|
            0 <= i < r.len() ==> alias_row_ok(#[trigger] r[i], pair_views(query@), aliases[i]),
{
    let mut rows: Vec<AliasRow> = Vec::new();
    if aliases.len() == 0 {
        rows.push(
            AliasRow {
                editable: false,
                alias_id: String::new(),
                html: String::from_str("<p class=\"muted\">Noch keine Aliase vorhanden.</p>"),
            },
        );
        return rows;
    }
    let draft_id = crate::web::map_get(query, "draft_alias_id");
    let mut i: usize = 0;
    while i < aliases.len()
        invariant
            0 <= i <= aliases.len(),
            rows.len() == i,
            match (draft_id, lookup(pair_views(query@), "draft_alias_id"@)) {
                (Some(a), Some(b)) => a@ == b,
                (None, None) => true,
                _ => false,
            },
            forall|j: int| 0 <= j < i ==> alias_row_ok(#[trigger] rows[j], pair_views(query@), aliases[j]),
        decreases aliases.len() - i,
    {
        let a = &aliases[i];
        let id_text = signed_decimal_chars(a.id);
        let row = if eq_str(&chars_of(a.status.as_str()), "active") {
            let is_draft = match &draft_id {
                Some(d) => eq_chars(&chars_of(d.as_str()), &id_text),
                None => false,
            };
            let shown = if is_draft {
                map_get_or(query, "draft", a.alias.as_str())
            } else {
                chars_of(a.alias.as_str())
            };
            AliasRow { editable: true, alias_id: string_of(&id_text), html: string_of(&escape_chars(&shown)) }
        } else {
            let mut html = chars_of("<p class=\"muted\">");
            append_chars(&mut html, &escape_chars(&chars_of(a.alias.as_str())));
            append_str(&mut html, " (inaktiv)</p>");
            AliasRow { editable: false, alias_id: String::new(), html: string_of(&html) }
        };
        rows.push(row);
        i += 1;
    }
    rows
}

/// One `<option>` per club that a club can be merged into.
pub open spec fn merge_options_of(options: Seq<(i64, Seq<char>)>) -> Seq<char>
    decreases options.len(),
{
    if options.len() == 0 {
        Seq::empty()
    } else {
        merge_options_of(options.drop_last()) + "<option value=\""@ + signed_decimal(
            options.last().0 as int,
        ) + "\">"@ + escaped(options.last().1) + "</option>\n"@
    }
}

pub open spec fn option_views(v: Seq<(i64, String)>) -> Seq<(i64, Seq<char>)> {
    v.map_values(|o: (i64, String)| (o.0, o.1@))
}

pub fn merge_options(options: &Vec<(i64, String)>) -> (r: String)
    ensures
        r@ == merge_options_of(option_views(options@)),
{
    let ghost ov = option_views(options@);
    let mut out: Vec<char> = Vec::new();
    let mut i: usize = 0;
    assert(ov.take(0) =~= Seq::<(i64, Seq<char>)>::empty());
    while i < options.len()
        invariant
            0 <= i <= options.len(),
            ov == option_views(options@),
            out@ == merge_options_of(ov.take(i as int)),
        decreases options.len() - i,
    {
        assert(ov.take(i + 1).drop_last() =~= ov.take(i as int));
        assert(ov.take(i + 1).last() == (options@[i as int].0, options@[i as int].1@));
        append_str(&mut out, "<option value=\"");
        append_chars(&mut out, &signed_decimal_chars(options[i].0));
        append_str(&mut out, "\">");
        append_chars(&mut out, &escape_chars(&chars_of(options[i].1.as_str())));
        append_str(&mut out, "</option>\n");
        i += 1;
    }
    assert(ov.take(i as int) =~= ov);
    string_of(&out)
}

/// The name field: the draft of a failed rename, else the club's name.
pub open spec fn name_value_of(q: Seq<(Seq<char>, Seq<char>)>, name: Seq<char>) -> Seq<char> {
    escaped(
        if lookup(q, "draft_operation"@) == Some("rename"@) {
            value_or(q, "draft"@, name)
        } else {
            name
        },
    )
}

/// The new-alias field: the draft of a failed new alias, else empty.
pub open spec fn alias_value_of(q: Seq<(Seq<char>, Seq<char>)>) -> Seq<char> {
    if lookup(q, "draft_operation"@) == Some("alias-save"@) && lookup(q, "draft_alias_id"@) is None {
        escaped(value_or(q, "draft"@, Seq::empty()))
    } else {
        Seq::empty()
    }
}

/// The path of a club's page.
pub open spec fn club_path(id: i64) -> Seq<char> {
    "/clubs/"@ + signed_decimal(id as int)
}

fn club_path_chars(id: i64) -> (r: Vec<char>)
    ensures
        r@ == club_path(id),
{
    let mut p = chars_of("/clubs/");
    append_chars(&mut p, &signed_decimal_chars(id));
    p
}

/// What the editor of a club shows, from the query of the page it is on.
/// The form posts to the club's edit path with the carried context; it
/// closes to the club's page where it stands on one, else to the list.
pub fn editor_view(
    club_id: i64,
    canonical_name: &str,
    query: &Vec<(String, String)>,
    detail: bool,
    aliases: &Vec<ClubAliasEntry>,
    options: &Vec<(i64, String)>,
) -> (r: ClubEditorView)
    requires
        keys_sorted(pair_views(query@)),
    ensures
        keys_sorted(pair_views(r.context@)),
        forall|k: Seq<char>|
            #[trigger] lookup(pair_views(r.context@), k) == context_lookup(pair_views(query@), detail, k),
        r.club_name@ == escaped(canonical_name@),
        r.name_value@ == name_value_of(pair_views(query@), canonical_name@),
        r.alias_value@ == alias_value_of(pair_views(query@)),
        r.action@ == escaped(
            query_url(club_path(club_id) + "/edit"@, pair_views(r.context@)),
        ),
        r.close_url@ == escaped(
            if detail {
                club_path(club_id)
            } else {
                query_url("/clubs"@, pair_views(r.context@))
            },
        ),
        r.notice@ == notice_of(pair_views(query@)),
        aliases.len() == 0 ==> r.aliases.len() == 1 && !r.aliases[0].editable && r.aliases[0].html@
            == no_alias_note(),
        aliases.len() > 0 ==> r.aliases.len() == aliases.len() && forall|i: int|
            0 <= i < r.aliases.len() ==> alias_row_ok(
                #[trigger] r.aliases[i],
                pair_views(query@),
                aliases[i],
            ),
        r.merge_options@ == merge_options_of(option_views(options@)),
{
    let context = editor_context(query, detail);
    let mut edit_path = club_path_chars(club_id);
    append_str(&mut edit_path, "/edit");
    let action = escape_chars(&chars_of(url(string_of(&edit_path).as_str(), &context).as_str()));
    let close = if detail {
        club_path_chars(club_id)
    } else {
        chars_of(url("/clubs", &context).as_str())
    };
    let draft_op = crate::web::map_get(query, "draft_operation");
    let rename_draft = match &draft_op {
        Some(op) => eq_str(&chars_of(op.as_str()), "rename"),
        None => false,
    };
    let new_alias_draft = match &draft_op {
        Some(op) => eq_str(&chars_of(op.as_str()), "alias-save"),
        None => false,
    } && crate::web::map_get(query, "draft_alias_id").is_none();
    let name_value = if rename_draft {
        escape_chars(&map_get_or(query, "draft", canonical_name))
    } else {
        escape_chars(&chars_of(canonical_name))
    };
    let alias_value = if new_alias_draft {
        escape_chars(&map_get_or(query, "draft", ""))
    } else {
        Vec::new()
    };
    proof {
        reveal_strlit("");
    }
    ClubEditorView {
        context,
        club_name: string_of(&escape_chars(&chars_of(canonical_name))),
        name_value: string_of(&name_value),
        alias_value: string_of(&alias_value),
        action: string_of(&action),
        close_url: string_of(&escape_chars(&close)),
        notice: editor_notice(query),
        aliases: alias_rows(query, aliases),
        merge_options: merge_options(options),
    }
}

// ---------------------------------------------------------------------------
// Edit requests
// ---------------------------------------------------------------------------

/// The club of an edit path `/clubs/{id}/edit`.
pub open spec fn edit_id_of(path: Seq<char>) -> Option<i64> {
    if starts_with(path, "/clubs/"@) && ends_with(path.skip(7), "/edit"@) {
        parse_i64(path.skip(7).take(path.skip(7).len() - 5))
    } else {
        None
    }
}

/// The club that an edit request is for; `None` for a path that is not an
/// edit path or an id that is no `i64`.
pub fn club_edit_id(path: &str) -> (r: Option<i64>)
    ensures
        r == edit_id_of(path@),
{
    let p = chars_of(path);
    proof {
        reveal_strlit("/clubs/");
        reveal_strlit("/edit");
    }
    if !starts_with_str(&p, "/clubs/") {
        return None;
    }
    let rest = slice_chars(&p, 7, p.len());
    assert(rest@ =~= p@.skip(7));
    if !ends_with_str(&rest, "/edit") {
        return None;
    }
    let id_text = slice_chars(&rest, 0, rest.len() - 5);
    assert(id_text@ =~= rest@.take(rest@.len() - 5));
    crate::text::parse_i64_chars(&id_text)
}

/// The text of the `ParseIntError` that `str::parse::<i64>` gives for a
/// value; empty where the value reads. What the text says is not stated.
#[verifier::external_body]
fn parse_i64_error(value: &str) -> (r: String) {
    match value.parse::<i64>() {
        Ok(_) => String::new(),
        Err(e) => e.to_string(),
    }
}

/// A form number: the `i64` it reads as, or the text of std's parse error.
fn parse_i64_text(value: &str) -> (r: Result<i64, String>)
    ensures
        match r {
            Ok(v) => parse_i64(value@) == Some(v),
            Err(_) => parse_i64(value@) is None,
        },
{
    match crate::text::parse_i64_chars(&crate::text::chars_of(value)) {
        Some(v) => Ok(v),
        None => Err(parse_i64_error(value)),
    }
}

/// What an edit request asks of the editor.
#[derive(Debug, Clone)]
pub enum ClubEditAction {
    Rename { name: String },
    SaveAlias { alias_id: Option<i64>, name: String },
    DeactivateAlias { alias_id: i64 },
    Merge { target_id: i64 },
}

/// The trimmed value of a form field, where it is not blank.
pub open spec fn field_of(form: Seq<(Seq<char>, Seq<char>)>, key: Seq<char>) -> Option<Seq<char>> {
    crate::web::query_text(form, key)
}

/// The message of a form that lacks a field.
pub open spec fn missing_field(key: Seq<char>) -> Seq<char> {
    "missing form value "@ + key
}

/// An action that needs a name: the action with it, or the missing field.
pub open spec fn named_ok(
    r: Result<ClubEditAction, String>,
    form: Seq<(Seq<char>, Seq<char>)>,
    alias_id: Option<i64>,
    rename: bool,
) -> bool {
    match field_of(form, "name"@) {
        None => r matches Err(m) && m@ == missing_field("name"@),
        Some(n) => if rename {
            r matches Ok(ClubEditAction::Rename { name }) && name@ == n
        } else {
            r matches Ok(ClubEditAction::SaveAlias { alias_id: a, name }) && name@ == n && a == alias_id
        },
    }
}

/// How the fields of an edit form read as an action: an `alias_id` that is
/// given must be a number (else the parse error); then `operation` picks
/// the action and the fields it needs.
pub open spec fn edit_action_ok(r: Result<ClubEditAction, String>, form: Seq<(Seq<char>, Seq<char>)>) -> bool {
    let raw_alias = lookup(form, "alias_id"@);
    if raw_alias is Some && parse_i64(raw_alias->0) is None {
        r is Err
    } else {
        let alias_id = match raw_alias {
            Some(v) => parse_i64(v),
            None => None,
        };
        match field_of(form, "operation"@) {
            None => r matches Err(m) && m@ == missing_field("operation"@),
            Some(op) => if op == "rename"@ {
                named_ok(r, form, alias_id, true)
            } else if op == "alias-save"@ {
                named_ok(r, form, alias_id, false)
            } else if op == "alias-deactivate"@ {
                match alias_id {
                    Some(a) => r matches Ok(ClubEditAction::DeactivateAlias { alias_id: x }) && x == a,
                    None => r matches Err(m) && m@ == "Alias fehlt."@,
                }
            } else if op == "merge"@ {
                match field_of(form, "target_id"@) {
                    None => r matches Err(m) && m@ == missing_field("target_id"@),
                    Some(t) => match parse_i64(t) {
                        Some(x) => r matches Ok(ClubEditAction::Merge { target_id: y }) && y == x,
                        None => r is Err,
                    },
                }
            } else {
                r matches Err(m) && m@ == "Unbekannte Aktion."@
            }
        }
    }
}

fn form_field(form: &Vec<(String, String)>, key: &str) -> (r: Result<String, String>)
    ensures
        match (r, field_of(pair_views(form@), key@)) {
            (Ok(a), Some(b)) => a@ == b,
            (Err(m), None) => m@ == missing_field(key@),
            _ => false,
        },
{
    match crate::web::non_empty_query(form, key) {
        Some(v) => Ok(v),
        None => {
            let mut m = chars_of("missing form value ");
            append_str(&mut m, key);
            Err(string_of(&m))
        },
    }
}

/// Reads an edit form as an action, or the message of what is wrong with
/// it.
pub fn club_edit_action(form: &Vec<(String, String)>) -> (r: Result<ClubEditAction, String>)
    ensures
        edit_action_ok(r, pair_views(form@)),
{
    let alias_id = match crate::web::map_get(form, "alias_id") {
        Some(v) => match parse_i64_text(v.as_str()) {
            Ok(i) => Some(i),
            Err(e) => {
                return Err(e);
            },
        },
        None => None,
    };
    let op = match form_field(form, "operation") {
        Ok(op) => op,
        Err(e) => {
            return Err(e);
        },
    };
    let opc = chars_of(op.as_str());
    if eq_str(&opc, "rename") {
        match form_field(form, "name") {
            Ok(name) => Ok(ClubEditAction::Rename { name }),
            Err(e) => Err(e),
        }
    } else if eq_str(&opc, "alias-save") {
        match form_field(form, "name") {
            Ok(name) => Ok(ClubEditAction::SaveAlias { alias_id, name }),
            Err(e) => Err(e),
        }
    } else if eq_str(&opc, "alias-deactivate") {
        match alias_id {
            Some(a) => Ok(ClubEditAction::DeactivateAlias { alias_id: a }),
            None => Err(String::from_str("Alias fehlt.")),
        }
    } else if eq_str(&opc, "merge") {
        match form_field(form, "target_id") {
            Ok(t) => match parse_i64_text(t.as_str()) {
                Ok(x) => Ok(ClubEditAction::Merge { target_id: x }),
                Err(e) => Err(e),
            },
            Err(e) => Err(e),
        }
    } else {
        Err(String::from_str("Unbekannte Aktion."))
    }
}

// ---------------------------------------------------------------------------
// Answers to edit requests
// ---------------------------------------------------------------------------

/// The query an edit request is answered with: the request's query without
/// `detail` and with `edit` set to the club; and whether the request came
/// from the club's own page (`detail=1`).
pub fn answer_query(query: &Vec<(String, String)>, club_id: i64) -> (r: (Vec<(String, String)>, bool))
    requires
        keys_sorted(pair_views(query@)),
    ensures
        keys_sorted(pair_views(r.0@)),
        forall|k: Seq<char>|
            #[trigger] lookup(pair_views(r.0@), k) == if k == "edit"@ {
                Some(signed_decimal(club_id as int))
            } else if k == "detail"@ {
                None
            } else {
                lookup(pair_views(query@), k)
            },
        r.1 == (lookup(pair_views(query@), "detail"@) == Some("1"@)),
{
    let mut q: Vec<(String, String)> = Vec::new();
    let mut i: usize = 0;
    while i < query.len()
        invariant
            0 <= i <= query.len(),
            pair_views(q@) == pair_views(query@).take(i as int),
        decreases query.len() - i,
    {
        let ghost before = pair_views(q@);
        q.push((query[i].0.clone(), query[i].1.clone()));
        assert(pair_views(q@) =~= before.push(pair_views(query@)[i as int]));
        assert(pair_views(query@).take(i + 1) =~= pair_views(query@).take(i as int).push(
            pair_views(query@)[i as int],
        ));
        i += 1;
    }
    assert(pair_views(query@).take(i as int) =~= pair_views(query@));
    let detail = match map_remove(&mut q, "detail") {
        Some(v) => eq_str(&chars_of(v.as_str()), "1"),
        None => false,
    };
    map_insert(&mut q, String::from_str("edit"), string_of(&signed_decimal_chars(club_id)));
    proof {
        reveal_strlit("edit");
        reveal_strlit("detail");
    }
    (q, detail)
}

/// Where a saved edit leads: the club's page, or the list, with the query
/// and `saved=1`, at the editor.
pub fn saved_location(query: &mut Vec<(String, String)>, club_id: i64, detail: bool) -> (r: String)
    requires
        keys_sorted(pair_views(old(query)@)),
    ensures
        keys_sorted(pair_views(final(query)@)),
        forall|k: Seq<char>|
            #[trigger] lookup(pair_views(final(query)@), k) == if k == "saved"@ {
                Some("1"@)
            } else {
                lookup(pair_views(old(query)@), k)
            },
        r@ == query_url(
            if detail {
                club_path(club_id)
            } else {
                "/clubs"@
            },
            pair_views(final(query)@),
        ) + "#club-editor"@,
{
    map_insert(query, String::from_str("saved"), String::from_str("1"));
    proof {
        reveal_strlit("saved");
        reveal_strlit("1");
    }
    let path = if detail {
        string_of(&club_path_chars(club_id))
    } else {
        String::from_str("/clubs")
    };
    let mut out = chars_of(url(path.as_str(), query).as_str());
    append_str(&mut out, "#club-editor");
    string_of(&out)
}

/// The query a failed edit shows the editor with: the error, and the
/// fields of the failed form as drafts.
pub open spec fn failed_lookup(
    query: Seq<(Seq<char>, Seq<char>)>,
    error: Seq<char>,
    form: Seq<(Seq<char>, Seq<char>)>,
    k: Seq<char>,
) -> Option<Seq<char>> {
    if k == "draft"@ && lookup(form, "name"@) is Some {
        lookup(form, "name"@)
    } else if k == "draft_alias_id"@ && lookup(form, "alias_id"@) is Some {
        lookup(form, "alias_id"@)
    } else if k == "draft_operation"@ && lookup(form, "operation"@) is Some {
        lookup(form, "operation"@)
    } else if k == "error"@ {
        Some(error)
    } else {
        lookup(query, k)
    }
}

fn copy_field(query: &mut Vec<(String, String)>, form: &Vec<(String, String)>, field: &str, target: &str)
    requires
        keys_sorted(pair_views(old(query)@)),
    ensures
        keys_sorted(pair_views(final(query)@)),
        forall|k: Seq<char>|
            #[trigger] lookup(pair_views(final(query)@), k) == if k == target@ && lookup(
                pair_views(form@),
                field@,
            ) is Some {
                lookup(pair_views(form@), field@)
            } else {
                lookup(pair_views(old(query)@), k)
            },
{
    match crate::web::map_get(form, field) {
        Some(v) => map_insert(query, String::from_str(target), v),
        None => {},
    }
}

pub fn failed_edit_query(query: &mut Vec<(String, String)>, error: &str, form: &Vec<(String, String)>)
    requires
        keys_sorted(pair_views(old(query)@)),
    ensures
        keys_sorted(pair_views(final(query)@)),
        forall|k: Seq<char>|
            #[trigger] lookup(pair_views(final(query)@), k) == failed_lookup(
                pair_views(old(query)@),
                error@,
                pair_views(form@),
                k,
            ),
{
    proof {
        reveal_strlit("error");
        reveal_strlit("draft");
        reveal_strlit("draft_alias_id");
        reveal_strlit("draft_operation");
        reveal_strlit("name");
        reveal_strlit("alias_id");
        reveal_strlit("operation");
    }
    let ghost q0 = pair_views(query@);
    let ghost fv = pair_views(form@);
    map_insert(query, String::from_str("error"), String::from_str(error));
    let ghost q1 = pair_views(query@);
    copy_field(query, form, "name", "draft");
    let ghost q2 = pair_views(query@);
    copy_field(query, form, "alias_id", "draft_alias_id");
    let ghost q3 = pair_views(query@);
    copy_field(query, form, "operation", "draft_operation");
    proof {
        assert forall|k: Seq<char>| #[trigger] lookup(pair_views(query@), k) == failed_lookup(
            q0,
            error@,
            fv,
            k,
        ) by {
            assert(lookup(q1, k) == if k == "error"@ {
                Some(error@)
            } else {
                lookup(q0, k)
            });
            assert(lookup(q2, k) == if k == "draft"@ && lookup(fv, "name"@) is Some {
                lookup(fv, "name"@)
            } else {
                lookup(q1, k)
            });
            assert(lookup(q3, k) == if k == "draft_alias_id"@ && lookup(fv, "alias_id"@) is Some {
                lookup(fv, "alias_id"@)
            } else {
                lookup(q2, k)
            });
            assert(lookup(pair_views(query@), k) == if k == "draft_operation"@ && lookup(
                fv,
                "operation"@,
            ) is Some {
                lookup(fv, "operation"@)
            } else {
                lookup(q3, k)
            });
            assert("draft"@[0] != "error"@[0]);
            assert("draft_alias_id"@[0] != "error"@[0]);
            assert("draft_operation"@[0] != "error"@[0]);
            assert("draft"@.len() != "draft_alias_id"@.len());
            assert("draft"@.len() != "draft_operation"@.len());
            assert("draft_alias_id"@.len() != "draft_operation"@.len());
        }
    }
}

} // verus!
