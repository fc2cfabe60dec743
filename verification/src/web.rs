//! The local read-only web interface.
use std::path::PathBuf;

pub mod club_editor;
pub mod views;

use vstd::prelude::*;

use crate::export::html::{escape_chars, escaped};
use crate::export::matching::{lookup, pair_views};
use crate::import::podium::last_value;
use crate::text::{
    append_chars, append_str, chars_of, ends_with, ends_with_str, eq_chars, eq_str, parse_i64,
    parse_i64_chars, starts_with, starts_with_str, strip_prefixes, strip_prefixes_chars,
    strip_suffixes, strip_suffixes_chars, eq_ignore_ascii_case, eq_ignore_ascii_case_chars,
    lemma_lex_irreflexive, lemma_lex_total, lemma_lex_transitive, lex_less, lex_lt, lines,
    parse_unsigned, parse_unsigned_chars, replace, replace_str, split_at_char, split_char,
    split_lines, split_once, split_once_str, split_words, string_of, trim, trim_chars, views,
    words,
};

verus! {

/// Where the web interface reads and listens.
#[derive(Debug, Clone)]
pub struct WebConfig {
    pub database_path: PathBuf,
    pub bind: String,
}

/// Serves the web interface.
#[derive(Debug)]
pub struct WebServer {
    config: WebConfig,
}

impl WebServer {
    /// The configuration it was made with.
    pub closed spec fn spec_config(&self) -> WebConfig {
        self.config
    }

    pub fn new(config: WebConfig) -> (r: Self)
        ensures
            r.spec_config() == config,
    {
        WebServer { config }
    }

    /// Where it reads and listens.
    pub fn config(&self) -> (r: &WebConfig)
        ensures
            *r == self.spec_config(),
    {
        &self.config
    }
}


broadcast use vstd::string::group_string_axioms;

// ---------------------------------------------------------------------------
// Query parameters
// ---------------------------------------------------------------------------

/// Keys in strictly ascending order: the order in which a map of query
/// parameters is walked, each key once.
pub open spec fn keys_sorted(v: Seq<(Seq<char>, Seq<char>)>) -> bool {
    forall|i: int, j: int| 0 <= i < j < v.len() ==> lex_lt(#[trigger] v[i].0, #[trigger] v[j].0)
}

proof fn lemma_lookup_at(s: Seq<(Seq<char>, Seq<char>)>, k: Seq<char>, i: int)
    requires
        0 <= i < s.len(),
        s[i].0 == k,
        forall|j: int| 0 <= j < i ==> (#[trigger] s[j]).0 != k,
    ensures
        lookup(s, k) == Some(s[i].1),
    decreases i,
{
    if i > 0 {
        assert forall|j: int| 0 <= j < i - 1 implies (#[trigger] s.drop_first()[j]).0 != k by {
            assert(s.drop_first()[j] == s[j + 1]);
        }
        lemma_lookup_at(s.drop_first(), k, i - 1);
    }
}

proof fn lemma_lookup_none(s: Seq<(Seq<char>, Seq<char>)>, k: Seq<char>)
    requires
        forall|j: int| 0 <= j < s.len() ==> (#[trigger] s[j]).0 != k,
    ensures
        lookup(s, k) is None,
    decreases s.len(),
{
    if s.len() > 0 {
        assert(s[0].0 != k);
        assert forall|j: int| 0 <= j < s.len() - 1 implies (#[trigger] s.drop_first()[j]).0 != k by {
            assert(s.drop_first()[j] == s[j + 1]);
        }
        lemma_lookup_none(s.drop_first(), k);
    }
}

/// In a map with sorted keys, `lookup` finds the entry of a key wherever it
/// stands.
pub(crate) proof fn lemma_lookup_sorted(s: Seq<(Seq<char>, Seq<char>)>, k: Seq<char>)
    requires
        keys_sorted(s),
    ensures
        forall|i: int| 0 <= i < s.len() && (#[trigger] s[i]).0 == k ==> lookup(s, k) == Some(s[i].1),
        (forall|i: int| 0 <= i < s.len() ==> (#[trigger] s[i]).0 != k) ==> lookup(s, k) is None,
{
    assert forall|i: int| 0 <= i < s.len() && (#[trigger] s[i]).0 == k implies lookup(s, k) == Some(
        s[i].1,
    ) by {
        assert forall|j: int| 0 <= j < i implies (#[trigger] s[j]).0 != k by {
            assert(lex_lt(s[j].0, s[i].0));
            lemma_lex_irreflexive(k);
        }
        lemma_lookup_at(s, k, i);
    }
    if forall|i: int| 0 <= i < s.len() ==> (#[trigger] s[i]).0 != k {
        lemma_lookup_none(s, k);
    }
}

/// Sets `key` to `value` in a map of query parameters kept as sorted pairs.
pub fn map_insert(v: &mut Vec<(String, String)>, key: String, value: String)
    requires
        keys_sorted(pair_views(old(v)@)),
    ensures
        keys_sorted(pair_views(final(v)@)),
        forall|k: Seq<char>|
            #![trigger lookup(pair_views(final(v)@), k)]
            lookup(pair_views(final(v)@), k) == if k == key@ {
                Some(value@)
            } else {
                lookup(pair_views(old(v)@), k)
            },
{
    let ghost old_v = pair_views(v@);
    let kc = chars_of(key.as_str());
    let mut i: usize = 0;
    while i < v.len() && lex_less(&chars_of(v[i].0.as_str()), &kc)
        invariant
            0 <= i <= v.len(),
            pair_views(v@) == old_v,
            kc@ == key@,
            forall|j: int| 0 <= j < i ==> lex_lt(#[trigger] old_v[j].0, key@),
        decreases v.len() - i,
    {
        i += 1;
    }
    proof {
        lemma_lookup_sorted(old_v, key@);
    }
    if i < v.len() && eq_chars(&chars_of(v[i].0.as_str()), &kc) {
        let ghost oi = old_v[i as int];
        v.set(i, (key, value));
        proof {
            let nv = pair_views(v@);
            assert(nv =~= old_v.update(i as int, (key@, value@)));
            assert(keys_sorted(nv)) by {
                assert forall|a: int, b: int| 0 <= a < b < nv.len() implies lex_lt(
                    #[trigger] nv[a].0,
                    #[trigger] nv[b].0,
                ) by {
                    assert(lex_lt(old_v[a].0, old_v[b].0));
                }
            }
            lemma_lookup_sorted(nv, key@);
            assert(nv[i as int].0 == key@);
            assert forall|k: Seq<char>| k != key@ implies #[trigger] lookup(nv, k) == lookup(old_v, k) by {
                lemma_lookup_sorted(old_v, k);
                lemma_lookup_sorted(nv, k);
                if exists|m: int| 0 <= m < old_v.len() && old_v[m].0 == k {
                    let m = choose|m: int| 0 <= m < old_v.len() && old_v[m].0 == k;
                    assert(m != i);
                    assert(nv[m] == old_v[m]);
                } else {
                    assert forall|m: int| 0 <= m < nv.len() implies (#[trigger] nv[m]).0 != k by {
                        if m != i {
                            assert(nv[m] == old_v[m]);
                        }
                    }
                }
            }
        }
        return;
    }
    proof {
        if i < v.len() {
            lemma_lex_total(old_v[i as int].0, key@);
        }
    }
    v.insert(i, (key, value));
    proof {
        let nv = pair_views(v@);
        assert(nv =~= old_v.insert(i as int, (key@, value@)));
        assert(keys_sorted(nv)) by {
            assert forall|a: int, b: int| 0 <= a < b < nv.len() implies lex_lt(
                #[trigger] nv[a].0,
                #[trigger] nv[b].0,
            ) by {
                if b < i {
                    assert(lex_lt(old_v[a].0, old_v[b].0));
                } else if b == i {
                    assert(lex_lt(old_v[a].0, key@));
                } else if a == i {
                    assert(lex_lt(key@, old_v[i as int].0));
                    if b - 1 > i {
                        assert(lex_lt(old_v[i as int].0, old_v[b - 1].0));
                        lemma_lex_transitive(key@, old_v[i as int].0, old_v[b - 1].0);
                    }
                } else if a < i {
                    assert(lex_lt(old_v[a].0, key@));
                    assert(lex_lt(key@, old_v[i as int].0));
                    lemma_lex_transitive(old_v[a].0, key@, old_v[i as int].0);
                    if b - 1 > i {
                        assert(lex_lt(old_v[i as int].0, old_v[b - 1].0));
                        lemma_lex_transitive(old_v[a].0, old_v[i as int].0, old_v[b - 1].0);
                    }
                } else {
                    assert(lex_lt(old_v[a - 1].0, old_v[b - 1].0));
                }
            }
        }
        lemma_lookup_sorted(nv, key@);
        assert(nv[i as int].0 == key@);
        assert forall|k: Seq<char>| k != key@ implies #[trigger] lookup(nv, k) == lookup(old_v, k) by {
            lemma_lookup_sorted(old_v, k);
            lemma_lookup_sorted(nv, k);
            if exists|m: int| 0 <= m < old_v.len() && old_v[m].0 == k {
                let m = choose|m: int| 0 <= m < old_v.len() && old_v[m].0 == k;
                if m < i {
                    assert(nv[m] == old_v[m]);
                } else {
                    assert(nv[m + 1] == old_v[m]);
                }
            } else {
                assert forall|m: int| 0 <= m < nv.len() implies (#[trigger] nv[m]).0 != k by {
                    if m < i {
                        assert(nv[m] == old_v[m]);
                    } else if m > i {
                        assert(nv[m] == old_v[m - 1]);
                    }
                }
            }
        }
    }
}

/// The value of a key in a map of query parameters.
pub fn map_get(v: &Vec<(String, String)>, key: &str) -> (r: Option<String>)
    ensures
        match (r, lookup(pair_views(v@), key@)) {
            (Some(a), Some(b)) => a@ == b,
            (None, None) => true,
            _ => false,
        },
{
    let ghost vv = pair_views(v@);
    let k = chars_of(key);
    let mut i: usize = 0;
    assert(vv.skip(0) =~= vv);
    while i < v.len()
        invariant
            0 <= i <= v.len(),
            vv == pair_views(v@),
            k@ == key@,
            lookup(vv, key@) == lookup(vv.skip(i as int), key@),
        decreases v.len() - i,
    {
        assert(vv.skip(i as int)[0] == (v@[i as int].0@, v@[i as int].1@));
        assert(vv.skip(i as int).drop_first() =~= vv.skip(i + 1));
        if eq_chars(&chars_of(v[i].0.as_str()), &k) {
            return Some(v[i].1.clone());
        }
        i += 1;
    }
    None
}

/// Removes `key` from a map of query parameters kept as sorted pairs, and
/// hands back its value.
pub fn map_remove(v: &mut Vec<(String, String)>, key: &str) -> (r: Option<String>)
    requires
        keys_sorted(pair_views(old(v)@)),
    ensures
        keys_sorted(pair_views(final(v)@)),
        match (r, lookup(pair_views(old(v)@), key@)) {
            (Some(a), Some(b)) => a@ == b,
            (None, None) => true,
            _ => false,
        },
        forall|k: Seq<char>|
            #![trigger lookup(pair_views(final(v)@), k)]
            lookup(pair_views(final(v)@), k) == if k == key@ {
                None
            } else {
                lookup(pair_views(old(v)@), k)
            },
{
    let ghost old_v = pair_views(v@);
    let k = chars_of(key);
    proof {
        lemma_lookup_sorted(old_v, key@);
    }
    let mut i: usize = 0;
    while i < v.len()
        invariant
            0 <= i <= v.len(),
            pair_views(v@) == old_v,
            old_v == pair_views(old(v)@),
            keys_sorted(old_v),
            k@ == key@,
            forall|j: int| 0 <= j < i ==> (#[trigger] old_v[j]).0 != key@,
        decreases v.len() - i,
    {
        if eq_chars(&chars_of(v[i].0.as_str()), &k) {
            let ghost ov = v@;
            let (_, value) = v.remove(i);
            proof {
                assert(value == ov[i as int].1);
                assert(old_v[i as int] == (ov[i as int].0@, ov[i as int].1@));
                lemma_lookup_sorted(old_v, key@);
                let nv = pair_views(v@);
                assert(nv =~= old_v.remove(i as int));
                assert(keys_sorted(nv)) by {
                    assert forall|a: int, b: int| 0 <= a < b < nv.len() implies lex_lt(
                        #[trigger] nv[a].0,
                        #[trigger] nv[b].0,
                    ) by {
                        if b < i {
                            assert(lex_lt(old_v[a].0, old_v[b].0));
                        } else if a < i {
                            assert(lex_lt(old_v[a].0, old_v[b + 1].0));
                        } else {
                            assert(lex_lt(old_v[a + 1].0, old_v[b + 1].0));
                        }
                    }
                }
                assert forall|q: Seq<char>| #[trigger] lookup(nv, q) == if q == key@ {
                    None
                } else {
                    lookup(old_v, q)
                } by {
                    lemma_lookup_sorted(old_v, q);
                    lemma_lookup_sorted(nv, q);
                    if q == key@ {
                        assert forall|m: int| 0 <= m < nv.len() implies (#[trigger] nv[m]).0 != q by {
                            if m < i {
                                assert(nv[m] == old_v[m]);
                            } else {
                                assert(nv[m] == old_v[m + 1]);
                                assert(lex_lt(old_v[i as int].0, old_v[m + 1].0));
                                lemma_lex_irreflexive(q);
                            }
                        }
                    } else if exists|m: int| 0 <= m < old_v.len() && old_v[m].0 == q {
                        let m = choose|m: int| 0 <= m < old_v.len() && old_v[m].0 == q;
                        if m < i {
                            assert(nv[m] == old_v[m]);
                        } else {
                            assert(m != i);
                            assert(nv[m - 1] == old_v[m]);
                        }
                    } else {
                        assert forall|m: int| 0 <= m < nv.len() implies (#[trigger] nv[m]).0 != q by {
                            if m < i {
                                assert(nv[m] == old_v[m]);
                            } else {
                                assert(nv[m] == old_v[m + 1]);
                            }
                        }
                    }
                }
                assert(old_v[i as int].0 == key@);
            }
            return Some(value);
        }
        i += 1;
    }
    proof {
        assert forall|m: int| 0 <= m < old_v.len() implies (#[trigger] old_v[m]).0 != key@ by {}
    }
    None
}

/// The value of a form field after `application/x-www-form-urlencoded`
/// decoding of the text (with `+` already read as a space).
pub uninterp spec fn percent_decoded(value: Seq<char>) -> Seq<char>;

/// `percent_encoding::percent_decode_str` followed by `decode_utf8_lossy`;
/// what it gives for malformed escapes and invalid UTF-8 is named, not
/// stated.
#[verifier::external_body]
fn percent_decode_text(value: &str) -> (r: String)
    ensures
        r@ == percent_decoded(value@),
{
    percent_encoding::percent_decode_str(value).decode_utf8_lossy().to_string()
}

/// A form name or value: `+` read as a space, then percent-decoded.
pub open spec fn form_decoded(value: Seq<char>) -> Seq<char> {
    percent_decoded(replace(value, "+"@, " "@))
}

pub fn decode_form_value(value: &str) -> (r: String)
    ensures
        r@ == form_decoded(value@),
{
    proof {
        reveal_strlit("+");
    }
    let spaced = replace_str(&chars_of(value), "+", " ");
    percent_decode_text(string_of(&spaced).as_str())
}

/// The name-value pairs of a form body in order: each `&`-separated part
/// that holds a `=`, split at its first `=`, both sides decoded.
pub open spec fn form_pairs(parts: Seq<Seq<char>>) -> Seq<(Seq<char>, Seq<char>)>
    decreases parts.len(),
{
    if parts.len() == 0 {
        Seq::empty()
    } else {
        let prev = form_pairs(parts.drop_last());
        match split_once(parts.last(), "="@) {
            Some((k, v)) => prev.push((form_decoded(k), form_decoded(v))),
            None => prev,
        }
    }
}

/// The fields of a form body as a map: a name given twice keeps its last
/// value; names in ascending order.
pub fn parse_form_urlencoded(body: &str) -> (r: Vec<(String, String)>)
    ensures
        keys_sorted(pair_views(r@)),
        forall|k: Seq<char>|
            #[trigger] lookup(pair_views(r@), k) == last_value(
                form_pairs(split_at_char(body@, '&')),
                k,
            ),
{
    let parts = split_char(&chars_of(body), '&');
    let ghost ps = views(parts@);
    let mut out: Vec<(String, String)> = Vec::new();
    let mut i: usize = 0;
    assert forall|k: Seq<char>| #[trigger] lookup(pair_views(out@), k) == last_value(
        form_pairs(ps.take(0)),
        k,
    ) by {
        assert(ps.take(0) =~= Seq::<Seq<char>>::empty());
        assert(pair_views(out@) =~= Seq::<(Seq<char>, Seq<char>)>::empty());
    }
    while i < parts.len()
        invariant
            0 <= i <= parts.len(),
            ps == views(parts@),
            ps == split_at_char(body@, '&'),
            keys_sorted(pair_views(out@)),
            forall|k: Seq<char>|
                #[trigger] lookup(pair_views(out@), k) == last_value(form_pairs(ps.take(i as int)), k),
        decreases parts.len() - i,
    {
        assert(ps.take(i + 1).drop_last() =~= ps.take(i as int));
        assert(ps.take(i + 1).last() == parts@[i as int]@);
        proof {
            reveal_strlit("=");
        }
        match split_once_str(&parts[i], "=") {
            Some((k, v)) => {
                let key = decode_form_value(string_of(&k).as_str());
                let value = decode_form_value(string_of(&v).as_str());
                let ghost before = pair_views(out@);
                let ghost kk = key@;
                let ghost vv = value@;
                map_insert(&mut out, key, value);
                assert forall|q: Seq<char>| #[trigger] lookup(pair_views(out@), q) == last_value(
                    form_pairs(ps.take(i + 1)),
                    q,
                ) by {
                    let fp = form_pairs(ps.take(i + 1));
                    assert(fp == form_pairs(ps.take(i as int)).push((kk, vv)));
                    assert(fp.drop_last() =~= form_pairs(ps.take(i as int)));
                }
            },
            None => {},
        }
        i += 1;
    }
    assert(ps.take(i as int) =~= ps);
    out
}

// ---------------------------------------------------------------------------
// Requests
// ---------------------------------------------------------------------------

/// The first line of a request, if any.
pub open spec fn first_line(request: Seq<char>) -> Option<Seq<char>> {
    let ls = lines(request);
    if ls.len() > 0 {
        Some(ls[0])
    } else {
        None
    }
}

/// The method and the path without query of a request line.
pub open spec fn request_line(request: Seq<char>) -> Option<(Seq<char>, Seq<char>)> {
    match first_line(request) {
        None => None,
        Some(line) => {
            let ws = words(line);
            if ws.len() < 2 {
                None
            } else {
                Some((ws[0], split_at_char(ws[1], '?')[0]))
            }
        },
    }
}

fn first_line_of(request: &Vec<char>) -> (r: Option<Vec<char>>)
    ensures
        match (r, first_line(request@)) {
            (Some(a), Some(b)) => a@ == b,
            (None, None) => true,
            _ => false,
        },
{
    let ls = split_lines(request);
    if ls.len() == 0 {
        None
    } else {
        assert(views(ls@)[0] == ls@[0]@);
        Some(crate::text::copy_chars(&ls[0]))
    }
}

/// The method and path of an HTTP request.
pub fn parse_request_line(request: &str) -> (r: Option<(String, String)>)
    ensures
        match (r, request_line(request@)) {
            (Some((m, p)), Some((sm, sp))) => m@ == sm && p@ == sp,
            (None, None) => true,
            _ => false,
        },
{
    let line = match first_line_of(&chars_of(request)) {
        Some(l) => l,
        None => {
            return None;
        },
    };
    let ws = split_words(&line);
    if ws.len() < 2 {
        return None;
    }
    assert(views(ws@)[0] == ws@[0]@);
    assert(views(ws@)[1] == ws@[1]@);
    let parts = split_char(&ws[1], '?');
    proof {
        crate::text::lemma_split_at_char_len(ws@[1]@, '?');
    }
    assert(views(parts@)[0] == parts@[0]@);
    Some((string_of(&ws[0]), string_of(&parts[0])))
}

/// The query text of a request target.
pub open spec fn request_query_text(request: Seq<char>) -> Option<Seq<char>> {
    match first_line(request) {
        None => None,
        Some(line) => {
            let ws = words(line);
            if ws.len() < 2 {
                None
            } else {
                match split_once(ws[1], "?"@) {
                    Some((_, q)) => Some(q),
                    None => None,
                }
            }
        },
    }
}

/// The query parameters of an HTTP request, as a map.
pub fn request_query(request: &str) -> (r: Vec<(String, String)>)
    ensures
        keys_sorted(pair_views(r@)),
        forall|k: Seq<char>|
            #[trigger] lookup(pair_views(r@), k) == match request_query_text(request@) {
                Some(q) => last_value(form_pairs(split_at_char(q, '&')), k),
                None => None,
            },
{
    let line = match first_line_of(&chars_of(request)) {
        Some(l) => l,
        None => {
            return Vec::new();
        },
    };
    let ws = split_words(&line);
    if ws.len() < 2 {
        return Vec::new();
    }
    assert(views(ws@)[1] == ws@[1]@);
    match split_once_str(&ws[1], "?") {
        Some((_, q)) => parse_form_urlencoded(string_of(&q).as_str()),
        None => Vec::new(),
    }
}

/// The declared body length: the first header line named
/// `content-length` (in any ASCII case) with a value that reads as a
/// number; 0 where there is none.
pub open spec fn declared_length(ls: Seq<Seq<char>>) -> nat
    decreases ls.len(),
{
    if ls.len() == 0 {
        0
    } else {
        let rest = declared_length(ls.drop_first());
        match split_once(ls[0], ":"@) {
            Some((name, value)) => if eq_ignore_ascii_case(name, "content-length"@) {
                match parse_unsigned(trim(value), usize::MAX as int) {
                    Some(n) => n as nat,
                    None => rest,
                }
            } else {
                rest
            },
            None => rest,
        }
    }
}

pub fn content_length(request: &str) -> (r: usize)
    ensures
        r as nat == declared_length(lines(request@)),
{
    let ls = split_lines(&chars_of(request));
    let ghost lv = views(ls@);
    assert(lv.skip(0) =~= lv);
    let name = chars_of("content-length");
    let mut i: usize = 0;
    while i < ls.len()
        invariant
            0 <= i <= ls.len(),
            lv == views(ls@),
            lv == lines(request@),
            name@ == "content-length"@,
            declared_length(lv) == declared_length(lv.skip(i as int)),
        decreases ls.len() - i,
    {
        assert(lv.skip(i as int)[0] == ls@[i as int]@);
        assert(lv.skip(i as int).drop_first() =~= lv.skip(i + 1));
        match split_once_str(&ls[i], ":") {
            Some((n, value)) => {
                if eq_ignore_ascii_case_chars(&n, &name) {
                    let v = trim_chars(&value);
                    match parse_unsigned_chars(&v, usize::MAX as u64) {
                        Some(x) => {
                            return x as usize;
                        },
                        None => {},
                    }
                }
            },
            None => {},
        }
        i += 1;
    }
    assert(lv.skip(i as int) =~= Seq::<Seq<char>>::empty());
    0
}

/// The body of an HTTP request: what follows the first empty line.
pub fn request_body(request: &str) -> (r: String)
    ensures
        r@ == match split_once(request@, "\r\n\r\n"@) {
            Some((_, body)) => body,
            None => Seq::empty(),
        },
{
    match split_once_str(&chars_of(request), "\r\n\r\n") {
        Some((_, body)) => string_of(&body),
        None => String::new(),
    }
}

// ---------------------------------------------------------------------------
// Pieces of pages
// ---------------------------------------------------------------------------

/// Text escaped for HTML (see `export::html::escape_html`).
pub fn escape_html(value: &str) -> (r: String)
    ensures
        r@ == escaped(value@),
{
    string_of(&escape_chars(&chars_of(value)))
}

/// Escaped text, or nothing.
pub fn escape_optional(value: Option<&str>) -> (r: String)
    ensures
        r@ == match value {
            Some(v) => escaped(v@),
            None => Seq::empty(),
        },
{
    match value {
        Some(v) => escape_html(v),
        None => String::new(),
    }
}

/// `active` for the navigation item of the current page.
pub fn active_class(active: &str, item: &str) -> (r: String)
    ensures
        r@ == if active@ == item@ {
            "active"@
        } else {
            Seq::empty()
        },
{
    if eq_chars(&chars_of(active), &chars_of(item)) {
        String::from_str("active")
    } else {
        String::new()
    }
}

/// `selected` for the option that holds the current value.
pub fn selected_attr(value: Option<&String>, expected: &str) -> (r: String)
    ensures
        r@ == match value {
            Some(v) => if v@ == expected@ {
                "selected"@
            } else {
                Seq::empty()
            },
            None => Seq::empty(),
        },
{
    match value {
        Some(v) => if eq_chars(&chars_of(v.as_str()), &chars_of(expected)) {
            String::from_str("selected")
        } else {
            String::new()
        },
        None => String::new(),
    }
}

/// `selected` for the option that holds the current value.
pub fn selected_str(value: Option<&str>, expected: &str) -> (r: &'static str)
    ensures
        r@ == match value {
            Some(v) => if v@ == expected@ {
                "selected"@
            } else {
                ""@
            },
            None => ""@,
        },
{
    match value {
        Some(v) => if eq_chars(&chars_of(v), &chars_of(expected)) {
            "selected"
        } else {
            ""
        },
        None => "",
    }
}

/// A table row saying that there is nothing to show, for rows that are
/// only white space.
pub open spec fn empty_table(rows: Seq<char>, column_count: nat) -> Seq<char> {
    if trim(rows).len() == 0 {
        "<tr><td colspan=\""@ + crate::text::decimal(column_count)
            + "\" class=\"empty\">Keine Daten vorhanden.</td></tr>"@
    } else {
        rows
    }
}

pub fn empty_rows(rows: String, column_count: usize) -> (r: String)
    ensures
        r@ == empty_table(rows@, column_count as nat),
{
    if trim_chars(&chars_of(rows.as_str())).len() == 0 {
        let mut out = chars_of("<tr><td colspan=\"");
        append_chars(&mut out, &crate::text::decimal_chars(column_count as u64));
        append_str(&mut out, "\" class=\"empty\">Keine Daten vorhanden.</td></tr>");
        string_of(&out)
    } else {
        rows
    }
}

/// `start bis end`, or the start alone while a run has not ended.
pub fn format_time_range(started_at: &str, finished_at: Option<&str>) -> (r: String)
    ensures
        r@ == match finished_at {
            Some(f) => started_at@ + " bis "@ + f@,
            None => started_at@,
        },
{
    match finished_at {
        None => String::from_str(started_at),
        Some(f) => {
            let mut out = chars_of(started_at);
            append_str(&mut out, " bis ");
            append_chars(&mut out, &chars_of(f));
            string_of(&out)
        },
    }
}

/// Parser name and version, escaped; the name alone where the version is
/// missing or empty.
pub fn parser_label(name: Option<&str>, version: Option<&str>) -> (r: String)
    ensures
        r@ == match (name, version) {
            (Some(n), Some(v)) => if v@.len() > 0 {
                escaped(n@) + " "@ + escaped(v@)
            } else {
                escaped(n@)
            },
            (Some(n), None) => escaped(n@),
            _ => Seq::empty(),
        },
{
    match (name, version) {
        (Some(n), Some(v)) => {
            let vc = chars_of(v);
            if vc.len() > 0 {
                let mut out = escape_chars(&chars_of(n));
                append_str(&mut out, " ");
                append_chars(&mut out, &escape_chars(&vc));
                string_of(&out)
            } else {
                escape_html(n)
            }
        },
        (Some(n), None) => escape_html(n),
        _ => String::new(),
    }
}

pub open spec fn entity_label(entity_type: Seq<char>) -> Seq<char> {
    if entity_type == "club"@ {
        "Verein"@
    } else if entity_type == "athlete"@ {
        "Sportler"@
    } else {
        "Unbekannt"@
    }
}

/// The German label of a correction's entity type.
pub fn entity_type_label(entity_type: &str) -> (r: &'static str)
    ensures
        r@ == entity_label(entity_type@),
{
    let e = chars_of(entity_type);
    if crate::text::eq_str(&e, "club") {
        "Verein"
    } else if crate::text::eq_str(&e, "athlete") {
        "Sportler"
    } else {
        "Unbekannt"
    }
}

pub open spec fn kind_label(kind: Seq<char>) -> Seq<char> {
    if kind == "team"@ {
        "Mannschaft"@
    } else if kind == "individual"@ {
        "Einzel"@
    } else {
        "Unbekannt"@
    }
}

/// The German label of a stored result kind.
pub fn result_kind_label(kind: &str) -> (r: &'static str)
    ensures
        r@ == kind_label(kind@),
{
    let k = chars_of(kind);
    if crate::text::eq_str(&k, "team") {
        "Mannschaft"
    } else if crate::text::eq_str(&k, "individual") {
        "Einzel"
    } else {
        "Unbekannt"
    }
}

pub fn yes_no(value: bool) -> (r: &'static str)
    ensures
        r@ == if value {
            "ja"@
        } else {
            "nein"@
        },
{
    if value {
        "ja"
    } else {
        "nein"
    }
}

/// A parsed name beside its normalized form where they differ.
pub fn issue_name_cell(raw: Option<&str>, normalized: Option<&str>) -> (r: String)
    ensures
        r@ == match (raw, normalized) {
            (Some(a), Some(b)) => if a@ != b@ {
                escaped(a@) + "<br><span class=\"muted\">"@ + escaped(b@) + "</span>"@
            } else {
                escaped(a@)
            },
            (Some(a), None) => escaped(a@),
            (None, Some(b)) => escaped(b@),
            (None, None) => Seq::empty(),
        },
{
    match (raw, normalized) {
        (Some(a), Some(b)) => {
            if !eq_chars(&chars_of(a), &chars_of(b)) {
                let mut out = escape_chars(&chars_of(a));
                append_str(&mut out, "<br><span class=\"muted\">");
                append_chars(&mut out, &escape_chars(&chars_of(b)));
                append_str(&mut out, "</span>");
                string_of(&out)
            } else {
                escape_html(a)
            }
        },
        (Some(a), None) => escape_html(a),
        (None, Some(b)) => escape_html(b),
        (None, None) => String::new(),
    }
}

/// A link to the PDF of a source, where there is a URL.
pub fn source_link(source_url: Option<&str>) -> (r: String)
    ensures
        r@ == match source_url {
            Some(u) => if u@.len() > 0 {
                "<a href=\""@ + escaped(u@) + "\">PDF</a>"@
            } else {
                Seq::empty()
            },
            None => Seq::empty(),
        },
{
    match source_url {
        Some(u) => {
            let uc = chars_of(u);
            if uc.len() > 0 {
                let mut out = chars_of("<a href=\"");
                append_chars(&mut out, &escape_chars(&uc));
                append_str(&mut out, "\">PDF</a>");
                string_of(&out)
            } else {
                String::new()
            }
        },
        None => String::new(),
    }
}

/// A link to the page of a stored source, else to its PDF.
pub fn source_detail_link(source_document_id: Option<i64>, source_url: Option<&str>) -> (r: String)
    ensures
        r@ == match source_document_id {
            Some(id) => "<a href=\"/sources/"@ + crate::text::signed_decimal(id as int)
                + "\">PDF</a>"@,
            None => match source_url {
                Some(u) => if u@.len() > 0 {
                    "<a href=\""@ + escaped(u@) + "\">PDF</a>"@
                } else {
                    Seq::empty()
                },
                None => Seq::empty(),
            },
        },
{
    match source_document_id {
        Some(id) => {
            let mut out = chars_of("<a href=\"/sources/");
            append_chars(&mut out, &crate::text::signed_decimal_chars(id));
            append_str(&mut out, "\">PDF</a>");
            string_of(&out)
        },
        None => source_link(source_url),
    }
}

/// A link to a detail page where there is an id and a label, else the
/// escaped label.
pub fn detail_link(base_path: &str, id: Option<i64>, label: Option<&str>) -> (r: String)
    ensures
        r@ == match (id, label) {
            (Some(i), Some(l)) => if l@.len() > 0 {
                "<a href=\""@ + base_path@ + "/"@ + crate::text::signed_decimal(i as int) + "\">"@
                    + escaped(l@) + "</a>"@
            } else {
                escaped(l@)
            },
            (None, Some(l)) => escaped(l@),
            _ => Seq::empty(),
        },
{
    match (id, label) {
        (Some(i), Some(l)) => {
            let lc = chars_of(l);
            if lc.len() > 0 {
                let mut out = chars_of("<a href=\"");
                append_chars(&mut out, &chars_of(base_path));
                append_str(&mut out, "/");
                append_chars(&mut out, &crate::text::signed_decimal_chars(i));
                append_str(&mut out, "\">");
                append_chars(&mut out, &escape_chars(&lc));
                append_str(&mut out, "</a>");
                string_of(&out)
            } else {
                escape_html(l)
            }
        },
        (None, Some(l)) => escape_html(l),
        _ => String::new(),
    }
}

/// One byte in a URL: ASCII letters and digits as they are, any other byte
/// as `%` and two uppercase hexadecimal digits.
pub open spec fn percent_byte(b: u8) -> Seq<char> {
    if (48 <= b <= 57) || (65 <= b <= 90) || (97 <= b <= 122) {
        seq![b as char]
    } else {
        seq!['%', crate::text::hex_upper(b as int / 16), crate::text::hex_upper(b as int % 16)]
    }
}

pub open spec fn percent_encoded(bytes: Seq<u8>) -> Seq<char>
    decreases bytes.len(),
{
    if bytes.len() == 0 {
        Seq::empty()
    } else {
        percent_encoded(bytes.drop_last()) + percent_byte(bytes.last())
    }
}

/// `percent_encoding::utf8_percent_encode` with `NON_ALPHANUMERIC`: the
/// UTF-8 bytes of the text, each ASCII letter or digit kept and every other
/// byte written `%XX`.
#[verifier::external_body]
pub(crate) fn url_encode(value: &str) -> (r: String)
    ensures
        r@ == percent_encoded(vstd::utf8::encode_utf8(value@)),
{
    percent_encoding::utf8_percent_encode(value, percent_encoding::NON_ALPHANUMERIC).to_string()
}

/// A link that opens the correction form for a value.
pub fn prefill_link(entity_type: &str, old_value: &str) -> (r: String)
    ensures
        r@ == "<a href=\"/corrections?entity_type="@ + escaped(entity_type@) + "&old_value="@
            + percent_encoded(vstd::utf8::encode_utf8(old_value@)) + "\">Korrigieren</a>"@,
{
    let mut out = chars_of("<a href=\"/corrections?entity_type=");
    append_chars(&mut out, &escape_chars(&chars_of(entity_type)));
    append_str(&mut out, "&old_value=");
    append_chars(&mut out, &chars_of(url_encode(old_value).as_str()));
    append_str(&mut out, "\">Korrigieren</a>");
    string_of(&out)
}

// ---------------------------------------------------------------------------
// Paging
// ---------------------------------------------------------------------------

/// The page sizes offered.
pub open spec fn is_page_size_option(n: int) -> bool {
    n == 50 || n == 100 || n == 250 || n == 500 || n == 1000
}

/// The page shown and how many rows a page holds.
#[derive(Debug, Clone, Copy)]
pub struct PageState {
    pub page: usize,
    pub page_size: usize,
}

/// The trimmed value of a query parameter, where it is not empty.
pub open spec fn query_text(query: Seq<(Seq<char>, Seq<char>)>, key: Seq<char>) -> Option<Seq<char>> {
    match lookup(query, key) {
        Some(v) => if trim(v).len() > 0 {
            Some(trim(v))
        } else {
            None
        },
        None => None,
    }
}

pub fn non_empty_query(query: &Vec<(String, String)>, key: &str) -> (r: Option<String>)
    ensures
        match (r, query_text(pair_views(query@), key@)) {
            (Some(a), Some(b)) => a@ == b,
            (None, None) => true,
            _ => false,
        },
{
    let k = chars_of(key);
    let ghost qv = pair_views(query@);
    assert(qv.skip(0) =~= qv);
    let mut i: usize = 0;
    while i < query.len()
        invariant
            0 <= i <= query.len(),
            qv == pair_views(query@),
            k@ == key@,
            lookup(qv, key@) == lookup(qv.skip(i as int), key@),
        decreases query.len() - i,
    {
        assert(qv.skip(i as int)[0] == (query@[i as int].0@, query@[i as int].1@));
        assert(qv.skip(i as int).drop_first() =~= qv.skip(i + 1));
        if eq_chars(&chars_of(query[i].0.as_str()), &k) {
            let v = trim_chars(&chars_of(query[i].1.as_str()));
            if v.len() > 0 {
                return Some(string_of(&v));
            }
            return None;
        }
        i += 1;
    }
    None
}

/// A query parameter read as a `usize`.
pub fn query_usize(query: &Vec<(String, String)>, key: &str) -> (r: Option<usize>)
    ensures
        r == match query_text(pair_views(query@), key@) {
            Some(t) => match parse_unsigned(t, usize::MAX as int) {
                Some(n) => Some(n as usize),
                None => None,
            },
            None => None::<usize>,
        },
{
    match non_empty_query(query, key) {
        Some(t) => match parse_unsigned_chars(&chars_of(t.as_str()), usize::MAX as u64) {
            Some(n) => Some(n as usize),
            None => None,
        },
        None => None,
    }
}

/// The page and page size a query asks for: page 1 and 100 rows where the
/// query names no page above 0 or no offered size.
pub open spec fn page_of(query: Seq<(Seq<char>, Seq<char>)>) -> (usize, usize) {
    let page = match query_text(query, "page"@) {
        Some(t) => match parse_unsigned(t, usize::MAX as int) {
            Some(n) => if n > 0 {
                n as usize
            } else {
                1usize
            },
            None => 1usize,
        },
        None => 1usize,
    };
    let size = match query_text(query, "page_size"@) {
        Some(t) => match parse_unsigned(t, usize::MAX as int) {
            Some(n) => if is_page_size_option(n) {
                n as usize
            } else {
                100usize
            },
            None => 100usize,
        },
        None => 100usize,
    };
    (page, size)
}

pub fn page_state(query: &Vec<(String, String)>) -> (r: PageState)
    ensures
        (r.page, r.page_size) == page_of(pair_views(query@)),
{
    let p = query_usize(query, "page");
    let s = query_usize(query, "page_size");
    proof {
        let qv = pair_views(query@);
        if let Some(t) = query_text(qv, "page"@) {
            crate::text::lemma_parse_unsigned_range(t, usize::MAX as int);
        }
        if let Some(t) = query_text(qv, "page_size"@) {
            crate::text::lemma_parse_unsigned_range(t, usize::MAX as int);
        }
    }
    let page = match p {
        Some(n) => if n > 0 {
            n
        } else {
            1
        },
        None => 1,
    };
    let page_size = match s {
        Some(n) => if n == 50 || n == 100 || n == 250 || n == 500 || n == 1000 {
            n
        } else {
            100
        },
        None => 100,
    };
    PageState { page, page_size }
}

/// One row more than a page holds, to learn whether there is a next page.
pub fn page_fetch_limit(page: PageState) -> (r: i64)
    ensures
        r == if page.page_size as int + 1 <= i64::MAX {
            (page.page_size + 1) as i64
        } else {
            1001i64
        },
{
    let limit: u128 = page.page_size as u128 + 1;
    if limit <= 0x7fff_ffff_ffff_ffffu128 {
        limit as i64
    } else {
        1001
    }
}

/// The rows before the page: `(page - 1) * page_size`, saturating.
pub fn page_offset(page: PageState) -> (r: i64)
    ensures
        r == {
            let before = if page.page >= 1 {
                (page.page - 1) as int
            } else {
                0int
            };
            let offset = if before * page.page_size <= usize::MAX {
                before * page.page_size
            } else {
                usize::MAX as int
            };
            if offset <= i64::MAX {
                offset as i64
            } else {
                i64::MAX
            }
        },
{
    let before: u128 = if page.page >= 1 {
        (page.page - 1) as u128
    } else {
        0
    };
    let size = page.page_size as u128;
    assert(before * size <= 0xffff_ffff_ffff_ffffu128 * 0xffff_ffff_ffff_ffffu128) by (nonlinear_arith)
        requires
            before <= 0xffff_ffff_ffff_ffffu128,
            size <= 0xffff_ffff_ffff_ffffu128,
    ;
    let product: u128 = before * size;
    let offset: u128 = if product <= usize::MAX as u128 {
        product
    } else {
        usize::MAX as u128
    };
    if offset <= 0x7fff_ffff_ffff_ffffu128 {
        offset as i64
    } else {
        i64::MAX
    }
}

/// Cuts rows to a page; whether there were more.
pub fn trim_page_rows<T>(rows: &mut Vec<T>, page: PageState) -> (more: bool)
    ensures
        more == (old(rows)@.len() > page.page_size),
        final(rows)@ == if more {
            old(rows)@.take(page.page_size as int)
        } else {
            old(rows)@
        },
{
    if rows.len() > page.page_size {
        rows.truncate(page.page_size);
        true
    } else {
        false
    }
}

/// One `<option>` per offered page size, the current one selected.
pub open spec fn size_option(size: nat, selected: nat) -> Seq<char> {
    "<option value=\""@ + crate::text::decimal(size) + "\" "@ + (if size == selected {
        "selected"@
    } else {
        ""@
    }) + ">"@ + crate::text::decimal(size) + "</option>"@
}

pub open spec fn size_options(selected: nat) -> Seq<char> {
    size_option(50, selected) + size_option(100, selected) + size_option(250, selected)
        + size_option(500, selected) + size_option(1000, selected)
}

fn size_option_chars(size: u64, selected: u64) -> (r: Vec<char>)
    ensures
        r@ == size_option(size as nat, selected as nat),
{
    let mut out = chars_of("<option value=\"");
    append_chars(&mut out, &crate::text::decimal_chars(size));
    append_str(&mut out, "\" ");
    if size == selected {
        append_str(&mut out, "selected");
    } else {
        append_str(&mut out, "");
    }
    append_str(&mut out, ">");
    append_chars(&mut out, &crate::text::decimal_chars(size));
    append_str(&mut out, "</option>");
    out
}

pub fn page_size_options(selected: usize) -> (r: String)
    ensures
        r@ == size_options(selected as nat),
{
    let s = selected as u64;
    let mut out = size_option_chars(50, s);
    append_chars(&mut out, &size_option_chars(100, s));
    append_chars(&mut out, &size_option_chars(250, s));
    append_chars(&mut out, &size_option_chars(500, s));
    append_chars(&mut out, &size_option_chars(1000, s));
    string_of(&out)
}

/// One `<option>` per value, escaped, each on a line.
pub open spec fn datalist(values: Seq<Seq<char>>) -> Seq<char>
    decreases values.len(),
{
    if values.len() == 0 {
        Seq::empty()
    } else {
        datalist(values.drop_last()) + "<option value=\""@ + escaped(values.last())
            + "\"></option>\n"@
    }
}

pub fn datalist_options(values: &Vec<String>) -> (r: String)
    ensures
        r@ == datalist(crate::export::matching::strs(values@)),
{
    let ghost vs = crate::export::matching::strs(values@);
    let mut out: Vec<char> = Vec::new();
    let mut i: usize = 0;
    while i < values.len()
        invariant
            0 <= i <= values.len(),
            vs == crate::export::matching::strs(values@),
            out@ == datalist(vs.take(i as int)),
        decreases values.len() - i,
    {
        assert(vs.take(i + 1).drop_last() =~= vs.take(i as int));
        assert(vs.take(i + 1).last() == values@[i as int]@);
        append_str(&mut out, "<option value=\"");
        append_chars(&mut out, &escape_chars(&chars_of(values[i].as_str())));
        append_str(&mut out, "\"></option>\n");
        i += 1;
    }
    assert(vs.take(i as int) =~= vs);
    string_of(&out)
}

/// Query parameters that a pager carries on: all but `page` and
/// `page_size`, and none whose value is only white space.
pub open spec fn carried(entry: (Seq<char>, Seq<char>)) -> bool {
    entry.0 != "page"@ && entry.0 != "page_size"@ && trim(entry.1).len() > 0
}

pub open spec fn hidden_inputs(query: Seq<(Seq<char>, Seq<char>)>) -> Seq<char>
    decreases query.len(),
{
    if query.len() == 0 {
        "<input type=\"hidden\" name=\"page\" value=\"1\">"@
    } else {
        let prev = hidden_inputs(query.drop_last());
        let e = query.last();
        if carried(e) {
            prev + "<input type=\"hidden\" name=\""@ + escaped(e.0) + "\" value=\""@ + escaped(e.1)
                + "\">"@
        } else {
            prev
        }
    }
}

fn carried_entry(key: &String, value: &String) -> (r: bool)
    ensures
        r == carried((key@, value@)),
{
    let k = chars_of(key.as_str());
    !crate::text::eq_str(&k, "page") && !crate::text::eq_str(&k, "page_size") && trim_chars(
        &chars_of(value.as_str()),
    ).len() > 0
}

/// The hidden form fields that keep a listing's filters when the page size
/// changes.
pub fn pagination_hidden_inputs(query: &Vec<(String, String)>) -> (r: String)
    ensures
        r@ == hidden_inputs(pair_views(query@)),
{
    let ghost qv = pair_views(query@);
    let mut out = chars_of("<input type=\"hidden\" name=\"page\" value=\"1\">");
    let mut i: usize = 0;
    assert(qv.take(0) =~= Seq::<(Seq<char>, Seq<char>)>::empty());
    while i < query.len()
        invariant
            0 <= i <= query.len(),
            qv == pair_views(query@),
            out@ == hidden_inputs(qv.take(i as int)),
        decreases query.len() - i,
    {
        assert(qv.take(i + 1).drop_last() =~= qv.take(i as int));
        assert(qv.take(i + 1).last() == (query@[i as int].0@, query@[i as int].1@));
        if carried_entry(&query[i].0, &query[i].1) {
            append_str(&mut out, "<input type=\"hidden\" name=\"");
            append_chars(&mut out, &escape_chars(&chars_of(query[i].0.as_str())));
            append_str(&mut out, "\" value=\"");
            append_chars(&mut out, &escape_chars(&chars_of(query[i].1.as_str())));
            append_str(&mut out, "\">");
        }
        i += 1;
    }
    assert(qv.take(i as int) =~= qv);
    string_of(&out)
}

/// One byte of a form value: letters, digits and `*-._` kept, a space as
/// `+`, any other byte as `%XX`.
pub open spec fn form_byte(b: u8) -> Seq<char> {
    if b == 42 || b == 45 || b == 46 || b == 95 || (48 <= b <= 57) || (65 <= b <= 90) || (97 <= b
        <= 122) {
        seq![b as char]
    } else if b == 32 {
        seq!['+']
    } else {
        seq!['%', crate::text::hex_upper(b as int / 16), crate::text::hex_upper(b as int % 16)]
    }
}

pub open spec fn form_encoded(bytes: Seq<u8>) -> Seq<char>
    decreases bytes.len(),
{
    if bytes.len() == 0 {
        Seq::empty()
    } else {
        form_encoded(bytes.drop_last()) + form_byte(bytes.last())
    }
}

/// `form_urlencoded::byte_serialize` of a text's UTF-8 bytes.
#[verifier::external_body]
fn form_serialize(value: &str) -> (r: String)
    ensures
        r@ == form_encoded(vstd::utf8::encode_utf8(value@)),
{
    url::form_urlencoded::byte_serialize(value.as_bytes()).collect()
}

/// `name=value` with both sides form-encoded.
pub open spec fn form_pair(name: Seq<char>, value: Seq<char>) -> Seq<char> {
    form_encoded(vstd::utf8::encode_utf8(name)) + "="@ + form_encoded(vstd::utf8::encode_utf8(value))
}

/// The carried query parameters as form pairs, joined by `&`.
pub open spec fn carried_pairs(query: Seq<(Seq<char>, Seq<char>)>) -> Seq<Seq<char>>
    decreases query.len(),
{
    if query.len() == 0 {
        Seq::empty()
    } else {
        let prev = carried_pairs(query.drop_last());
        let e = query.last();
        if carried(e) {
            prev.push(form_pair(e.0, e.1))
        } else {
            prev
        }
    }
}

/// The link to a page of a listing: its filters, then page and size.
pub open spec fn page_link(action: Seq<char>, query: Seq<(Seq<char>, Seq<char>)>, page: nat, size: nat) -> Seq<char> {
    action + "?"@ + crate::text::join(
        carried_pairs(query) + seq![
            form_pair("page"@, crate::text::decimal(page)),
            form_pair("page_size"@, crate::text::decimal(size)),
        ],
        "&"@,
    )
}

/// A link to another page of a listing keeps its filters: every query
/// parameter other than `page` and `page_size` whose value is not blank is
/// among the link's pairs, whichever page it points to, and the link holds
/// no other pairs besides `page` and `page_size`.
pub proof fn lemma_page_link_keeps_filters(query: Seq<(Seq<char>, Seq<char>)>)
    ensures
        forall|i: int|
            0 <= i < query.len() && carried(#[trigger] query[i]) ==> carried_pairs(query).contains(
                form_pair(query[i].0, query[i].1),
            ),
        forall|p: Seq<char>|
            carried_pairs(query).contains(p) ==> exists|i: int|
                0 <= i < query.len() && carried(#[trigger] query[i]) && p == form_pair(
                    query[i].0,
                    query[i].1,
                ),
    decreases query.len(),
{
    if query.len() > 0 {
        let init = query.drop_last();
        let prev = carried_pairs(init);
        lemma_page_link_keeps_filters(init);
        assert forall|i: int|
            0 <= i < query.len() && carried(#[trigger] query[i]) implies carried_pairs(query).contains(
            form_pair(query[i].0, query[i].1),
        ) by {
            if i < query.len() - 1 {
                assert(query[i] == init[i]);
                let w = choose|w: int| 0 <= w < prev.len() && prev[w] == form_pair(init[i].0, init[i].1);
                assert(carried_pairs(query)[w] == prev[w]);
            } else {
                assert(carried_pairs(query).last() == form_pair(query[i].0, query[i].1));
            }
        }
        assert forall|p: Seq<char>| carried_pairs(query).contains(p) implies exists|i: int|
            0 <= i < query.len() && carried(#[trigger] query[i]) && p == form_pair(
                query[i].0,
                query[i].1,
            ) by {
            let w = choose|w: int| 0 <= w < carried_pairs(query).len() && carried_pairs(query)[w] == p;
            if w < prev.len() {
                assert(prev[w] == p);
                assert(prev.contains(p));
                let i = choose|i: int|
                    0 <= i < init.len() && carried(#[trigger] init[i]) && p == form_pair(
                        init[i].0,
                        init[i].1,
                    );
                assert(query[i] == init[i]);
            } else {
                let i = query.len() - 1;
                assert(carried(query[i]));
            }
        }
    }
}

/// The query entries that a page link carries, in their order.
pub open spec fn carried_entries(query: Seq<(Seq<char>, Seq<char>)>) -> Seq<(Seq<char>, Seq<char>)>
    decreases query.len(),
{
    if query.len() == 0 {
        Seq::empty()
    } else if carried(query.last()) {
        carried_entries(query.drop_last()).push(query.last())
    } else {
        carried_entries(query.drop_last())
    }
}

proof fn lemma_carried_entries(query: Seq<(Seq<char>, Seq<char>)>)
    ensures
        carried_pairs(query) == carried_entries(query).map_values(
            |e: (Seq<char>, Seq<char>)| form_pair(e.0, e.1),
        ),
        forall|i: int|
            0 <= i < carried_entries(query).len() ==> carried(#[trigger] carried_entries(query)[i])
                && query.contains(carried_entries(query)[i]),
        keys_sorted(query) ==> keys_sorted(carried_entries(query)),
        keys_sorted(query) ==> forall|i: int| 0 <= i < carried_entries(query).len() ==>
            exists|j: int| 0 <= j < query.len() && query[j] == #[trigger] carried_entries(query)[i],
    decreases query.len(),
{
    if query.len() > 0 {
        let init = query.drop_last();
        lemma_carried_entries(init);
        let ci = carried_entries(init);
        let c = carried_entries(query);
        let f = |e: (Seq<char>, Seq<char>)| form_pair(e.0, e.1);
        if carried(query.last()) {
            assert(c.map_values(f) =~= ci.map_values(f).push(f(query.last())));
        }
        assert forall|i: int| 0 <= i < c.len() implies carried(#[trigger] c[i]) && query.contains(c[i]) by {
            if i < ci.len() {
                assert(c[i] == ci[i]);
                let j = choose|j: int| 0 <= j < init.len() && init[j] == ci[i];
                assert(query[j] == init[j]);
            } else {
                assert(c[i] == query[query.len() - 1]);
            }
        }
        if keys_sorted(query) {
            assert(keys_sorted(init)) by {
                assert forall|i: int, j: int| 0 <= i < j < init.len() implies lex_lt(
                    #[trigger] init[i].0,
                    #[trigger] init[j].0,
                ) by {
                    assert(init[i] == query[i] && init[j] == query[j]);
                }
            }
            assert forall|i: int, j: int| 0 <= i < j < c.len() implies lex_lt(
                #[trigger] c[i].0,
                #[trigger] c[j].0,
            ) by {
                if j < ci.len() {
                    assert(c[i] == ci[i] && c[j] == ci[j]);
                } else {
                    assert(c[i] == ci[i]);
                    let k = choose|k: int| 0 <= k < init.len() && init[k] == ci[i];
                    assert(query[k] == init[k]);
                    assert(c[j] == query[query.len() - 1]);
                    assert(lex_lt(query[k].0, query[query.len() - 1].0));
                }
            }
        }
    }
}

/// The link to another page of a key-sorted query (as parsed from a
/// request) is the action, `?`, then the form-encoded pairs of the query's
/// entries other than `page` and `page_size` whose value is not blank, in
/// ascending key order, then `page` and `page_size`, joined by `&`.
pub proof fn lemma_page_link_in_key_order(
    action: Seq<char>,
    query: Seq<(Seq<char>, Seq<char>)>,
    page: nat,
    size: nat,
)
    requires
        keys_sorted(query),
    ensures
        keys_sorted(carried_entries(query)),
        forall|i: int| 0 <= i < query.len() && carried(#[trigger] query[i]) ==> carried_entries(
            query,
        ).contains(query[i]),
        forall|i: int|
            0 <= i < carried_entries(query).len() ==> carried(#[trigger] carried_entries(query)[i])
                && query.contains(carried_entries(query)[i]),
        page_link(action, query, page, size) == action + "?"@ + crate::text::join(
            carried_entries(query).map_values(|e: (Seq<char>, Seq<char>)| form_pair(e.0, e.1))
                + seq![
                form_pair("page"@, crate::text::decimal(page)),
                form_pair("page_size"@, crate::text::decimal(size)),
            ],
            "&"@,
        ),
{
    lemma_carried_entries(query);
    lemma_carried_entries_keep(query);
}

proof fn lemma_carried_entries_keep(query: Seq<(Seq<char>, Seq<char>)>)
    ensures
        forall|i: int| 0 <= i < query.len() && carried(#[trigger] query[i]) ==> carried_entries(
            query,
        ).contains(query[i]),
    decreases query.len(),
{
    if query.len() > 0 {
        let init = query.drop_last();
        lemma_carried_entries_keep(init);
        let ci = carried_entries(init);
        let c = carried_entries(query);
        assert forall|i: int| 0 <= i < query.len() && carried(#[trigger] query[i]) implies c.contains(query[i]) by {
            if i < init.len() {
                assert(query[i] == init[i]);
                let w = choose|w: int| 0 <= w < ci.len() && ci[w] == init[i];
                assert(c[w] == ci[w]);
            } else {
                assert(c.last() == query[i]);
            }
        }
    }
}

pub(crate) fn form_pair_chars(name: &str, value: &str) -> (r: Vec<char>)
    ensures
        r@ == form_pair(name@, value@),
{
    let mut out = chars_of(form_serialize(name).as_str());
    append_str(&mut out, "=");
    append_chars(&mut out, &chars_of(form_serialize(value).as_str()));
    out
}

pub fn page_url(action: &str, query: &Vec<(String, String)>, page: usize, page_size: usize) -> (r:
    String)
    requires
        keys_sorted(pair_views(query@)),
    ensures
        r@ == page_link(action@, pair_views(query@), page as nat, page_size as nat),
{
    let ghost qv = pair_views(query@);
    let mut parts: Vec<Vec<char>> = Vec::new();
    let mut i: usize = 0;
    assert(qv.take(0) =~= Seq::<(Seq<char>, Seq<char>)>::empty());
    while i < query.len()
        invariant
            0 <= i <= query.len(),
            qv == pair_views(query@),
            views(parts@) == carried_pairs(qv.take(i as int)),
        decreases query.len() - i,
    {
        assert(qv.take(i + 1).drop_last() =~= qv.take(i as int));
        assert(qv.take(i + 1).last() == (query@[i as int].0@, query@[i as int].1@));
        if carried_entry(&query[i].0, &query[i].1) {
            let ghost before = views(parts@);
            parts.push(form_pair_chars(query[i].0.as_str(), query[i].1.as_str()));
            assert(views(parts@) =~= before.push(form_pair(query@[i as int].0@, query@[i as int].1@)));
        }
        i += 1;
    }
    assert(qv.take(i as int) =~= qv);
    let ghost carried_views = views(parts@);
    let page_text = string_of(&crate::text::decimal_chars(page as u64));
    let size_text = string_of(&crate::text::decimal_chars(page_size as u64));
    parts.push(form_pair_chars("page", page_text.as_str()));
    parts.push(form_pair_chars("page_size", size_text.as_str()));
    assert(views(parts@) =~= carried_views + seq![
        form_pair("page"@, crate::text::decimal(page as nat)),
        form_pair("page_size"@, crate::text::decimal(page_size as nat)),
    ]);
    let mut out = chars_of(action);
    append_str(&mut out, "?");
    append_chars(&mut out, &crate::text::join_chars(&parts, &chars_of("&")));
    string_of(&out)
}

/// `usize` arithmetic that stops at the ends of its range.
pub open spec fn sat_sub(a: int, b: int) -> int {
    if a >= b {
        a - b
    } else {
        0
    }
}

pub open spec fn sat_cap(a: int) -> int {
    if a <= usize::MAX {
        a
    } else {
        usize::MAX as int
    }
}

/// The numbers of the first and last row shown on a page.
pub open spec fn shown_rows(page: PageState, item_count: int) -> (int, int) {
    let first = if item_count == 0 {
        0
    } else {
        sat_cap(sat_cap(sat_sub(page.page as int, 1) * page.page_size) + 1)
    };
    (first, sat_cap(first + sat_sub(item_count, 1)))
}

/// The pager below a listing: links to the previous and next page where
/// there are such, the rows shown, and a form to change the page size that
/// keeps the filters.
pub open spec fn pager(
    action: Seq<char>,
    query: Seq<(Seq<char>, Seq<char>)>,
    page: PageState,
    item_count: int,
    has_next: bool,
) -> Seq<char> {
    let (first, last) = shown_rows(page, item_count);
    let previous = if page.page > 1 {
        "<a href=\""@ + page_link(action, query, (page.page - 1) as nat, page.page_size as nat)
            + "\">Zurueck</a>"@
    } else {
        "<span class=\"muted\">Zurueck</span>"@
    };
    let next = if has_next {
        "<a href=\""@ + page_link(action, query, (page.page + 1) as nat, page.page_size as nat)
            + "\">Weiter</a>"@
    } else {
        "<span class=\"muted\">Weiter</span>"@
    };
    "<div class=\"pager\">\n  <div>"@ + previous + " <span>Seite "@ + crate::text::decimal(
        page.page as nat,
    ) + ", Eintraege "@ + crate::text::decimal(first as nat) + "-"@ + crate::text::decimal(
        last as nat,
    ) + "</span> "@ + next + "</div>\n  <form method=\"get\" action=\""@ + action
        + "\">\n    "@ + hidden_inputs(query)
        + "\n    <label>Seitengroesse <select name=\"page_size\" onchange=\"this.form.submit()\">"@
        + size_options(page.page_size as nat) + "</select></label>\n  </form>\n</div>"@
}

fn sat_sub_usize(a: usize, b: usize) -> (r: usize)
    ensures
        r as int == sat_sub(a as int, b as int),
{
    if a >= b {
        a - b
    } else {
        0
    }
}

fn sat_cap_u128(a: u128) -> (r: usize)
    ensures
        r as int == sat_cap(a as int),
{
    if a <= usize::MAX as u128 {
        a as usize
    } else {
        usize::MAX
    }
}

/// The pager of a listing page. A next page is only offered below the
/// largest page number.
pub fn pagination_controls(
    action: &str,
    query: &Vec<(String, String)>,
    page: PageState,
    item_count: usize,
    has_next: bool,
) -> (r: String)
    requires
        keys_sorted(pair_views(query@)),
        has_next ==> page.page < usize::MAX,
    ensures
        r@ == pager(action@, pair_views(query@), page, item_count as int, has_next),
{
    let before = sat_sub_usize(page.page, 1) as u128;
    let size = page.page_size as u128;
    assert(before * size <= 0xffff_ffff_ffff_ffffu128 * 0xffff_ffff_ffff_ffffu128) by (nonlinear_arith)
        requires
            before <= 0xffff_ffff_ffff_ffffu128,
            size <= 0xffff_ffff_ffff_ffffu128,
    ;
    let first: usize = if item_count == 0 {
        0
    } else {
        sat_cap_u128(sat_cap_u128(before * size) as u128 + 1)
    };
    let last = sat_cap_u128(first as u128 + sat_sub_usize(item_count, 1) as u128);
    let previous = if page.page > 1 {
        let mut p = chars_of("<a href=\"");
        append_chars(&mut p, &chars_of(page_url(action, query, page.page - 1, page.page_size).as_str()));
        append_str(&mut p, "\">Zurueck</a>");
        p
    } else {
        chars_of("<span class=\"muted\">Zurueck</span>")
    };
    let next = if has_next {
        let mut n = chars_of("<a href=\"");
        append_chars(&mut n, &chars_of(page_url(action, query, page.page + 1, page.page_size).as_str()));
        append_str(&mut n, "\">Weiter</a>");
        n
    } else {
        chars_of("<span class=\"muted\">Weiter</span>")
    };
    let mut out = chars_of("<div class=\"pager\">\n  <div>");
    append_chars(&mut out, &previous);
    append_str(&mut out, " <span>Seite ");
    append_chars(&mut out, &crate::text::decimal_chars(page.page as u64));
    append_str(&mut out, ", Eintraege ");
    append_chars(&mut out, &crate::text::decimal_chars(first as u64));
    append_str(&mut out, "-");
    append_chars(&mut out, &crate::text::decimal_chars(last as u64));
    append_str(&mut out, "</span> ");
    append_chars(&mut out, &next);
    append_str(&mut out, "</div>\n  <form method=\"get\" action=\"");
    append_chars(&mut out, &chars_of(action));
    append_str(&mut out, "\">\n    ");
    append_chars(&mut out, &chars_of(pagination_hidden_inputs(query).as_str()));
    append_str(
        &mut out,
        "\n    <label>Seitengroesse <select name=\"page_size\" onchange=\"this.form.submit()\">",
    );
    append_chars(&mut out, &chars_of(page_size_options(page.page_size).as_str()));
    append_str(&mut out, "</select></label>\n  </form>\n</div>");
    string_of(&out)
}


// ---------------------------------------------------------------------------
// Routes
// ---------------------------------------------------------------------------

/// The record a path names by its id.
#[derive(Debug, Clone, Copy, PartialEq, Eq, Structural)]
pub enum IdKind {
    Athlete,
    Club,
    Team,
    SourceDocument,
    ParserRun,
    ImportRun,
    ClubAlias,
    ManualOverride,
}

/// The page a `GET` request asks for.
#[derive(Debug, Clone, Copy, PartialEq, Eq, Structural)]
pub enum GetRoute {
    RedirectToImportRuns,
    ImportRuns,
    Results,
    Athletes,
    Clubs,
    Teams,
    Sources,
    ParserRuns,
    Combined,
    ClubAliases,
    Corrections,
    ParserIssues,
    Honors,
    AthleteDetail(i64),
    ClubDetail(i64),
    TeamDetail(i64),
    SourceDetail(i64),
    ParserRunDetail(i64),
    ImportRunResults(i64),
    InvalidId(IdKind),
    NotFound,
}

/// What a `POST` request asks for.
#[derive(Debug, Clone, Copy, PartialEq, Eq, Structural)]
pub enum PostRoute {
    CreateManualOverride,
    CreateClubAlias,
    DeactivateClubAlias(i64),
    RevokeManualOverride(i64),
    InvalidId(IdKind),
    NotFound,
}

/// The id after a prefix: the path with every leading repetition of the
/// prefix removed, read as an `i64`.
pub open spec fn id_after(path: Seq<char>, prefix: Seq<char>) -> Option<i64> {
    parse_i64(strip_prefixes(path, prefix))
}

/// The id between a prefix and a suffix.
pub open spec fn id_between(path: Seq<char>, prefix: Seq<char>, suffix: Seq<char>) -> Option<i64> {
    parse_i64(strip_suffixes(strip_prefixes(path, prefix), suffix))
}

pub open spec fn detail(id: Option<i64>, kind: IdKind, route: spec_fn(i64) -> GetRoute) -> GetRoute {
    match id {
        Some(i) => route(i),
        None => GetRoute::InvalidId(kind),
    }
}

/// The page of a `GET` path.
pub open spec fn get_route_of(path: Seq<char>) -> GetRoute {
    if path == "/"@ {
        GetRoute::RedirectToImportRuns
    } else if path == "/import-runs"@ {
        GetRoute::ImportRuns
    } else if path == "/results"@ {
        GetRoute::Results
    } else if path == "/athletes"@ {
        GetRoute::Athletes
    } else if path == "/clubs"@ {
        GetRoute::Clubs
    } else if path == "/teams"@ {
        GetRoute::Teams
    } else if path == "/sources"@ {
        GetRoute::Sources
    } else if path == "/parser-runs"@ {
        GetRoute::ParserRuns
    } else if path == "/combined"@ {
        GetRoute::Combined
    } else if path == "/club-aliases"@ {
        GetRoute::ClubAliases
    } else if path == "/corrections"@ {
        GetRoute::Corrections
    } else if path == "/corrections/issues"@ {
        GetRoute::ParserIssues
    } else if path == "/honors"@ {
        GetRoute::Honors
    } else if starts_with(path, "/athletes/"@) {
        detail(id_after(path, "/athletes/"@), IdKind::Athlete, |i: i64| GetRoute::AthleteDetail(i))
    } else if starts_with(path, "/clubs/"@) {
        detail(id_after(path, "/clubs/"@), IdKind::Club, |i: i64| GetRoute::ClubDetail(i))
    } else if starts_with(path, "/teams/"@) {
        detail(id_after(path, "/teams/"@), IdKind::Team, |i: i64| GetRoute::TeamDetail(i))
    } else if starts_with(path, "/sources/"@) {
        detail(
            id_after(path, "/sources/"@),
            IdKind::SourceDocument,
            |i: i64| GetRoute::SourceDetail(i),
        )
    } else if starts_with(path, "/parser-runs/"@) {
        detail(
            id_after(path, "/parser-runs/"@),
            IdKind::ParserRun,
            |i: i64| GetRoute::ParserRunDetail(i),
        )
    } else if starts_with(path, "/import-runs/"@) && ends_with(path, "/results"@) {
        detail(
            id_between(path, "/import-runs/"@, "/results"@),
            IdKind::ImportRun,
            |i: i64| GetRoute::ImportRunResults(i),
        )
    } else {
        GetRoute::NotFound
    }
}

fn id_after_chars(path: &Vec<char>, prefix: &str) -> (r: Option<i64>)
    ensures
        r == id_after(path@, prefix@),
{
    parse_i64_chars(&strip_prefixes_chars(path, &chars_of(prefix)))
}

fn id_between_chars(path: &Vec<char>, prefix: &str, suffix: &str) -> (r: Option<i64>)
    ensures
        r == id_between(path@, prefix@, suffix@),
{
    parse_i64_chars(&strip_suffixes_chars(&strip_prefixes_chars(path, &chars_of(prefix)), &chars_of(suffix)))
}

/// Which page a `GET` request for a path shows; an id that does not read
/// as a number is an error of its kind.
pub fn get_route(path: &str) -> (r: GetRoute)
    ensures
        r == get_route_of(path@),
{
    let p = chars_of(path);
    if eq_str(&p, "/") {
        GetRoute::RedirectToImportRuns
    } else if eq_str(&p, "/import-runs") {
        GetRoute::ImportRuns
    } else if eq_str(&p, "/results") {
        GetRoute::Results
    } else if eq_str(&p, "/athletes") {
        GetRoute::Athletes
    } else if eq_str(&p, "/clubs") {
        GetRoute::Clubs
    } else if eq_str(&p, "/teams") {
        GetRoute::Teams
    } else if eq_str(&p, "/sources") {
        GetRoute::Sources
    } else if eq_str(&p, "/parser-runs") {
        GetRoute::ParserRuns
    } else if eq_str(&p, "/combined") {
        GetRoute::Combined
    } else if eq_str(&p, "/club-aliases") {
        GetRoute::ClubAliases
    } else if eq_str(&p, "/corrections") {
        GetRoute::Corrections
    } else if eq_str(&p, "/corrections/issues") {
        GetRoute::ParserIssues
    } else if eq_str(&p, "/honors") {
        GetRoute::Honors
    } else if starts_with_str(&p, "/athletes/") {
        match id_after_chars(&p, "/athletes/") {
            Some(i) => GetRoute::AthleteDetail(i),
            None => GetRoute::InvalidId(IdKind::Athlete),
        }
    } else if starts_with_str(&p, "/clubs/") {
        match id_after_chars(&p, "/clubs/") {
            Some(i) => GetRoute::ClubDetail(i),
            None => GetRoute::InvalidId(IdKind::Club),
        }
    } else if starts_with_str(&p, "/teams/") {
        match id_after_chars(&p, "/teams/") {
            Some(i) => GetRoute::TeamDetail(i),
            None => GetRoute::InvalidId(IdKind::Team),
        }
    } else if starts_with_str(&p, "/sources/") {
        match id_after_chars(&p, "/sources/") {
            Some(i) => GetRoute::SourceDetail(i),
            None => GetRoute::InvalidId(IdKind::SourceDocument),
        }
    } else if starts_with_str(&p, "/parser-runs/") {
        match id_after_chars(&p, "/parser-runs/") {
            Some(i) => GetRoute::ParserRunDetail(i),
            None => GetRoute::InvalidId(IdKind::ParserRun),
        }
    } else if starts_with_str(&p, "/import-runs/") && ends_with_str(&p, "/results") {
        match id_between_chars(&p, "/import-runs/", "/results") {
            Some(i) => GetRoute::ImportRunResults(i),
            None => GetRoute::InvalidId(IdKind::ImportRun),
        }
    } else {
        GetRoute::NotFound
    }
}

/// The action of a `POST` path.
pub open spec fn post_route_of(path: Seq<char>) -> PostRoute {
    if path == "/corrections"@ {
        PostRoute::CreateManualOverride
    } else if path == "/club-aliases"@ {
        PostRoute::CreateClubAlias
    } else if starts_with(path, "/club-aliases/"@) && ends_with(path, "/deactivate"@) {
        match id_between(path, "/club-aliases/"@, "/deactivate"@) {
            Some(i) => PostRoute::DeactivateClubAlias(i),
            None => PostRoute::InvalidId(IdKind::ClubAlias),
        }
    } else if starts_with(path, "/corrections/"@) && ends_with(path, "/revoke"@) {
        match id_between(path, "/corrections/"@, "/revoke"@) {
            Some(i) => PostRoute::RevokeManualOverride(i),
            None => PostRoute::InvalidId(IdKind::ManualOverride),
        }
    } else {
        PostRoute::NotFound
    }
}

/// What a `POST` request for a path does.
pub fn post_route(path: &str) -> (r: PostRoute)
    ensures
        r == post_route_of(path@),
{
    let p = chars_of(path);
    if eq_str(&p, "/corrections") {
        PostRoute::CreateManualOverride
    } else if eq_str(&p, "/club-aliases") {
        PostRoute::CreateClubAlias
    } else if starts_with_str(&p, "/club-aliases/") && ends_with_str(&p, "/deactivate") {
        match id_between_chars(&p, "/club-aliases/", "/deactivate") {
            Some(i) => PostRoute::DeactivateClubAlias(i),
            None => PostRoute::InvalidId(IdKind::ClubAlias),
        }
    } else if starts_with_str(&p, "/corrections/") && ends_with_str(&p, "/revoke") {
        match id_between_chars(&p, "/corrections/", "/revoke") {
            Some(i) => PostRoute::RevokeManualOverride(i),
            None => PostRoute::InvalidId(IdKind::ManualOverride),
        }
    } else {
        PostRoute::NotFound
    }
}
} // verus!
