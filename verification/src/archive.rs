//! Where a crawl of one year and source is archived, and how a source is
//! named.
use vstd::prelude::*;

use crate::cli::{DEFAULT_CRAWL_HTML_REPORT, DEFAULT_CRAWL_REPORT, DEFAULT_DOWNLOAD_DIR, DEFAULT_MANUAL_REVIEW_DIR, DEFAULT_SOURCE_NAME};
use crate::text::{
    append_chars, append_str, chars_of, lower_chars, contains, contains_str, eq_chars,
    ascii_lower, is_ascii_alnum, is_ascii_alnum_char, is_ascii_upper, lowercase_of, starts_with, starts_with_str, string_of,
    trim, trim_chars,
};

verus! {

broadcast use vstd::string::group_string_axioms;

/// The source name of a crawl named after a known NDSB page.
pub open spec fn inferred_source(url: Seq<char>) -> Option<Seq<char>> {
    if contains(url, "landesmeisterschaften"@) {
        Some("landesmeisterschaften"@)
    } else if contains(url, "deutsche-meisterschaften"@) {
        Some("deutsche-meisterschaften"@)
    } else {
        None
    }
}

proof fn lemma_contains_middle(prefix: Seq<char>, w: Seq<char>, suffix: Seq<char>)
    ensures
        contains(prefix + w + suffix, w),
{
    let s = prefix + w + suffix;
    assert(s.subrange(prefix.len() as int, (prefix.len() + w.len()) as int) =~= w);
    assert(crate::text::occurs_at(s, w, prefix.len() as int));
}

/// A URL that names the state championships (`landesmeisterschaften`
/// anywhere in it) gives that source name, whatever else it holds; one that
/// names only the national championships gives `deutsche-meisterschaften`;
/// a URL that names neither gives none.
pub proof fn lemma_inferred_source_names(prefix: Seq<char>, suffix: Seq<char>, url: Seq<char>)
    ensures
        inferred_source(prefix + "landesmeisterschaften"@ + suffix) == Some("landesmeisterschaften"@),
        !contains(prefix + "deutsche-meisterschaften"@ + suffix, "landesmeisterschaften"@) ==> inferred_source(
            prefix + "deutsche-meisterschaften"@ + suffix,
        ) == Some("deutsche-meisterschaften"@),
        !contains(url, "landesmeisterschaften"@) && !contains(url, "deutsche-meisterschaften"@)
            ==> inferred_source(url) is None,
{
    lemma_contains_middle(prefix, "landesmeisterschaften"@, suffix);
    lemma_contains_middle(prefix, "deutsche-meisterschaften"@, suffix);
}

pub fn infer_source_name(url: &str) -> (r: Option<String>)
    ensures
        match (r, inferred_source(url@)) {
            (Some(a), Some(b)) => a@ == b,
            (None, None) => true,
            _ => false,
        },
{
    let u = chars_of(url);
    if contains_str(&u, "landesmeisterschaften") {
        Some(String::from_str("landesmeisterschaften"))
    } else if contains_str(&u, "deutsche-meisterschaften") {
        Some(String::from_str("deutsche-meisterschaften"))
    } else {
        None
    }
}

/// A source name given on the command line, or, for the default name, the
/// name inferred from the URL where there is one.
pub fn resolved_source_name(source_name: &str, url: &str) -> (r: String)
    ensures
        r@ == if source_name@ != DEFAULT_SOURCE_NAME@ {
            source_name@
        } else {
            match inferred_source(url@) {
                Some(s) => s,
                None => source_name@,
            }
        },
{
    if !eq_chars(&chars_of(source_name), &chars_of(DEFAULT_SOURCE_NAME)) {
        return String::from_str(source_name);
    }
    match infer_source_name(url) {
        Some(s) => s,
        None => String::from_str(source_name),
    }
}

/// The characters of a text in Unicode lower case.
pub open spec fn lowercased(s: Seq<char>) -> Seq<char>
    decreases s.len(),
{
    if s.len() == 0 {
        Seq::empty()
    } else {
        lowercased(s.drop_last()) + lower_chars(s.last())
    }
}

/// Reading lowercased characters into a slug: ASCII letters and digits are
/// kept, a run of other characters after something kept becomes one `-`.
/// The slug so far and whether it ends in such a `-`.
pub open spec fn slug_fold(s: Seq<char>) -> (Seq<char>, bool)
    decreases s.len(),
{
    if s.len() == 0 {
        (Seq::empty(), false)
    } else {
        let (slug, sep) = slug_fold(s.drop_last());
        let c = s.last();
        if is_ascii_alnum(c) {
            (slug.push(c), false)
        } else if !sep && slug.len() > 0 {
            (slug.push('-'), true)
        } else {
            (slug, sep)
        }
    }
}

/// `s` without `-` at either end.
pub open spec fn trim_dashes(s: Seq<char>) -> Seq<char>
    decreases s.len(),
{
    if s.len() > 0 && s[0] == '-' {
        trim_dashes(s.drop_first())
    } else if s.len() > 0 && s.last() == '-' {
        trim_dashes(s.drop_last())
    } else {
        s
    }
}

/// The slug of a source name for archive paths; `source` where nothing is
/// left.
pub open spec fn slug_of(value: Seq<char>) -> Seq<char> {
    let t = trim_dashes(slug_fold(lowercased(value)).0);
    if t.len() == 0 {
        "source"@
    } else {
        t
    }
}

/// The characters a slug may hold: ASCII letters and digits, and `-`.
pub open spec fn slug_chars(s: Seq<char>) -> bool {
    forall|i: int| 0 <= i < s.len() ==> is_ascii_alnum(#[trigger] s[i]) || s[i] == '-'
}

/// No two `-` follow each other.
pub open spec fn no_double_dash(s: Seq<char>) -> bool {
    forall|i: int| 0 <= i < s.len() - 1 ==> !(#[trigger] s[i] == '-' && s[i + 1] == '-')
}

pub open spec fn no_ascii_upper(s: Seq<char>) -> bool {
    forall|i: int| 0 <= i < s.len() ==> !is_ascii_upper(#[trigger] s[i])
}

pub open spec fn no_ascii_alnum(s: Seq<char>) -> bool {
    forall|i: int| 0 <= i < s.len() ==> !is_ascii_alnum(#[trigger] s[i])
}

proof fn lemma_slug_fold_shape(s: Seq<char>)
    ensures
        slug_chars(slug_fold(s).0),
        no_double_dash(slug_fold(s).0),
        slug_fold(s).0.len() > 0 ==> slug_fold(s).0[0] != '-',
        slug_fold(s).1 == (slug_fold(s).0.len() > 0 && slug_fold(s).0.last() == '-'),
        no_ascii_alnum(s) ==> slug_fold(s).0.len() == 0,
        no_ascii_upper(s) ==> no_ascii_upper(slug_fold(s).0),
    decreases s.len(),
{
    if s.len() > 0 {
        let init = s.drop_last();
        lemma_slug_fold_shape(init);
        let (slug, sep) = slug_fold(init);
        let c = s.last();
        assert(no_ascii_alnum(s) ==> no_ascii_alnum(init)) by {
            if no_ascii_alnum(s) {
                assert forall|i: int| 0 <= i < init.len() implies !is_ascii_alnum(#[trigger] init[i]) by {
                    assert(init[i] == s[i]);
                }
            }
        }
        assert(no_ascii_upper(s) ==> no_ascii_upper(init)) by {
            if no_ascii_upper(s) {
                assert forall|i: int| 0 <= i < init.len() implies !is_ascii_upper(#[trigger] init[i]) by {
                    assert(init[i] == s[i]);
                }
            }
        }
        if is_ascii_alnum(c) {
            let n = slug.push(c);
            assert forall|i: int| 0 <= i < n.len() - 1 implies !(#[trigger] n[i] == '-' && n[i + 1] == '-') by {
                if i + 1 < slug.len() {
                    assert(n[i] == slug[i] && n[i + 1] == slug[i + 1]);
                }
            }
            assert(no_ascii_upper(s) ==> !is_ascii_upper(s[s.len() - 1]));
        } else if !sep && slug.len() > 0 {
            let n = slug.push('-');
            assert forall|i: int| 0 <= i < n.len() - 1 implies !(#[trigger] n[i] == '-' && n[i + 1] == '-') by {
                if i + 1 < slug.len() {
                    assert(n[i] == slug[i] && n[i + 1] == slug[i + 1]);
                } else {
                    assert(n[i] == slug.last());
                }
            }
        }
    }
}

proof fn lemma_trim_dashes_shape(s: Seq<char>)
    ensures
        slug_chars(s) ==> slug_chars(trim_dashes(s)),
        no_double_dash(s) ==> no_double_dash(trim_dashes(s)),
        no_ascii_upper(s) ==> no_ascii_upper(trim_dashes(s)),
        trim_dashes(s).len() > 0 ==> trim_dashes(s)[0] != '-' && trim_dashes(s).last() != '-',
    decreases s.len(),
{
    if s.len() > 0 && s[0] == '-' {
        let t = s.drop_first();
        assert forall|i: int| 0 <= i < t.len() implies #[trigger] t[i] == s[i + 1] by {}
        assert(no_double_dash(s) ==> no_double_dash(t)) by {
            if no_double_dash(s) {
                assert forall|i: int| 0 <= i < t.len() - 1 implies !(#[trigger] t[i] == '-' && t[i + 1] == '-') by {
                    assert(t[i] == s[i + 1] && t[i + 1] == s[i + 2]);
                }
            }
        }
        lemma_trim_dashes_shape(t);
    } else if s.len() > 0 && s.last() == '-' {
        let t = s.drop_last();
        assert forall|i: int| 0 <= i < t.len() implies #[trigger] t[i] == s[i] by {}
        assert(no_double_dash(s) ==> no_double_dash(t)) by {
            if no_double_dash(s) {
                assert forall|i: int| 0 <= i < t.len() - 1 implies !(#[trigger] t[i] == '-' && t[i + 1] == '-') by {
                    assert(t[i] == s[i] && t[i + 1] == s[i + 1]);
                }
            }
        }
        lemma_trim_dashes_shape(t);
    }
}

/// The shape of every slug: not empty, only ASCII letters, digits and `-`,
/// no `-` at either end and no two in a row; `source` where the lowercased
/// name holds no ASCII letter or digit.
pub proof fn lemma_slug_shape(value: Seq<char>)
    ensures
        slug_of(value).len() > 0,
        slug_chars(slug_of(value)),
        no_double_dash(slug_of(value)),
        slug_of(value)[0] != '-',
        slug_of(value).last() != '-',
        no_ascii_alnum(lowercased(value)) ==> slug_of(value) == "source"@,
        no_ascii_upper(lowercased(value)) ==> no_ascii_upper(slug_of(value)),
{
    let low = lowercased(value);
    lemma_slug_fold_shape(low);
    lemma_trim_dashes_shape(slug_fold(low).0);
    let t = trim_dashes(slug_fold(low).0);
    if t.len() == 0 {
        reveal_strlit("source");
        let src = "source"@;
        assert(src.len() == 6);
        assert(src[0] == 's' && src[1] == 'o' && src[2] == 'u' && src[3] == 'r' && src[4] == 'c'
            && src[5] == 'e');
        assert(slug_chars(src));
        assert(no_double_dash(src));
        assert(no_ascii_upper(src));
    } else {
        assert(no_ascii_alnum(low) ==> t.len() == 0) by {
            if no_ascii_alnum(low) {
                assert(slug_fold(low).0 =~= Seq::<char>::empty());
                assert(trim_dashes(Seq::<char>::empty()) =~= Seq::<char>::empty());
            }
        }
    }
}

proof fn lemma_lowercased_ascii(v: Seq<char>)
    requires
        forall|i: int| 0 <= i < v.len() ==> (#[trigger] v[i] as u32) < 128,
    ensures
        no_ascii_upper(lowercased(v)),
    decreases v.len(),
{
    if v.len() > 0 {
        let init = v.drop_last();
        assert forall|i: int| 0 <= i < init.len() implies (#[trigger] init[i] as u32) < 128 by {
            assert(init[i] == v[i]);
        }
        lemma_lowercased_ascii(init);
        let c = v.last();
        assert(!is_ascii_upper(ascii_lower(c)));
        let l = lowercased(init) + lower_chars(c);
        assert forall|i: int| 0 <= i < l.len() implies !is_ascii_upper(#[trigger] l[i]) by {
            if i < lowercased(init).len() {
                assert(l[i] == lowercased(init)[i]);
            } else {
                assert(l[i] == ascii_lower(c));
            }
        }
    }
}

fn trim_dashes_chars(s: &Vec<char>) -> (r: Vec<char>)
    ensures
        r@ == trim_dashes(s@),
{
    let mut a: usize = 0;
    let mut b: usize = s.len();
    assert(s@.subrange(0, s.len() as int) =~= s@);
    while a < b && (s[a] == '-' || s[b - 1] == '-')
        invariant
            0 <= a <= b <= s.len(),
            trim_dashes(s@) == trim_dashes(s@.subrange(a as int, b as int)),
        decreases b - a,
    {
        let ghost cur = s@.subrange(a as int, b as int);
        if s[a] == '-' {
            assert(cur[0] == s@[a as int]);
            assert(cur.drop_first() =~= s@.subrange(a + 1, b as int));
            a += 1;
        } else {
            assert(cur[0] == s@[a as int]);
            assert(cur.last() == s@[b - 1]);
            assert(cur.drop_last() =~= s@.subrange(a as int, b - 1));
            b -= 1;
        }
    }
    let r = crate::text::slice_chars(s, a, b);
    proof {
        let cur = s@.subrange(a as int, b as int);
        if cur.len() > 0 {
            assert(cur[0] == s@[a as int]);
            assert(cur.last() == s@[b - 1]);
        }
    }
    r
}

/// The slug of a source name used in archive paths. It is never empty,
/// holds only ASCII letters, digits and `-`, has no `-` at either end and no
/// two in a row, is `source` where the lowercased name has no ASCII letter or
/// digit, and holds no capital letter where the name is ASCII.
pub fn archive_slug(value: &str) -> (r: String)
    ensures
        r@ == slug_of(value@),
        r@.len() > 0,
        slug_chars(r@),
        no_double_dash(r@),
        r@[0] != '-' && r@.last() != '-',
        no_ascii_alnum(lowercased(value@)) ==> r@ == "source"@,
        (forall|i: int| 0 <= i < value@.len() ==> (#[trigger] value@[i] as u32) < 128) ==> no_ascii_upper(r@),
{
    proof {
        lemma_slug_shape(value@);
    }
    let v = chars_of(value);
    let mut low: Vec<char> = Vec::new();
    let mut i: usize = 0;
    while i < v.len()
        invariant
            0 <= i <= v.len(),
            v@ == value@,
            low@ == lowercased(v@.take(i as int)),
        decreases v.len() - i,
    {
        assert(v@.take(i + 1).drop_last() =~= v@.take(i as int));
        append_chars(&mut low, &lowercase_of(v[i]));
        i += 1;
    }
    assert(v@.take(i as int) =~= v@);
    proof {
        if forall|j: int| 0 <= j < value@.len() ==> (#[trigger] value@[j] as u32) < 128 {
            lemma_lowercased_ascii(v@);
        }
        lemma_slug_shape(value@);
    }
    let mut slug: Vec<char> = Vec::new();
    let mut sep = false;
    let mut k: usize = 0;
    while k < low.len()
        invariant
            0 <= k <= low.len(),
            (slug@, sep) == slug_fold(low@.take(k as int)),
        decreases low.len() - k,
    {
        assert(low@.take(k + 1).drop_last() =~= low@.take(k as int));
        let c = low[k];
        if is_ascii_alnum_char(c) {
            slug.push(c);
            sep = false;
        } else if !sep && slug.len() > 0 {
            slug.push('-');
            sep = true;
        }
        k += 1;
    }
    assert(low@.take(k as int) =~= low@);
    let t = trim_dashes_chars(&slug);
    if t.len() == 0 {
        String::from_str("source")
    } else {
        string_of(&t)
    }
}

/// `PathBuf::push` on Unix for the parts used here: an absolute part
/// replaces the path, another is added after a `/`.
pub open spec fn pushed(base: Seq<char>, part: Seq<char>) -> Seq<char> {
    if starts_with(part, "/"@) {
        part
    } else if base.len() == 0 || base.last() == '/' {
        base + part
    } else {
        base + "/"@ + part
    }
}

fn push_part(base: &mut Vec<char>, part: &Vec<char>)
    ensures
        final(base)@ == pushed(old(base)@, part@),
{
    if starts_with_str(part, "/") {
        *base = crate::text::copy_chars(part);
    } else if base.len() == 0 || base[base.len() - 1] == '/' {
        append_chars(base, part);
    } else {
        append_str(base, "/");
        append_chars(base, part);
    }
}

/// `root/archive/year/slug/leaf`.
pub open spec fn archive_path(root: Seq<char>, year: Seq<char>, slug: Seq<char>, leaf: Seq<char>) -> Seq<char> {
    pushed(pushed(pushed(pushed(root, "archive"@), year), slug), leaf)
}

proof fn lemma_pushed_plain(base: Seq<char>, part: Seq<char>)
    requires
        base.len() > 0,
        base.last() != '/',
        part.len() > 0,
        part[0] != '/',
    ensures
        pushed(base, part) == base + "/"@ + part,
        (base + "/"@ + part).len() > 0,
        (base + "/"@ + part).last() == part.last(),
{
    reveal_strlit("/");
    assert(!starts_with(part, "/"@)) by {
        if starts_with(part, "/"@) {
            assert(part.take(1)[0] == "/"@[0]);
        }
    }
    let r = base + "/"@ + part;
    assert(r.last() == part[part.len() - 1]);
}

/// The archive path in text: a path left at its default becomes
/// `<root>/archive/<year>/<slug>/<leaf>`, one `/` between the parts, where
/// the trimmed year neither starts nor ends with `/` (a year that does
/// is joined as `PathBuf::push` joins it).
pub proof fn lemma_archive_path_text(root: Seq<char>, year: Seq<char>, source_name: Seq<char>, leaf: Seq<char>)
    requires
        root.len() > 0,
        root.last() != '/',
        year.len() > 0,
        year[0] != '/',
        year.last() != '/',
        leaf.len() > 0,
        leaf[0] != '/',
    ensures
        archive_path(root, year, slug_of(source_name), leaf) == root + "/archive/"@ + year + "/"@
            + slug_of(source_name) + "/"@ + leaf,
{
    reveal_strlit("archive");
    reveal_strlit("/archive/");
    reveal_strlit("/");
    let slug = slug_of(source_name);
    lemma_slug_shape(source_name);
    assert(slug[0] != '/') by {
        assert(is_ascii_alnum(slug[0]) || slug[0] == '-');
    }
    assert(slug.last() != '/') by {
        assert(is_ascii_alnum(slug[slug.len() - 1]) || slug[slug.len() - 1] == '-');
    }
    let a = "archive"@;
    assert(a[0] == 'a' && a.len() == 7 && a.last() == 'e');
    lemma_pushed_plain(root, a);
    let p1 = root + "/"@ + a;
    lemma_pushed_plain(p1, year);
    let p2 = p1 + "/"@ + year;
    lemma_pushed_plain(p2, slug);
    let p3 = p2 + "/"@ + slug;
    lemma_pushed_plain(p3, leaf);
    assert(root + "/archive/"@ + year + "/"@ + slug + "/"@ + leaf =~= p3 + "/"@ + leaf);
}

fn archive_path_chars(root: &str, year: &Vec<char>, slug: &Vec<char>, leaf: &str) -> (r: String)
    ensures
        r@ == archive_path(root@, year@, slug@, leaf@),
{
    let mut p = chars_of(root);
    push_part(&mut p, &chars_of("archive"));
    push_part(&mut p, year);
    push_part(&mut p, slug);
    push_part(&mut p, &chars_of(leaf));
    string_of(&p)
}

/// Whether two paths given as text are equal as `Path`s (`Path`'s `==`,
/// which compares their components).
pub uninterp spec fn same_path(a: Seq<char>, b: Seq<char>) -> bool;

/// `Path`'s `==` on two paths given as text. Equal texts are equal paths;
/// which different texts name the same path (a trailing `/`, a doubled `/`,
/// an inner `.`) is left to the name.
#[verifier::external_body]
fn paths_equal(a: &str, b: &str) -> (r: bool)
    ensures
        r == same_path(a@, b@),
        a@ == b@ ==> r,
{
    std::path::Path::new(a) == std::path::Path::new(b)
}

/// A path argument left at its default (the same path, though perhaps not
/// the same text) moves into the archive of the year and source; another
/// stays.
pub open spec fn archived(current: Seq<char>, default: Seq<char>, replacement: Seq<char>) -> Seq<char> {
    if same_path(current, default) {
        replacement
    } else {
        current
    }
}

/// Moves the crawl outputs that were left at their defaults into
/// `data/archive/<year>/<source>/` and `reports/archive/<year>/<source>/`
/// where a year is given (not only white space). Paths are compared as
/// `Path`s.
pub fn apply_crawl_archive_defaults(
    year: Option<&str>,
    source_name: &str,
    download_dir: &mut String,
    manual_review_dir: &mut String,
    report: &mut String,
    html_report: &mut String,
)
    ensures
        ({
            let y = match year {
                Some(y) => trim(y@),
                None => Seq::empty(),
            };
            let slug = slug_of(source_name@);
            if y.len() == 0 {
                &&& final(download_dir)@ == old(download_dir)@
                &&& final(manual_review_dir)@ == old(manual_review_dir)@
                &&& final(report)@ == old(report)@
                &&& final(html_report)@ == old(html_report)@
            } else {
                &&& final(download_dir)@ == archived(
                    old(download_dir)@,
                    DEFAULT_DOWNLOAD_DIR@,
                    archive_path("data"@, y, slug, "downloads"@),
                )
                &&& final(manual_review_dir)@ == archived(
                    old(manual_review_dir)@,
                    DEFAULT_MANUAL_REVIEW_DIR@,
                    archive_path("data"@, y, slug, "manual-review"@),
                )
                &&& final(report)@ == archived(
                    old(report)@,
                    DEFAULT_CRAWL_REPORT@,
                    archive_path("reports"@, y, slug, "crawl-report.json"@),
                )
                &&& final(html_report)@ == archived(
                    old(html_report)@,
                    DEFAULT_CRAWL_HTML_REPORT@,
                    archive_path("reports"@, y, slug, "crawl-report.html"@),
                )
            }
        }),
{
    let y = match year {
        Some(y) => trim_chars(&chars_of(y)),
        None => Vec::new(),
    };
    if y.len() == 0 {
        return;
    }
    let slug = chars_of(archive_slug(source_name).as_str());
    if paths_equal(download_dir.as_str(), DEFAULT_DOWNLOAD_DIR) {
        *download_dir = archive_path_chars("data", &y, &slug, "downloads");
    }
    if paths_equal(manual_review_dir.as_str(), DEFAULT_MANUAL_REVIEW_DIR) {
        *manual_review_dir = archive_path_chars("data", &y, &slug, "manual-review");
    }
    if paths_equal(report.as_str(), DEFAULT_CRAWL_REPORT) {
        *report = archive_path_chars("reports", &y, &slug, "crawl-report.json");
    }
    if paths_equal(html_report.as_str(), DEFAULT_CRAWL_HTML_REPORT) {
        *html_report = archive_path_chars("reports", &y, &slug, "crawl-report.html");
    }
}

} // verus!
