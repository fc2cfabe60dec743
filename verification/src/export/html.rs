//! HTML pieces of the export reports.
use vstd::prelude::*;

use crate::export::matching::{chars_of_all, strs};
use crate::text::{append_chars, append_str, chars_of, decimal, decimal_chars, is_control_char, is_ctrl, join, join_chars, string_of, views};

use crate::export::models::{ManualReviewPdf, PodiumResultKind};
use crate::ingest::models::{PdfClassification, PdfReportItem};

verus! {

broadcast use vstd::string::group_string_axioms;

/// The HTML text of one character: the five markup characters as entities,
/// control characters as a space, any other character itself.
pub open spec fn escaped_char(c: char) -> Seq<char> {
    if c == '&' {
        "&amp;"@
    } else if c == '<' {
        "&lt;"@
    } else if c == '>' {
        "&gt;"@
    } else if c == '"' {
        "&quot;"@
    } else if c == '\'' {
        "&#39;"@
    } else if is_ctrl(c) {
        seq![' ']
    } else {
        seq![c]
    }
}

/// A text escaped for HTML, character by character.
pub open spec fn escaped(s: Seq<char>) -> Seq<char>
    decreases s.len(),
{
    if s.len() == 0 {
        Seq::empty()
    } else {
        escaped(s.drop_last()) + escaped_char(s.last())
    }
}

/// Characters that escaped text never holds.
pub open spec fn markup_or_control(c: char) -> bool {
    c == '<' || c == '>' || c == '"' || c == '\'' || is_ctrl(c)
}

pub fn escape_chars(value: &Vec<char>) -> (r: Vec<char>)
    ensures
        r@ == escaped(value@),
{
    let mut out: Vec<char> = Vec::new();
    let mut i: usize = 0;
    while i < value.len()
        invariant
            0 <= i <= value.len(),
            out@ == escaped(value@.take(i as int)),
        decreases value.len() - i,
    {
        let c = value[i];
        assert(value@.take(i + 1).drop_last() =~= value@.take(i as int));
        assert(value@.take(i + 1).last() == c);
        if c == '&' {
            append_str(&mut out, "&amp;");
        } else if c == '<' {
            append_str(&mut out, "&lt;");
        } else if c == '>' {
            append_str(&mut out, "&gt;");
        } else if c == '"' {
            append_str(&mut out, "&quot;");
        } else if c == '\'' {
            append_str(&mut out, "&#39;");
        } else if is_control_char(c) {
            out.push(' ');
            assert(out@ =~= escaped(value@.take(i as int)) + seq![' ']);
        } else {
            out.push(c);
            assert(out@ =~= escaped(value@.take(i as int)) + seq![c]);
        }
        i += 1;
    }
    assert(value@.take(i as int) =~= value@);
    out
}

/// Text escaped for HTML: `&`, `<`, `>`, `"` and `'` as entities, control
/// characters as spaces.
pub fn escape_html(value: &str) -> (r: String)
    ensures
        r@ == escaped(value@),
{
    let v = chars_of(value);
    string_of(&escape_chars(&v))
}

/// Escaped text holds no markup character and no control character: what
/// `escape_html` gives back can stand in any text or attribute of a page.
pub proof fn lemma_escaped_is_inert(s: Seq<char>)
    ensures
        forall|i: int| 0 <= i < escaped(s).len() ==> !markup_or_control(#[trigger] escaped(s)[i]),
    decreases s.len(),
{
    reveal_strlit("&amp;");
    reveal_strlit("&lt;");
    reveal_strlit("&gt;");
    reveal_strlit("&quot;");
    reveal_strlit("&#39;");
    if s.len() > 0 {
        lemma_escaped_is_inert(s.drop_last());
        let p = escaped(s.drop_last());
        let e = escaped_char(s.last());
        assert forall|i: int| 0 <= i < escaped(s).len() implies !markup_or_control(
            #[trigger] escaped(s)[i],
        ) by {
            if i < p.len() {
                assert(escaped(s)[i] == p[i]);
            } else {
                assert(escaped(s)[i] == e[i - p.len()]);
            }
        }
    }
}

/// Text without markup or control characters escapes to itself but for `&`.
pub proof fn lemma_escape_keeps_plain_text(s: Seq<char>)
    requires
        forall|i: int| 0 <= i < s.len() ==> !markup_or_control(#[trigger] s[i]) && s[i] != '&',
    ensures
        escaped(s) == s,
    decreases s.len(),
{
    if s.len() > 0 {
        lemma_escape_keeps_plain_text(s.drop_last());
        assert(s.drop_last().push(s.last()) =~= s);
    }
}

/// `<a href="..."><code>...</code></a>` with both parts escaped.
pub open spec fn link(href: Seq<char>, label: Seq<char>) -> Seq<char> {
    "<a href=\""@ + escaped(href) + "\"><code>"@ + escaped(label) + "</code></a>"@
}

pub fn link_chars(href: &Vec<char>, label: &Vec<char>) -> (r: Vec<char>)
    ensures
        r@ == link(href@, label@),
{
    let mut out = chars_of("<a href=\"");
    append_chars(&mut out, &escape_chars(href));
    append_str(&mut out, "\"><code>");
    append_chars(&mut out, &escape_chars(label));
    append_str(&mut out, "</code></a>");
    out
}

/// A link whose text is set in code type.
pub fn link_html(href: &str, label: &str) -> (r: String)
    ensures
        r@ == link(href@, label@),
{
    string_of(&link_chars(&chars_of(href), &chars_of(label)))
}

pub open spec fn kind_label(kind: PodiumResultKind) -> Seq<char> {
    match kind {
        PodiumResultKind::Individual => "Einzel"@,
        PodiumResultKind::Team => "Mannschaft"@,
    }
}

/// The German label of a result kind.
pub fn result_kind_label(kind: &PodiumResultKind) -> (r: &'static str)
    ensures
        r@ == kind_label(*kind),
{
    match kind {
        PodiumResultKind::Individual => "Einzel",
        PodiumResultKind::Team => "Mannschaft",
    }
}

/// Shooter names separated by a comma and a space.
pub fn shooters_display(shooters: &Vec<String>) -> (r: String)
    ensures
        r@ == join(strs(shooters@), ", "@),
{
    let parts = chars_of_all(shooters);
    let sep = chars_of(", ");
    string_of(&join_chars(&parts, &sep))
}

pub open spec fn present(parts: Seq<Option<String>>) -> Seq<Seq<char>>
    decreases parts.len(),
{
    if parts.len() == 0 {
        Seq::empty()
    } else {
        match parts.last() {
            Some(s) => present(parts.drop_last()).push(s@),
            None => present(parts.drop_last()),
        }
    }
}

/// The discipline column: code, discipline and class that are present,
/// separated by ` - `, escaped.
pub fn discipline_cell(
    discipline_code: &Option<String>,
    discipline: &Option<String>,
    class_name: &Option<String>,
) -> (r: String)
    ensures
        r@ == escaped(join(present(seq![*discipline_code, *discipline, *class_name]), " - "@)),
{
    let ghost all = seq![*discipline_code, *discipline, *class_name];
    let mut parts: Vec<Vec<char>> = Vec::new();
    if let Some(c) = discipline_code {
        parts.push(chars_of(c.as_str()));
    }
    assert(all.take(1).drop_last() =~= Seq::<Option<String>>::empty());
    assert(present(all.take(1).drop_last()) =~= Seq::<Seq<char>>::empty());
    assert(all.take(1).last() == *discipline_code);
    assert(views(parts@) =~= present(all.take(1)));
    if let Some(d) = discipline {
        parts.push(chars_of(d.as_str()));
    }
    assert(all.take(2).drop_last() =~= all.take(1));
    assert(all.take(2).last() == *discipline);
    assert(views(parts@) =~= present(all.take(2)));
    if let Some(k) = class_name {
        parts.push(chars_of(k.as_str()));
    }
    assert(all.take(3).drop_last() =~= all.take(2));
    assert(all.take(3).last() == *class_name);
    assert(all.take(3) =~= all);
    assert(views(parts@) =~= present(all));
    let sep = chars_of(" - ");
    string_of(&escape_chars(&join_chars(&parts, &sep)))
}

/// How a crawl classification is printed (`Debug`).
pub open spec fn classification_name(c: PdfClassification) -> Seq<char> {
    match c {
        PdfClassification::David21 => "David21"@,
        PdfClassification::ManualReview => "ManualReview"@,
        PdfClassification::Unknown => "Unknown"@,
    }
}

/// The PDFs of a crawl that were not read as DAVID21+ result lists; the
/// reason is the crawl's error, else the classification.
pub open spec fn review_of(p: PdfReportItem) -> (Seq<char>, Option<Seq<char>>, Option<usize>, Option<bool>) {
    (
        p.url@,
        Some(
            match p.error {
                Some(e) => e@,
                None => classification_name(p.classification),
            },
        ),
        p.text_char_count,
        p.needs_ocr,
    )
}

/// The manual-review entries as plain values; a missing reason stays
/// apart from an empty one.
pub open spec fn review_views(v: Seq<ManualReviewPdf>) -> Seq<(Seq<char>, Option<Seq<char>>, Option<usize>, Option<bool>)> {
    v.map_values(
        |m: ManualReviewPdf|
            (
                m.url@,
                match m.reason {
                    Some(r) => Some(r@),
                    None => None,
                },
                m.text_char_count,
                m.needs_ocr,
            ),
    )
}

pub open spec fn reviews_of(pdfs: Seq<PdfReportItem>) -> Seq<(Seq<char>, Option<Seq<char>>, Option<usize>, Option<bool>)>
    decreases pdfs.len(),
{
    if pdfs.len() == 0 {
        Seq::empty()
    } else if pdfs.last().classification != PdfClassification::David21 {
        reviews_of(pdfs.drop_last()).push(review_of(pdfs.last()))
    } else {
        reviews_of(pdfs.drop_last())
    }
}

fn classification_text(c: PdfClassification) -> (r: String)
    ensures
        r@ == classification_name(c),
{
    match c {
        PdfClassification::David21 => String::from_str("David21"),
        PdfClassification::ManualReview => String::from_str("ManualReview"),
        PdfClassification::Unknown => String::from_str("Unknown"),
    }
}

/// The PDFs of a crawl that need manual review, each with a reason.
pub fn manual_review_pdfs(pdfs: &Vec<PdfReportItem>) -> (r: Vec<ManualReviewPdf>)
    ensures
        review_views(r@) == reviews_of(pdfs@),
        forall|i: int| 0 <= i < r.len() ==> (#[trigger] r@[i]).reason is Some,
{
    let mut out: Vec<ManualReviewPdf> = Vec::new();
    let mut i: usize = 0;
    while i < pdfs.len()
        invariant
            0 <= i <= pdfs.len(),
            review_views(out@) == reviews_of(pdfs@.take(i as int)),
            forall|k: int| 0 <= k < out.len() ==> (#[trigger] out@[k]).reason is Some,
        decreases pdfs.len() - i,
    {
        let p = &pdfs[i];
        assert(pdfs@.take(i + 1).drop_last() =~= pdfs@.take(i as int));
        assert(pdfs@.take(i + 1).last() == *p);
        if p.classification != PdfClassification::David21 {
            let reason = match &p.error {
                Some(e) => e.clone(),
                None => classification_text(p.classification),
            };
            let ghost old_out = out@;
            out.push(
                ManualReviewPdf {
                    url: p.url.clone(),
                    reason: Some(reason),
                    text_char_count: p.text_char_count,
                    needs_ocr: p.needs_ocr,
                },
            );
            assert(review_views(out@) =~= review_views(old_out).push(review_of(*p)));
        }
        i += 1;
    }
    assert(pdfs@.take(i as int) =~= pdfs@);
    out
}

/// One table row of a PDF for manual review.
pub open spec fn review_row(m: ManualReviewPdf) -> Seq<char> {
    let reason = match m.reason {
        Some(r) => r@,
        None => "unbekannt"@,
    };
    let count = match m.text_char_count {
        Some(n) => decimal(n as nat),
        None => Seq::empty(),
    };
    let ocr = match m.needs_ocr {
        Some(true) => "ja"@,
        Some(false) => "nein"@,
        None => Seq::empty(),
    };
    "<tr><td>"@ + link(m.url@, m.url@) + "</td><td>"@ + escaped(reason) + "</td><td>"@ + escaped(
        count,
    ) + "</td><td>"@ + escaped(ocr) + "</td></tr>\n"@
}

pub open spec fn review_rows(pdfs: Seq<ManualReviewPdf>) -> Seq<char>
    decreases pdfs.len(),
{
    if pdfs.len() == 0 {
        Seq::empty()
    } else {
        review_rows(pdfs.drop_last()) + review_row(pdfs.last())
    }
}

#[verifier::spinoff_prover]
#[verifier::rlimit(40)]
fn review_row_chars(p: &ManualReviewPdf, out: &mut Vec<char>)
    ensures
        final(out)@ == old(out)@ + review_row(*p),
{
    let url = chars_of(p.url.as_str());
    let reason = match &p.reason {
        Some(r) => chars_of(r.as_str()),
        None => chars_of("unbekannt"),
    };
    let count = match p.text_char_count {
        Some(n) => decimal_chars(n as u64),
        None => Vec::new(),
    };
    let ocr = match p.needs_ocr {
        Some(true) => chars_of("ja"),
        Some(false) => chars_of("nein"),
        None => Vec::new(),
    };
    let ghost before = out@;
    append_str(out, "<tr><td>");
    append_chars(out, &link_chars(&url, &url));
    append_str(out, "</td><td>");
    append_chars(out, &escape_chars(&reason));
    append_str(out, "</td><td>");
    append_chars(out, &escape_chars(&count));
    append_str(out, "</td><td>");
    append_chars(out, &escape_chars(&ocr));
    append_str(out, "</td></tr>\n");
    assert(out@ =~= before + review_row(*p));
}

/// The table rows of the PDFs for manual review.
pub fn render_manual_review_rows(pdfs: &Vec<ManualReviewPdf>) -> (r: String)
    ensures
        r@ == review_rows(pdfs@),
{
    let mut out: Vec<char> = Vec::new();
    let mut i: usize = 0;
    while i < pdfs.len()
        invariant
            0 <= i <= pdfs.len(),
            out@ == review_rows(pdfs@.take(i as int)),
        decreases pdfs.len() - i,
    {
        let p = &pdfs[i];
        assert(pdfs@.take(i + 1).drop_last() =~= pdfs@.take(i as int));
        assert(pdfs@.take(i + 1).last() == *p);
        review_row_chars(p, &mut out);
        i += 1;
    }
    assert(pdfs@.take(i as int) =~= pdfs@);
    string_of(&out)
}

} // verus!
