//! Character-level text primitives with their mathematical meaning.
//!
//! Every function here works on sequences of Unicode scalar values, the view
//! that Verus gives a `str` or a `String`.
use vstd::prelude::*;

verus! {

broadcast use vstd::string::group_string_axioms;

// ---------------------------------------------------------------------------
// Character classes
// ---------------------------------------------------------------------------

/// The Unicode `White_Space` property, the set that `str::split_whitespace`
/// and `str::trim` use.
pub open spec fn is_ws(c: char) -> bool {
    ||| ('\u{9}' <= c && c <= '\u{d}')
    ||| c == ' '
    ||| c == '\u{85}'
    ||| c == '\u{a0}'
    ||| c == '\u{1680}'
    ||| ('\u{2000}' <= c && c <= '\u{200a}')
    ||| c == '\u{2028}'
    ||| c == '\u{2029}'
    ||| c == '\u{202f}'
    ||| c == '\u{205f}'
    ||| c == '\u{3000}'
}

/// The Unicode general category `Cc`, the set that `char::is_control` tests.
pub open spec fn is_ctrl(c: char) -> bool {
    c <= '\u{1f}' || ('\u{7f}' <= c && c <= '\u{9f}')
}

pub open spec fn is_digit(c: char) -> bool {
    '0' <= c && c <= '9'
}

pub open spec fn is_ascii_upper(c: char) -> bool {
    'A' <= c && c <= 'Z'
}

pub open spec fn is_ascii_lower(c: char) -> bool {
    'a' <= c && c <= 'z'
}

pub open spec fn is_ascii_alnum(c: char) -> bool {
    is_digit(c) || is_ascii_upper(c) || is_ascii_lower(c)
}

pub open spec fn all_digits(s: Seq<char>) -> bool {
    forall|i: int| 0 <= i < s.len() ==> is_digit(#[trigger] s[i])
}

/// Whether `c` is a Unicode decimal digit (general category `Nd`), the
/// class that `\d` of a regular expression matches.
pub uninterp spec fn char_is_decimal_digit(c: char) -> bool;

/// Every character of `s` is a Unicode decimal digit.
pub open spec fn all_decimal_digits(s: Seq<char>) -> bool {
    forall|i: int| 0 <= i < s.len() ==> char_is_decimal_digit(#[trigger] s[i])
}

/// `regex::Regex::is_match` with the pattern `\A\d\z` on one character: a
/// Unicode decimal digit (`Nd`); among ASCII characters exactly `0` to `9`.
/// The pattern compiles, so its error arm is never taken.
#[verifier::external_body]
pub(crate) fn is_decimal_digit_char(c: char) -> (r: bool)
    ensures
        r == char_is_decimal_digit(c),
        (c as u32) < 128 ==> (r == is_digit(c)),
{
    let mut buf = [0u8; 4];
    match regex::Regex::new(r"\A\d\z") {
        Ok(digit) => digit.is_match(c.encode_utf8(&mut buf)),
        Err(_) => false,
    }
}

pub fn all_decimal_digits_vec(s: &Vec<char>) -> (r: bool)
    ensures
        r == all_decimal_digits(s@),
{
    let mut i: usize = 0;
    while i < s.len()
        invariant
            0 <= i <= s.len(),
            forall|j: int| 0 <= j < i ==> char_is_decimal_digit(#[trigger] s@[j]),
        decreases s.len() - i,
    {
        if !is_decimal_digit_char(s[i]) {
            return false;
        }
        i += 1;
    }
    true
}

pub fn is_ws_char(c: char) -> (r: bool)
    ensures
        r == is_ws(c),
{
    ('\u{9}' <= c && c <= '\u{d}') || c == ' ' || c == '\u{85}' || c == '\u{a0}' || c
        == '\u{1680}' || ('\u{2000}' <= c && c <= '\u{200a}') || c == '\u{2028}' || c
        == '\u{2029}' || c == '\u{202f}' || c == '\u{205f}' || c == '\u{3000}'
}

pub fn is_control_char(c: char) -> (r: bool)
    ensures
        r == is_ctrl(c),
{
    c <= '\u{1f}' || ('\u{7f}' <= c && c <= '\u{9f}')
}

pub fn is_digit_char(c: char) -> (r: bool)
    ensures
        r == is_digit(c),
{
    '0' <= c && c <= '9'
}

pub fn is_ascii_alnum_char(c: char) -> (r: bool)
    ensures
        r == is_ascii_alnum(c),
{
    ('0' <= c && c <= '9') || ('A' <= c && c <= 'Z') || ('a' <= c && c <= 'z')
}

pub fn all_digits_vec(s: &Vec<char>) -> (r: bool)
    ensures
        r == all_digits(s@),
{
    let mut i: usize = 0;
    while i < s.len()
        invariant
            0 <= i <= s.len(),
            forall|j: int| 0 <= j < i ==> is_digit(#[trigger] s@[j]),
        decreases s.len() - i,
    {
        if !is_digit_char(s[i]) {
            return false;
        }
        i += 1;
    }
    true
}

// ---------------------------------------------------------------------------
// Conversions between strings and character vectors
// ---------------------------------------------------------------------------

/// The characters of a string slice, in order.
pub fn chars_of(s: &str) -> (v: Vec<char>)
    ensures
        v@ == s@,
{
    let mut v: Vec<char> = Vec::new();
    for c in it: s.chars()
        invariant
            v@ == it.seq().take(it.index()),
            it.seq() == s@,
    {
        v.push(c);
    }
    v
}

/// A `String` made of the given characters (std's `FromIterator<&char>` for
/// `String`, which appends each character in order).
#[verifier::external_body]
pub(crate) fn string_of(v: &Vec<char>) -> (s: String)
    ensures
        s@ == v@,
{
    v.iter().collect()
}

/// Equality of two character sequences.
pub fn eq_chars(a: &Vec<char>, b: &Vec<char>) -> (r: bool)
    ensures
        r == (a@ == b@),
{
    if a.len() != b.len() {
        return false;
    }
    let mut i: usize = 0;
    while i < a.len()
        invariant
            a.len() == b.len(),
            0 <= i <= a.len(),
            forall|j: int| 0 <= j < i ==> a@[j] == b@[j],
        decreases a.len() - i,
    {
        if a[i] != b[i] {
            return false;
        }
        i += 1;
    }
    assert(a@ =~= b@);
    true
}

/// Equality of a character vector with a string slice.
pub fn eq_str(a: &Vec<char>, b: &str) -> (r: bool)
    ensures
        r == (a@ == b@),
{
    let bv = chars_of(b);
    eq_chars(a, &bv)
}

/// A copy of the given characters.
pub fn copy_chars(a: &Vec<char>) -> (r: Vec<char>)
    ensures
        r@ == a@,
{
    let mut r: Vec<char> = Vec::new();
    let mut i: usize = 0;
    while i < a.len()
        invariant
            0 <= i <= a.len(),
            r@ == a@.take(i as int),
        decreases a.len() - i,
    {
        r.push(a[i]);
        i += 1;
        assert(r@ =~= a@.take(i as int));
    }
    assert(a@.take(a.len() as int) =~= a@);
    r
}

/// `a` followed by `b`.
pub fn concat(a: &Vec<char>, b: &Vec<char>) -> (r: Vec<char>)
    ensures
        r@ == a@ + b@,
{
    let mut r = copy_chars(a);
    let mut i: usize = 0;
    while i < b.len()
        invariant
            0 <= i <= b.len(),
            r@ == a@ + b@.take(i as int),
        decreases b.len() - i,
    {
        r.push(b[i]);
        i += 1;
        assert(r@ =~= a@ + b@.take(i as int));
    }
    assert(b@.take(b.len() as int) =~= b@);
    r
}

/// Appends `b` to `a`.
pub fn append_chars(a: &mut Vec<char>, b: &Vec<char>)
    ensures
        final(a)@ == old(a)@ + b@,
{
    let mut i: usize = 0;
    while i < b.len()
        invariant
            0 <= i <= b.len(),
            a@ == old(a)@ + b@.take(i as int),
        decreases b.len() - i,
    {
        a.push(b[i]);
        i += 1;
        assert(a@ =~= old(a)@ + b@.take(i as int));
    }
    assert(b@.take(b.len() as int) =~= b@);
}

/// Appends the characters of a string slice to `a`.
pub fn append_str(a: &mut Vec<char>, b: &str)
    ensures
        final(a)@ == old(a)@ + b@,
{
    let bv = chars_of(b);
    append_chars(a, &bv);
}

/// The characters `s[from..to]`.
pub fn slice_chars(s: &Vec<char>, from: usize, to: usize) -> (r: Vec<char>)
    requires
        from <= to <= s.len(),
    ensures
        r@ == s@.subrange(from as int, to as int),
{
    let mut r: Vec<char> = Vec::new();
    let mut i: usize = from;
    while i < to
        invariant
            from <= i <= to <= s.len(),
            r@ == s@.subrange(from as int, i as int),
        decreases to - i,
    {
        r.push(s[i]);
        i += 1;
        assert(r@ =~= s@.subrange(from as int, i as int));
    }
    r
}

// ---------------------------------------------------------------------------
// Trimming
// ---------------------------------------------------------------------------

/// `s` without its leading white space (`str::trim_start`).
pub open spec fn trim_start(s: Seq<char>) -> Seq<char>
    decreases s.len(),
{
    if s.len() > 0 && is_ws(s[0]) {
        trim_start(s.drop_first())
    } else {
        s
    }
}

/// `s` without its trailing white space (`str::trim_end`).
pub open spec fn trim_end(s: Seq<char>) -> Seq<char>
    decreases s.len(),
{
    if s.len() > 0 && is_ws(s.last()) {
        trim_end(s.drop_last())
    } else {
        s
    }
}

/// `s` without leading and trailing white space (`str::trim`).
pub open spec fn trim(s: Seq<char>) -> Seq<char> {
    trim_end(trim_start(s))
}

proof fn lemma_trim_start_skip(s: Seq<char>, i: int)
    requires
        0 <= i <= s.len(),
        forall|j: int| 0 <= j < i ==> is_ws(#[trigger] s[j]),
    ensures
        trim_start(s) == trim_start(s.skip(i)),
    decreases i,
{
    if i > 0 {
        assert(s.drop_first().skip(i - 1) =~= s.skip(i));
        lemma_trim_start_skip(s.drop_first(), i - 1);
    } else {
        assert(s.skip(0) =~= s);
    }
}

proof fn lemma_trim_end_take(s: Seq<char>, i: int)
    requires
        0 <= i <= s.len(),
        forall|j: int| i <= j < s.len() ==> is_ws(#[trigger] s[j]),
    ensures
        trim_end(s) == trim_end(s.take(i)),
    decreases s.len() - i,
{
    if i < s.len() {
        assert(s.drop_last().take(i) =~= s.take(i));
        lemma_trim_end_take(s.drop_last(), i);
    } else {
        assert(s.take(i) =~= s);
    }
}

/// The index of the first character of `s` that is not white space.
pub fn trim_start_index(s: &Vec<char>) -> (i: usize)
    ensures
        i <= s.len(),
        s@.skip(i as int) == trim_start(s@),
{
    let mut i: usize = 0;
    while i < s.len() && is_ws_char(s[i])
        invariant
            0 <= i <= s.len(),
            forall|j: int| 0 <= j < i ==> is_ws(#[trigger] s@[j]),
        decreases s.len() - i,
    {
        i += 1;
    }
    proof {
        lemma_trim_start_skip(s@, i as int);
    }
    i
}

/// The index just past the last character of `s[..limit]` that is not white space.
pub fn trim_end_index(s: &Vec<char>, limit: usize) -> (i: usize)
    requires
        limit <= s.len(),
    ensures
        i <= limit,
        s@.take(i as int) == trim_end(s@.take(limit as int)),
{
    let mut i: usize = limit;
    while i > 0 && is_ws_char(s[i - 1])
        invariant
            0 <= i <= limit <= s.len(),
            forall|j: int| i <= j < limit ==> is_ws(#[trigger] s@[j]),
        decreases i,
    {
        i -= 1;
    }
    proof {
        let t = s@.take(limit as int);
        assert forall|j: int| i <= j < t.len() implies is_ws(#[trigger] t[j]) by {
            assert(t[j] == s@[j]);
        }
        lemma_trim_end_take(t, i as int);
        assert(t.take(i as int) =~= s@.take(i as int));
        if i > 0 {
            assert(t.take(i as int).last() == s@[i - 1]);
        }
        assert(trim_end(t.take(i as int)) == t.take(i as int));
    }
    i
}

/// `str::trim` on a character vector.
pub fn trim_chars(s: &Vec<char>) -> (r: Vec<char>)
    ensures
        r@ == trim(s@),
{
    let start = trim_start_index(s);
    let rest = slice_chars(s, start, s.len());
    assert(rest@ =~= s@.skip(start as int));
    let end = trim_end_index(&rest, rest.len());
    assert(rest@.take(rest.len() as int) =~= rest@);
    let r = slice_chars(&rest, 0, end);
    assert(r@ =~= rest@.take(end as int));
    r
}

/// `str::trim_start` on a character vector.
pub fn trim_start_chars(s: &Vec<char>) -> (r: Vec<char>)
    ensures
        r@ == trim_start(s@),
{
    let start = trim_start_index(s);
    let r = slice_chars(s, start, s.len());
    assert(r@ =~= s@.skip(start as int));
    r
}

/// `str::trim_end` on a character vector.
pub fn trim_end_chars(s: &Vec<char>) -> (r: Vec<char>)
    ensures
        r@ == trim_end(s@),
{
    let end = trim_end_index(s, s.len());
    assert(s@.take(s.len() as int) =~= s@);
    let r = slice_chars(s, 0, end);
    assert(r@ =~= s@.take(end as int));
    r
}

// ---------------------------------------------------------------------------
// Splitting at white space and joining
// ---------------------------------------------------------------------------

/// The words completed so far and the word being read, after reading `s`
/// from left to right.
pub open spec fn words_fold(s: Seq<char>) -> (Seq<Seq<char>>, Seq<char>)
    decreases s.len(),
{
    if s.len() == 0 {
        (Seq::empty(), Seq::empty())
    } else {
        let prev = words_fold(s.drop_last());
        let c = s.last();
        if is_ws(c) {
            if prev.1.len() > 0 {
                (prev.0.push(prev.1), Seq::empty())
            } else {
                prev
            }
        } else {
            (prev.0, prev.1.push(c))
        }
    }
}

/// The maximal runs of non-white-space characters of `s`, in order
/// (`str::split_whitespace`).
pub open spec fn words(s: Seq<char>) -> Seq<Seq<char>> {
    let f = words_fold(s);
    if f.1.len() > 0 {
        f.0.push(f.1)
    } else {
        f.0
    }
}

/// The parts of `parts`, with `sep` between each two of them (`[T]::join`).
pub open spec fn join(parts: Seq<Seq<char>>, sep: Seq<char>) -> Seq<char>
    decreases parts.len(),
{
    if parts.len() == 0 {
        Seq::empty()
    } else if parts.len() == 1 {
        parts[0]
    } else {
        join(parts.drop_last(), sep) + sep + parts.last()
    }
}

/// The words of `s`, each separated by one space.
pub open spec fn collapse_ws(s: Seq<char>) -> Seq<char> {
    join(words(s), seq![' '])
}

proof fn lemma_words_fold_after_space(a: Seq<char>, w: Seq<char>)
    requires
        forall|i: int| 0 <= i < w.len() ==> !is_ws(#[trigger] w[i]),
    ensures
        words_fold(a + seq![' '] + w) == (words(a), w),
    decreases w.len(),
{
    let s = a + seq![' '] + w;
    if w.len() == 0 {
        assert(s.drop_last() =~= a);
        assert(s =~= a + seq![' ']);
        assert(s.last() == ' ');
    } else {
        assert(s.drop_last() =~= a + seq![' '] + w.drop_last());
        assert forall|i: int| 0 <= i < w.drop_last().len() implies !is_ws(#[trigger] w.drop_last()[i]) by {
            assert(w.drop_last()[i] == w[i]);
        }
        lemma_words_fold_after_space(a, w.drop_last());
        assert(s.last() == w[w.len() - 1]);
        assert(w.drop_last().push(w.last()) =~= w);
    }
}

/// White space collapsed in a text, a space and a word: the text's words,
/// then the word.
pub proof fn lemma_collapse_ws_after_space(a: Seq<char>, w: Seq<char>)
    requires
        collapse_ws(a).len() > 0,
        w.len() > 0,
        forall|i: int| 0 <= i < w.len() ==> !is_ws(#[trigger] w[i]),
    ensures
        collapse_ws(a + seq![' '] + w) == collapse_ws(a) + seq![' '] + w,
{
    lemma_words_fold_after_space(a, w);
    let ws = words(a);
    if ws.len() == 0 {
        assert(collapse_ws(a) == Seq::<char>::empty());
    }
    assert(words(a + seq![' '] + w) == ws.push(w));
    assert(ws.push(w).drop_last() =~= ws);
    if ws.len() == 0 {
    } else {
        assert(join(ws.push(w), seq![' ']) == join(ws, seq![' ']) + seq![' '] + w);
    }
}

/// The character sequences of a list of character vectors.
pub open spec fn views(v: Seq<Vec<char>>) -> Seq<Seq<char>> {
    v.map_values(|x: Vec<char>| x@)
}

/// `str::split_whitespace` on a character vector.
pub fn split_words(s: &Vec<char>) -> (r: Vec<Vec<char>>)
    ensures
        views(r@) == words(s@),
{
    let mut done: Vec<Vec<char>> = Vec::new();
    let mut cur: Vec<char> = Vec::new();
    let mut i: usize = 0;
    while i < s.len()
        invariant
            0 <= i <= s.len(),
            (views(done@), cur@) == words_fold(s@.take(i as int)),
        decreases s.len() - i,
    {
        let c = s[i];
        assert(s@.take(i + 1).drop_last() =~= s@.take(i as int));
        assert(s@.take(i + 1).last() == c);
        if is_ws_char(c) {
            if cur.len() > 0 {
                let ghost old_done = views(done@);
                let w = cur;
                done.push(w);
                cur = Vec::new();
                assert(views(done@) =~= old_done.push(w@));
            }
        } else {
            cur.push(c);
        }
        i += 1;
    }
    assert(s@.take(s.len() as int) =~= s@);
    if cur.len() > 0 {
        let ghost old_done = views(done@);
        let w = cur;
        done.push(w);
        assert(views(done@) =~= old_done.push(w@));
    }
    done
}

/// `[T]::join` on character vectors.
pub fn join_chars(parts: &Vec<Vec<char>>, sep: &Vec<char>) -> (r: Vec<char>)
    ensures
        r@ == join(views(parts@), sep@),
{
    let mut r: Vec<char> = Vec::new();
    let mut i: usize = 0;
    while i < parts.len()
        invariant
            0 <= i <= parts.len(),
            r@ == join(views(parts@).take(i as int), sep@),
        decreases parts.len() - i,
    {
        let ghost pv = views(parts@);
        assert(pv.take(i + 1).drop_last() =~= pv.take(i as int));
        assert(pv.take(i + 1).last() == parts@[i as int]@);
        if i > 0 {
            append_chars(&mut r, sep);
        } else {
            assert(pv.take(1)[0] == parts@[0]@);
        }
        append_chars(&mut r, &parts[i]);
        i += 1;
    }
    assert(views(parts@).take(parts.len() as int) =~= views(parts@));
    r
}

/// `value.split_whitespace().collect::<Vec<_>>().join(" ")`.
pub fn collapse_chars(s: &Vec<char>) -> (r: Vec<char>)
    ensures
        r@ == collapse_ws(s@),
{
    let ws = split_words(s);
    let sep: Vec<char> = vec![' '];
    assert(sep@ =~= seq![' ']);
    join_chars(&ws, &sep)
}

// ---------------------------------------------------------------------------
// Searching
// ---------------------------------------------------------------------------

/// `p` occurs in `s` at index `i`.
pub open spec fn occurs_at(s: Seq<char>, p: Seq<char>, i: int) -> bool {
    0 <= i && i + p.len() <= s.len() && s.subrange(i, i + p.len()) == p
}

/// `s` contains `p` (`str::contains`).
pub open spec fn contains(s: Seq<char>, p: Seq<char>) -> bool {
    exists|i: int| occurs_at(s, p, i)
}

/// `s` begins with `p` (`str::starts_with`).
pub open spec fn starts_with(s: Seq<char>, p: Seq<char>) -> bool {
    p.len() <= s.len() && s.take(p.len() as int) == p
}

/// `s` ends with `p` (`str::ends_with`).
pub open spec fn ends_with(s: Seq<char>, p: Seq<char>) -> bool {
    p.len() <= s.len() && s.skip(s.len() - p.len()) == p
}

/// The index of the first occurrence of `p` in `s`, or -1 (`str::find`,
/// counted in characters).
pub open spec fn index_of(s: Seq<char>, p: Seq<char>) -> int
    decreases s.len(),
{
    if s.len() < p.len() {
        -1
    } else if s.take(p.len() as int) == p {
        0
    } else if s.len() == 0 {
        -1
    } else {
        let r = index_of(s.drop_first(), p);
        if r < 0 {
            -1
        } else {
            r + 1
        }
    }
}

pub proof fn lemma_index_of(s: Seq<char>, p: Seq<char>)
    ensures
        -1 <= index_of(s, p),
        index_of(s, p) >= 0 ==> occurs_at(s, p, index_of(s, p)),
        forall|j: int| 0 <= j && (j < index_of(s, p) || index_of(s, p) < 0) ==> !occurs_at(s, p, j),
    decreases s.len(),
{
    if s.len() < p.len() {
    } else if s.take(p.len() as int) == p {
        assert(s.subrange(0, p.len() as int) =~= s.take(p.len() as int));
    } else if s.len() == 0 {
        assert(s.take(p.len() as int) =~= p);
    } else {
        lemma_index_of(s.drop_first(), p);
        let r = index_of(s.drop_first(), p);
        assert(!occurs_at(s, p, 0)) by {
            if occurs_at(s, p, 0) {
                assert(s.subrange(0, p.len() as int) =~= s.take(p.len() as int));
            }
        }
        assert forall|j: int| 1 <= j && j + p.len() <= s.len() implies occurs_at(s, p, j)
            == occurs_at(s.drop_first(), p, j - 1) by {
            assert(s.subrange(j, j + p.len()) =~= s.drop_first().subrange(j - 1, j - 1 + p.len()));
        }
        if r >= 0 {
            assert(occurs_at(s.drop_first(), p, r));
        }
    }
}

/// `str::find`: the first index at which `p` occurs in `s`.
pub fn find_chars(s: &Vec<char>, p: &Vec<char>) -> (r: Option<usize>)
    ensures
        r is Some ==> index_of(s@, p@) == r->0 as int,
        r is None ==> index_of(s@, p@) == -1,
{
    proof {
        lemma_index_of(s@, p@);
    }
    if p.len() > s.len() {
        return None;
    }
    let last = s.len() - p.len();
    let mut i: usize = 0;
    loop
        invariant
            p.len() <= s.len(),
            last == s.len() - p.len(),
            0 <= i <= last,
            forall|j: int| 0 <= j < i ==> !occurs_at(s@, p@, j),
        ensures
            forall|j: int| 0 <= j <= last ==> !occurs_at(s@, p@, j),
        decreases last - i,
    {
        if matches_at(s, p, i) {
            proof {
                lemma_index_of(s@, p@);
            }
            assert(occurs_at(s@, p@, i as int));
            assert(index_of(s@, p@) == i as int);
            return Some(i);
        }
        if i == last {
            break;
        }
        i += 1;
    }
    assert forall|j: int| 0 <= j implies !occurs_at(s@, p@, j) by {
        if j > last {
            assert(j + p.len() > s.len());
        }
    }
    None
}

/// `p` occurs in `s` at index `i`.
pub fn matches_at(s: &Vec<char>, p: &Vec<char>, i: usize) -> (r: bool)
    ensures
        r == occurs_at(s@, p@, i as int),
{
    if i > s.len() || p.len() > s.len() - i {
        return false;
    }
    let mut k: usize = 0;
    while k < p.len()
        invariant
            i + p.len() <= s.len(),
            0 <= k <= p.len(),
            forall|j: int| 0 <= j < k ==> s@[i + j] == p@[j],
        decreases p.len() - k,
    {
        if s[i + k] != p[k] {
            assert(s@.subrange(i as int, i + p.len())[k as int] != p@[k as int]);
            return false;
        }
        k += 1;
    }
    assert(s@.subrange(i as int, i + p.len()) =~= p@);
    true
}

/// `str::contains`.
pub fn contains_chars(s: &Vec<char>, p: &Vec<char>) -> (r: bool)
    ensures
        r == contains(s@, p@),
{
    proof {
        lemma_index_of(s@, p@);
    }
    match find_chars(s, p) {
        Some(_) => true,
        None => false,
    }
}

/// `str::contains` with a string slice as the pattern.
pub fn contains_str(s: &Vec<char>, p: &str) -> (r: bool)
    ensures
        r == contains(s@, p@),
{
    let pv = chars_of(p);
    contains_chars(s, &pv)
}

/// `str::starts_with`.
pub fn starts_with_chars(s: &Vec<char>, p: &Vec<char>) -> (r: bool)
    ensures
        r == starts_with(s@, p@),
{
    let r = matches_at(s, p, 0);
    assert(s@.subrange(0, p@.len() as int) =~= s@.take(p@.len() as int));
    r
}

/// `str::starts_with` with a string slice as the pattern.
pub fn starts_with_str(s: &Vec<char>, p: &str) -> (r: bool)
    ensures
        r == starts_with(s@, p@),
{
    let pv = chars_of(p);
    starts_with_chars(s, &pv)
}

/// `str::ends_with`.
pub fn ends_with_chars(s: &Vec<char>, p: &Vec<char>) -> (r: bool)
    ensures
        r == ends_with(s@, p@),
{
    if p.len() > s.len() {
        return false;
    }
    let r = matches_at(s, p, s.len() - p.len());
    assert(s@.subrange(s.len() - p.len(), s.len() as int) =~= s@.skip(s.len() - p.len()));
    r
}

/// `str::ends_with` with a string slice as the pattern.
pub fn ends_with_str(s: &Vec<char>, p: &str) -> (r: bool)
    ensures
        r == ends_with(s@, p@),
{
    let pv = chars_of(p);
    ends_with_chars(s, &pv)
}

/// `str::split_once`: the text before and after the first occurrence of `p`.
pub open spec fn split_once(s: Seq<char>, p: Seq<char>) -> Option<(Seq<char>, Seq<char>)> {
    let i = index_of(s, p);
    if i < 0 {
        None
    } else {
        Some((s.take(i), s.skip(i + p.len())))
    }
}

/// `str::split_once`.
pub fn split_once_chars(s: &Vec<char>, p: &Vec<char>) -> (r: Option<(Vec<char>, Vec<char>)>)
    ensures
        match (r, split_once(s@, p@)) {
            (Some((a, b)), Some((sa, sb))) => a@ == sa && b@ == sb,
            (None, None) => true,
            _ => false,
        },
{
    proof {
        lemma_index_of(s@, p@);
    }
    match find_chars(s, p) {
        Some(i) => {
            assert(index_of(s@, p@) == i as int);
            assert(occurs_at(s@, p@, i as int));
            let n = s.len();
            let a = slice_chars(s, 0, i);
            let b = slice_chars(s, i + p.len(), n);
            assert(a@ =~= s@.take(i as int));
            assert(b@ =~= s@.skip(i + p.len()));
            Some((a, b))
        },
        None => None,
    }
}

/// `str::split_once` with a string slice as the pattern.
pub fn split_once_str(s: &Vec<char>, p: &str) -> (r: Option<(Vec<char>, Vec<char>)>)
    ensures
        match (r, split_once(s@, p@)) {
            (Some((a, b)), Some((sa, sb))) => a@ == sa && b@ == sb,
            (None, None) => true,
            _ => false,
        },
{
    let pv = chars_of(p);
    split_once_chars(s, &pv)
}

/// The index of the last occurrence of `c` in `s`, or -1.
pub open spec fn last_index_of(s: Seq<char>, c: char) -> int
    decreases s.len(),
{
    if s.len() == 0 {
        -1
    } else if s.last() == c {
        s.len() - 1
    } else {
        last_index_of(s.drop_last(), c)
    }
}

pub proof fn lemma_last_index_of(s: Seq<char>, c: char)
    ensures
        -1 <= last_index_of(s, c) < s.len(),
        last_index_of(s, c) >= 0 ==> s[last_index_of(s, c)] == c,
        forall|j: int| last_index_of(s, c) < j < s.len() ==> s[j] != c,
    decreases s.len(),
{
    if s.len() > 0 && s.last() != c {
        lemma_last_index_of(s.drop_last(), c);
        assert forall|j: int| last_index_of(s, c) < j < s.len() implies s[j] != c by {
            if j < s.len() - 1 {
                assert(s[j] == s.drop_last()[j]);
            }
        }
    }
}

/// `str::rsplit_once` with a single character: the text before and after
/// its last occurrence.
pub open spec fn rsplit_once(s: Seq<char>, c: char) -> Option<(Seq<char>, Seq<char>)> {
    let i = last_index_of(s, c);
    if i < 0 {
        None
    } else {
        Some((s.take(i), s.skip(i + 1)))
    }
}

/// `str::rsplit_once` with a single character.
pub fn rsplit_once_char(s: &Vec<char>, c: char) -> (r: Option<(Vec<char>, Vec<char>)>)
    ensures
        match (r, rsplit_once(s@, c)) {
            (Some((a, b)), Some((sa, sb))) => a@ == sa && b@ == sb,
            (None, None) => true,
            _ => false,
        },
{
    let mut i: usize = s.len();
    assert(s@.take(s.len() as int) =~= s@);
    while i > 0
        invariant
            0 <= i <= s.len(),
            last_index_of(s@, c) == last_index_of(s@.take(i as int), c),
        decreases i,
    {
        assert(s@.take(i as int).last() == s@[i - 1]);
        assert(s@.take(i as int).drop_last() =~= s@.take(i - 1));
        if s[i - 1] == c {
            let a = slice_chars(s, 0, i - 1);
            let b = slice_chars(s, i, s.len());
            assert(a@ =~= s@.take(i - 1));
            assert(b@ =~= s@.skip(i as int));
            return Some((a, b));
        }
        i -= 1;
    }
    assert(s@.take(0) =~= Seq::<char>::empty());
    proof {
        assert(s@.take(s.len() as int) =~= s@);
    }
    None
}

// ---------------------------------------------------------------------------
// Replacing
// ---------------------------------------------------------------------------

/// `str::replace`: every non-overlapping occurrence of `p` (scanning from the
/// left) replaced by `r`; `p` must not be empty.
pub open spec fn replace(s: Seq<char>, p: Seq<char>, r: Seq<char>) -> Seq<char>
    decreases s.len(),
{
    if p.len() == 0 {
        s
    } else {
        let i = index_of(s, p);
        if i < 0 {
            s
        } else {
            proof {
                lemma_index_of(s, p);
            }
            s.take(i) + r + replace(s.skip(i + p.len()), p, r)
        }
    }
}

pub(crate) proof fn lemma_replace_step(s: Seq<char>, p: Seq<char>, r: Seq<char>)
    requires
        p.len() > 0,
        s.len() > 0,
        !occurs_at(s, p, 0),
    ensures
        replace(s, p, r) == seq![s[0]] + replace(s.drop_first(), p, r),
{
    lemma_index_of(s, p);
    lemma_index_of(s.drop_first(), p);
    if s.len() >= p.len() {
        assert(s.take(p.len() as int) != p) by {
            if s.take(p.len() as int) == p {
                assert(s.subrange(0, p.len() as int) =~= s.take(p.len() as int));
            }
        }
    }
    let i = index_of(s, p);
    let k = index_of(s.drop_first(), p);
    if i >= 0 {
        assert(i == k + 1);
        assert(s.take(i) =~= seq![s[0]] + s.drop_first().take(k));
        assert(s.skip(i + p.len()) =~= s.drop_first().skip(k + p.len()));
    } else {
        if s.len() >= p.len() {
            assert(k < 0);
        } else {
            assert(s.drop_first().len() < p.len());
        }
        assert(s =~= seq![s[0]] + s.drop_first());
    }
}

pub(crate) proof fn lemma_replace_hit(s: Seq<char>, p: Seq<char>, r: Seq<char>)
    requires
        p.len() > 0,
        occurs_at(s, p, 0),
    ensures
        replace(s, p, r) == r + replace(s.skip(p.len() as int), p, r),
{
    lemma_index_of(s, p);
    assert(s.take(p.len() as int) =~= s.subrange(0, p.len() as int));
    assert(index_of(s, p) == 0);
    assert(s.take(0) =~= Seq::<char>::empty());
    assert(Seq::<char>::empty() + r =~= r);
}

/// `str::replace`.
pub fn replace_chars(s: &Vec<char>, p: &Vec<char>, rep: &Vec<char>) -> (out: Vec<char>)
    requires
        p.len() > 0,
    ensures
        out@ == replace(s@, p@, rep@),
{
    let mut out: Vec<char> = Vec::new();
    let mut i: usize = 0;
    assert(s@.skip(0) =~= s@);
    assert(out@ + s@ =~= s@);
    while i < s.len()
        invariant
            p.len() > 0,
            0 <= i <= s.len(),
            replace(s@, p@, rep@) == out@ + replace(s@.skip(i as int), p@, rep@),
        decreases s.len() - i,
    {
        let ghost rest = s@.skip(i as int);
        if matches_at(s, p, i) {
            proof {
                assert(rest.subrange(0, p.len() as int) =~= s@.subrange(i as int, i + p.len()));
                lemma_replace_hit(rest, p@, rep@);
                assert(rest.skip(p.len() as int) =~= s@.skip(i + p.len()));
            }
            append_chars(&mut out, rep);
            i += p.len();
            assert(replace(s@, p@, rep@) == out@ + replace(s@.skip(i as int), p@, rep@));
        } else {
            proof {
                if occurs_at(rest, p@, 0) {
                    assert(rest.subrange(0, p.len() as int) =~= s@.subrange(i as int, i + p.len()));
                }
                lemma_replace_step(rest, p@, rep@);
                assert(rest.drop_first() =~= s@.skip(i + 1));
            }
            out.push(s[i]);
            i += 1;
            assert(replace(s@, p@, rep@) == out@ + replace(s@.skip(i as int), p@, rep@));
        }
    }
    proof {
        assert(s@.skip(s.len() as int) =~= Seq::<char>::empty());
        lemma_index_of(Seq::<char>::empty(), p@);
        assert(out@ + Seq::<char>::empty() =~= out@);
    }
    out
}

/// `str::replace` with string slices as pattern and replacement.
pub fn replace_str(s: &Vec<char>, p: &str, rep: &str) -> (out: Vec<char>)
    requires
        p@.len() > 0,
    ensures
        out@ == replace(s@, p@, rep@),
{
    let pv = chars_of(p);
    let rv = chars_of(rep);
    replace_chars(s, &pv, &rv)
}


// ---------------------------------------------------------------------------
// Unicode case mapping and letters (std's tables)
// ---------------------------------------------------------------------------

/// What `char::is_alphanumeric` answers: whether `c` has the Unicode
/// `Alphabetic` property or a `Numeric` general category.
pub uninterp spec fn char_is_alphanumeric(c: char) -> bool;

/// The characters that `char::to_lowercase` yields for `c`.
pub uninterp spec fn char_lowercase(c: char) -> Seq<char>;

/// `char::is_alphanumeric`; its answer comes from std's Unicode tables and
/// is named, not stated, but for ASCII, where the alphanumerics are the
/// letters and digits.
#[verifier::external_body]
pub(crate) fn is_alphanumeric_char(c: char) -> (r: bool)
    ensures
        r == char_is_alphanumeric(c),
        (c as u32) < 128 ==> (r == is_ascii_alnum(c)),
{
    c.is_alphanumeric()
}

/// `char::to_lowercase`, collected; std documents that it yields one or more
/// characters (the character itself where it has no lowercase mapping), and
/// an ASCII character maps to its ASCII lowercase form. Which characters a
/// non-ASCII character maps to is named, not stated.
#[verifier::external_body]
pub(crate) fn lowercase_of(c: char) -> (r: Vec<char>)
    ensures
        r@ == char_lowercase(c),
        r@.len() >= 1,
        (c as u32) < 128 ==> r@ == seq![ascii_lower(c)],
{
    c.to_lowercase().collect()
}

/// What `char::to_lowercase` yields for `c`: the ASCII lowercase form of an
/// ASCII character, std's mapping for any other.
pub open spec fn lower_chars(c: char) -> Seq<char> {
    if (c as u32) < 128 {
        seq![ascii_lower(c)]
    } else {
        char_lowercase(c)
    }
}

/// Whether `char::is_alphanumeric` holds of `c`: an ASCII letter or digit
/// for an ASCII character, std's tables for any other.
pub open spec fn alphanumeric(c: char) -> bool {
    if (c as u32) < 128 {
        is_ascii_alnum(c)
    } else {
        char_is_alphanumeric(c)
    }
}

/// ASCII lowercase of one character (`char::to_ascii_lowercase`).
pub open spec fn ascii_lower(c: char) -> char {
    if is_ascii_upper(c) {
        ((c as u32) + 32) as char
    } else {
        c
    }
}

/// ASCII uppercase of one character (`char::to_ascii_uppercase`).
pub open spec fn ascii_upper(c: char) -> char {
    if is_ascii_lower(c) {
        ((c as u32) - 32) as char
    } else {
        c
    }
}

/// `str::eq_ignore_ascii_case`.
pub open spec fn eq_ignore_ascii_case(a: Seq<char>, b: Seq<char>) -> bool {
    a.len() == b.len() && forall|i: int| 0 <= i < a.len() ==> ascii_lower(#[trigger] a[i]) == ascii_lower(b[i])
}

pub fn ascii_lower_char(c: char) -> (r: char)
    ensures
        r == ascii_lower(c),
{
    if 'A' <= c && c <= 'Z' {
        let u = c as u32 + 32;
        assert(u < 0xD800);
        char_from_ascii(u)
    } else {
        c
    }
}

pub fn ascii_upper_char(c: char) -> (r: char)
    ensures
        r == ascii_upper(c),
{
    if 'a' <= c && c <= 'z' {
        let u = c as u32 - 32;
        char_from_ascii(u)
    } else {
        c
    }
}

/// The character with an ASCII code point.
fn char_from_ascii(u: u32) -> (c: char)
    requires
        u < 128,
    ensures
        c == u as char,
{
    // `u8 as char` is the identity on code points.
    (u as u8) as char
}

pub fn eq_ignore_ascii_case_chars(a: &Vec<char>, b: &Vec<char>) -> (r: bool)
    ensures
        r == eq_ignore_ascii_case(a@, b@),
{
    if a.len() != b.len() {
        return false;
    }
    let mut i: usize = 0;
    while i < a.len()
        invariant
            a.len() == b.len(),
            0 <= i <= a.len(),
            forall|j: int| 0 <= j < i ==> ascii_lower(#[trigger] a@[j]) == ascii_lower(b@[j]),
        decreases a.len() - i,
    {
        if ascii_lower_char(a[i]) != ascii_lower_char(b[i]) {
            return false;
        }
        i += 1;
    }
    true
}

// ---------------------------------------------------------------------------
// Lines
// ---------------------------------------------------------------------------

/// `s` without one trailing carriage return.
pub open spec fn strip_cr(s: Seq<char>) -> Seq<char> {
    if s.len() > 0 && s.last() == '\r' {
        s.drop_last()
    } else {
        s
    }
}

/// The finished lines and the line being read, after reading `s`.
pub open spec fn lines_fold(s: Seq<char>) -> (Seq<Seq<char>>, Seq<char>)
    decreases s.len(),
{
    if s.len() == 0 {
        (Seq::empty(), Seq::empty())
    } else {
        let prev = lines_fold(s.drop_last());
        if s.last() == '\n' {
            (prev.0.push(strip_cr(prev.1)), Seq::empty())
        } else {
            (prev.0, prev.1.push(s.last()))
        }
    }
}

/// `str::lines`: the text split at `\n`, a `\r` before each `\n` dropped, and
/// no empty line after a final `\n`.
pub open spec fn lines(s: Seq<char>) -> Seq<Seq<char>> {
    let f = lines_fold(s);
    if f.1.len() > 0 {
        f.0.push(f.1)
    } else {
        f.0
    }
}

/// `str::lines` on a character vector.
pub fn split_lines(s: &Vec<char>) -> (r: Vec<Vec<char>>)
    ensures
        views(r@) == lines(s@),
{
    let mut done: Vec<Vec<char>> = Vec::new();
    let mut cur: Vec<char> = Vec::new();
    let mut i: usize = 0;
    while i < s.len()
        invariant
            0 <= i <= s.len(),
            (views(done@), cur@) == lines_fold(s@.take(i as int)),
        decreases s.len() - i,
    {
        let c = s[i];
        assert(s@.take(i + 1).drop_last() =~= s@.take(i as int));
        assert(s@.take(i + 1).last() == c);
        if c == '\n' {
            let ghost old_done = views(done@);
            let ghost old_cur = cur@;
            if cur.len() > 0 && cur[cur.len() - 1] == '\r' {
                cur.pop();
            }
            assert(cur@ == strip_cr(old_cur));
            let w = cur;
            done.push(w);
            cur = Vec::new();
            assert(views(done@) =~= old_done.push(w@));
        } else {
            cur.push(c);
        }
        i += 1;
    }
    assert(s@.take(s.len() as int) =~= s@);
    if cur.len() > 0 {
        let ghost old_done = views(done@);
        let w = cur;
        done.push(w);
        assert(views(done@) =~= old_done.push(w@));
    }
    done
}

// ---------------------------------------------------------------------------
// Integers
// ---------------------------------------------------------------------------

pub open spec fn digit_value(c: char) -> int {
    (c as int) - ('0' as int)
}

/// The number that a string of decimal digits denotes.
pub open spec fn digits_value(s: Seq<char>) -> int
    decreases s.len(),
{
    if s.len() == 0 {
        0
    } else {
        digits_value(s.drop_last()) * 10 + digit_value(s.last())
    }
}

pub proof fn lemma_digits_value_nonneg(s: Seq<char>)
    requires
        all_digits(s),
    ensures
        digits_value(s) >= 0,
    decreases s.len(),
{
    if s.len() > 0 {
        lemma_digits_value_nonneg(s.drop_last());
    }
}

/// The digits that `u32::from_str` and its unsigned siblings read: `s`
/// without one leading `+`.
pub open spec fn unsigned_digits(s: Seq<char>) -> Seq<char> {
    if s.len() > 0 && s[0] == '+' {
        s.drop_first()
    } else {
        s
    }
}

/// What `from_str` for an unsigned integer type with maximum `max` returns:
/// an optional `+`, then at least one ASCII digit, with a value up to `max`.
pub open spec fn parse_unsigned(s: Seq<char>, max: int) -> Option<int> {
    let d = unsigned_digits(s);
    if d.len() > 0 && all_digits(d) && digits_value(d) <= max {
        Some(digits_value(d))
    } else {
        None
    }
}

pub proof fn lemma_parse_unsigned_range(s: Seq<char>, max: int)
    ensures
        parse_unsigned(s, max) matches Some(n) ==> 0 <= n <= max,
{
    if parse_unsigned(s, max) is Some {
        lemma_digits_value_nonneg(unsigned_digits(s));
    }
}

/// Reads an unsigned decimal number up to `max`, as `from_str` does.
pub fn parse_unsigned_chars(s: &Vec<char>, max: u64) -> (r: Option<u64>)
    ensures
        match parse_unsigned(s@, max as int) {
            Some(v) => r is Some && r->0 as int == v,
            None => r is None,
        },
{
    let mut start: usize = 0;
    if s.len() > 0 && s[0] == '+' {
        start = 1;
    }
    let ghost d = unsigned_digits(s@);
    assert(d =~= s@.skip(start as int));
    if start >= s.len() {
        return None;
    }
    let mut value: u64 = 0;
    let mut i: usize = start;
    while i < s.len()
        invariant
            start <= i <= s.len(),
            d == s@.skip(start as int),
            d == unsigned_digits(s@),
            start < s.len(),
            d.take(i - start) == s@.subrange(start as int, i as int),
            all_digits(d.take(i - start)),
            value as int == digits_value(d.take(i - start)),
            value <= max,
        decreases s.len() - i,
    {
        let c = s[i];
        let ghost k = i - start;
        assert(d.take(k + 1).drop_last() =~= d.take(k));
        assert(d.take(k + 1).last() == c);
        assert(d[k] == c);
        if !is_digit_char(c) {
            assert(!all_digits(d));
            return None;
        }
        let dv: u64 = (c as u32 - '0' as u32) as u64;
        let next: u128 = value as u128 * 10 + dv as u128;
        if next > max as u128 {
            proof {
                assert(all_digits(d.take(k + 1)));
                assert(digits_value(d.take(k + 1)) == next);
                lemma_digits_prefix_bound(d, k + 1);
            }
            return None;
        }
        value = next as u64;
        i += 1;
        assert(d.take(i - start) =~= s@.subrange(start as int, i as int));
    }
    assert(d.take(i - start) =~= d);
    Some(value)
}

/// A longer digit string denotes at least as large a number as its prefixes.
proof fn lemma_digits_prefix_bound(d: Seq<char>, k: int)
    requires
        0 <= k <= d.len(),
        all_digits(d.take(k)) || !all_digits(d),
    ensures
        all_digits(d) ==> digits_value(d) >= digits_value(d.take(k)),
    decreases d.len() - k,
{
    if all_digits(d) && k < d.len() {
        assert(all_digits(d.take(k + 1)));
        lemma_digits_prefix_bound(d, k + 1);
        assert(d.take(k + 1).drop_last() =~= d.take(k));
        lemma_digits_value_nonneg(d.take(k));
    }
    if k == d.len() {
        assert(d.take(k) =~= d);
    }
}


// ---------------------------------------------------------------------------
// Ordered sets of strings
// ---------------------------------------------------------------------------

/// Lexicographic order on code points, which is the order of `String`
/// (UTF-8 preserves the order of code points byte by byte).
pub open spec fn lex_lt(a: Seq<char>, b: Seq<char>) -> bool
    decreases a.len(),
{
    if a.len() == 0 {
        b.len() > 0
    } else if b.len() == 0 {
        false
    } else if a[0] != b[0] {
        a[0] < b[0]
    } else {
        lex_lt(a.drop_first(), b.drop_first())
    }
}

pub proof fn lemma_lex_irreflexive(a: Seq<char>)
    ensures
        !lex_lt(a, a),
    decreases a.len(),
{
    if a.len() > 0 {
        lemma_lex_irreflexive(a.drop_first());
    }
}

pub proof fn lemma_lex_transitive(a: Seq<char>, b: Seq<char>, c: Seq<char>)
    requires
        lex_lt(a, b),
        lex_lt(b, c),
    ensures
        lex_lt(a, c),
    decreases a.len(),
{
    if a.len() > 0 && b.len() > 0 && c.len() > 0 {
        if a[0] == b[0] && b[0] == c[0] {
            lemma_lex_transitive(a.drop_first(), b.drop_first(), c.drop_first());
        }
    }
}

pub proof fn lemma_lex_total(a: Seq<char>, b: Seq<char>)
    ensures
        a != b ==> lex_lt(a, b) || lex_lt(b, a),
        lex_lt(a, b) ==> !lex_lt(b, a),
    decreases a.len(),
{
    if a.len() > 0 && b.len() > 0 && a[0] == b[0] {
        lemma_lex_total(a.drop_first(), b.drop_first());
        if a != b {
            assert(a =~= seq![a[0]] + a.drop_first());
            assert(b =~= seq![b[0]] + b.drop_first());
        }
    } else if a.len() == 0 && b.len() == 0 {
        assert(a =~= b);
    }
}

/// Strictly increasing in `lex_lt`, as a `BTreeSet<String>` is walked.
pub open spec fn sorted_strict(s: Seq<Seq<char>>) -> bool {
    forall|i: int, j: int| 0 <= i < j < s.len() ==> lex_lt(#[trigger] s[i], #[trigger] s[j])
}

pub fn lex_less(a: &Vec<char>, b: &Vec<char>) -> (r: bool)
    ensures
        r == lex_lt(a@, b@),
{
    let mut i: usize = 0;
    assert(a@.skip(0) =~= a@);
    assert(b@.skip(0) =~= b@);
    while i < a.len() && i < b.len()
        invariant
            0 <= i <= a.len(),
            i <= b.len(),
            lex_lt(a@, b@) == lex_lt(a@.skip(i as int), b@.skip(i as int)),
        decreases a.len() - i,
    {
        assert(a@.skip(i as int)[0] == a@[i as int]);
        assert(b@.skip(i as int)[0] == b@[i as int]);
        if a[i] != b[i] {
            return a[i] < b[i];
        }
        assert(a@.skip(i as int).drop_first() =~= a@.skip(i + 1));
        assert(b@.skip(i as int).drop_first() =~= b@.skip(i + 1));
        i += 1;
    }
    i < b.len()
}

/// Inserts `x` into a strictly sorted list unless it is already there
/// (`BTreeSet::insert`).
pub fn sorted_insert(v: &mut Vec<Vec<char>>, x: Vec<char>)
    requires
        sorted_strict(views(old(v)@)),
    ensures
        sorted_strict(views(final(v)@)),
        views(final(v)@).to_set() == views(old(v)@).to_set().insert(x@),
{
    let ghost old_v = views(v@);
    let mut i: usize = 0;
    while i < v.len() && lex_less(&v[i], &x)
        invariant
            0 <= i <= v.len(),
            views(v@) == old_v,
            forall|j: int| 0 <= j < i ==> lex_lt(#[trigger] old_v[j], x@),
        decreases v.len() - i,
    {
        i += 1;
    }
    if i < v.len() && eq_chars(&v[i], &x) {
        assert(old_v.to_set().insert(x@) =~= old_v.to_set()) by {
            assert(old_v[i as int] == x@);
        }
        return;
    }
    proof {
        if i < v.len() {
            lemma_lex_total(old_v[i as int], x@);
        }
    }
    v.insert(i, x);
    proof {
        let nv = views(v@);
        assert(nv =~= old_v.insert(i as int, x@));
        assert forall|a: int, b: int| 0 <= a < b < nv.len() implies lex_lt(
            #[trigger] nv[a],
            #[trigger] nv[b],
        ) by {
            if b < i {
                assert(lex_lt(old_v[a], old_v[b]));
            } else if b == i {
                assert(lex_lt(old_v[a], x@));
            } else if a == i {
                if b - 1 > i {
                    assert(lex_lt(old_v[i as int], old_v[b - 1]));
                    lemma_lex_transitive(x@, old_v[i as int], old_v[b - 1]);
                }
            } else if a < i {
                assert(lex_lt(old_v[a], x@));
                lemma_lex_total(old_v[i as int], x@);
                if b - 1 > i {
                    assert(lex_lt(old_v[i as int], old_v[b - 1]));
                    lemma_lex_transitive(x@, old_v[i as int], old_v[b - 1]);
                }
                lemma_lex_transitive(old_v[a], x@, old_v[b - 1]);
            } else {
                assert(lex_lt(old_v[a - 1], old_v[b - 1]));
            }
        }
        assert(nv.to_set() =~= old_v.to_set().insert(x@)) by {
            assert forall|y: Seq<char>| nv.to_set().contains(y) implies old_v.to_set().insert(
                x@,
            ).contains(y) by {
                let k = choose|k: int| 0 <= k < nv.len() && nv[k] == y;
                if k < i {
                    assert(old_v[k] == y);
                } else if k > i {
                    assert(old_v[k - 1] == y);
                }
            }
            assert forall|y: Seq<char>| old_v.to_set().insert(x@).contains(y) implies nv.to_set().contains(
                y,
            ) by {
                if y == x@ {
                    assert(nv[i as int] == y);
                } else {
                    let k = choose|k: int| 0 <= k < old_v.len() && old_v[k] == y;
                    if k < i {
                        assert(nv[k] == y);
                    } else {
                        assert(nv[k + 1] == y);
                    }
                }
            }
        }
    }
}


// ---------------------------------------------------------------------------
// Leading and trailing runs
// ---------------------------------------------------------------------------

/// The length of the longest prefix of `s` whose characters all satisfy `p`.
pub open spec fn lead_len(s: Seq<char>, p: spec_fn(char) -> bool) -> nat
    decreases s.len(),
{
    if s.len() > 0 && p(s[0]) {
        1 + lead_len(s.drop_first(), p)
    } else {
        0
    }
}

/// The length of the longest suffix of `s` whose characters all satisfy `p`.
pub open spec fn trail_len(s: Seq<char>, p: spec_fn(char) -> bool) -> nat
    decreases s.len(),
{
    if s.len() > 0 && p(s.last()) {
        1 + trail_len(s.drop_last(), p)
    } else {
        0
    }
}

pub proof fn lemma_lead_len(s: Seq<char>, p: spec_fn(char) -> bool, i: int)
    requires
        0 <= i <= s.len(),
        forall|j: int| 0 <= j < i ==> p(#[trigger] s[j]),
        i == s.len() || !p(s[i]),
    ensures
        lead_len(s, p) == i,
    decreases i,
{
    if i > 0 {
        lemma_lead_len(s.drop_first(), p, i - 1);
    }
}

pub proof fn lemma_trail_len(s: Seq<char>, p: spec_fn(char) -> bool, i: int)
    requires
        0 <= i <= s.len(),
        forall|j: int| s.len() - i <= j < s.len() ==> p(#[trigger] s[j]),
        i == s.len() || !p(s[s.len() - 1 - i]),
    ensures
        trail_len(s, p) == i,
    decreases i,
{
    if i > 0 {
        assert forall|j: int| s.drop_last().len() - (i - 1) <= j < s.drop_last().len() implies p(
            #[trigger] s.drop_last()[j],
        ) by {
            assert(s.drop_last()[j] == s[j]);
        }
        if i - 1 < s.drop_last().len() {
            assert(s.drop_last()[s.drop_last().len() - 1 - (i - 1)] == s[s.len() - 1 - i]);
        }
        lemma_trail_len(s.drop_last(), p, i - 1);
    }
}

pub open spec fn is_ascii_ws(c: char) -> bool {
    c == ' ' || c == '\t' || c == '\n' || c == '\u{c}' || c == '\r'
}

/// `s` without every trailing occurrence of a non-empty pattern `p`
/// (`str::trim_end_matches` with a string pattern).
pub open spec fn trim_end_pat(s: Seq<char>, p: Seq<char>) -> Seq<char>
    decreases s.len(),
{
    if p.len() > 0 && ends_with(s, p) {
        trim_end_pat(s.take(s.len() - p.len()), p)
    } else {
        s
    }
}

/// `str::trim_end_matches` with a non-empty string pattern.
pub fn trim_end_pat_chars(s: &Vec<char>, p: &Vec<char>) -> (r: Vec<char>)
    requires
        p.len() > 0,
    ensures
        r@ == trim_end_pat(s@, p@),
    decreases s.len(),
{
    if ends_with_chars(s, p) {
        let shorter = slice_chars(s, 0, s.len() - p.len());
        assert(shorter@ =~= s@.take(s.len() - p.len()));
        trim_end_pat_chars(&shorter, p)
    } else {
        copy_chars(s)
    }
}


// ---------------------------------------------------------------------------
// Word positions
// ---------------------------------------------------------------------------

/// The spans found so far and the start of the word being read (or -1),
/// after reading `s`.
pub open spec fn spans_fold(s: Seq<char>) -> (Seq<(int, int)>, int)
    decreases s.len(),
{
    if s.len() == 0 {
        (Seq::empty(), -1)
    } else {
        let prev = spans_fold(s.drop_last());
        let i = s.len() - 1;
        if is_ws(s.last()) {
            if prev.1 >= 0 {
                (prev.0.push((prev.1, i)), -1)
            } else {
                prev
            }
        } else if prev.1 >= 0 {
            prev
        } else {
            (prev.0, i)
        }
    }
}

/// The start and end index of each maximal run of non-white-space
/// characters of `s`, in order.
pub open spec fn spans(s: Seq<char>) -> Seq<(int, int)> {
    let f = spans_fold(s);
    if f.1 >= 0 {
        f.0.push((f.1, s.len() as int))
    } else {
        f.0
    }
}

/// Word positions moved right by `off`.
pub open spec fn shifted(sp: Seq<(int, int)>, off: int) -> Seq<(int, int)> {
    sp.map_values(|p: (int, int)| (p.0 + off, p.1 + off))
}

proof fn lemma_fold_open_after_word(a: Seq<char>)
    requires
        a.len() > 0,
        !is_ws(a.last()),
    ensures
        spans_fold(a).1 >= 0,
{
}

/// The words of `a`, a space, and `b`: those of `a` (which ends in a word
/// character), then those of `b` moved past the space.
pub proof fn lemma_spans_after_space(a: Seq<char>, b: Seq<char>)
    requires
        a.len() > 0,
        !is_ws(a.last()),
    ensures
        spans(a + seq![' '] + b) == spans(a) + shifted(spans(b), a.len() as int + 1),
{
    lemma_fold_after_space(a, b);
    let off: int = a.len() as int + 1;
    let fb = spans_fold(b);
    if fb.1 >= 0 {
        assert(shifted(fb.0.push((fb.1, b.len() as int)), off) =~= shifted(fb.0, off).push(
            (fb.1 + off, b.len() as int + off),
        ));
        assert(spans(a) + shifted(fb.0, off).push((fb.1 + off, b.len() as int + off)) =~= (spans(a) + shifted(
            fb.0,
            off,
        )).push((fb.1 + off, (a + seq![' '] + b).len() as int)));
    }
}

proof fn lemma_fold_after_space(a: Seq<char>, b: Seq<char>)
    requires
        a.len() > 0,
        !is_ws(a.last()),
    ensures
        spans_fold(a + seq![' '] + b).0 == spans(a) + shifted(spans_fold(b).0, a.len() as int + 1),
        spans_fold(a + seq![' '] + b).1 == if spans_fold(b).1 >= 0 {
            spans_fold(b).1 + a.len() + 1
        } else {
            -1
        },
    decreases b.len(),
{
    let off: int = a.len() as int + 1;
    let s = a + seq![' '] + b;
    if b.len() == 0 {
        lemma_fold_open_after_word(a);
        assert(s.drop_last() =~= a);
        assert(shifted(Seq::<(int, int)>::empty(), off) =~= Seq::<(int, int)>::empty());
        assert(spans(a) + Seq::<(int, int)>::empty() =~= spans(a));
    } else {
        assert(s.drop_last() =~= a + seq![' '] + b.drop_last());
        lemma_fold_after_space(a, b.drop_last());
        let pb = spans_fold(b.drop_last());
        let ib: int = b.len() - 1;
        assert(s.last() == b.last());
        assert(s.len() - 1 == ib + off);
        if is_ws(b.last()) && pb.1 >= 0 {
            assert(shifted(pb.0.push((pb.1, ib)), off) =~= shifted(pb.0, off).push((pb.1 + off, ib + off)));
            assert(spans(a) + shifted(pb.0, off).push((pb.1 + off, ib + off)) =~= (spans(a) + shifted(
                pb.0,
                off,
            )).push((pb.1 + off, ib + off)));
        }
    }
}

proof fn lemma_fold_of_word(w: Seq<char>)
    requires
        w.len() > 0,
        forall|i: int| 0 <= i < w.len() ==> !is_ws(#[trigger] w[i]),
    ensures
        spans_fold(w) == (Seq::<(int, int)>::empty(), 0int),
    decreases w.len(),
{
    assert(!is_ws(w[w.len() - 1]));
    if w.len() > 1 {
        assert forall|i: int| 0 <= i < w.drop_last().len() implies !is_ws(#[trigger] w.drop_last()[i]) by {
            assert(w.drop_last()[i] == w[i]);
        }
        lemma_fold_of_word(w.drop_last());
    } else {
        assert(w.drop_last() =~= Seq::<char>::empty());
        assert(spans_fold(w.drop_last()) == (Seq::<(int, int)>::empty(), -1int));
    }
}

/// A word without white space is one word, the whole of it.
pub proof fn lemma_spans_of_word(w: Seq<char>)
    requires
        w.len() > 0,
        forall|i: int| 0 <= i < w.len() ==> !is_ws(#[trigger] w[i]),
    ensures
        spans(w) == seq![(0int, w.len() as int)],
{
    lemma_fold_of_word(w);
    assert(Seq::<(int, int)>::empty().push((0int, w.len() as int)) =~= seq![(0int, w.len() as int)]);
}

proof fn lemma_fold_first_word(x: Seq<char>)
    requires
        x.len() > 0,
        !is_ws(x[0]),
    ensures
        (spans_fold(x).0.len() > 0 && spans_fold(x).0[0].0 == 0) || (spans_fold(x).0.len() == 0
            && spans_fold(x).1 == 0),
    decreases x.len(),
{
    if x.len() > 1 {
        assert(x.drop_last()[0] == x[0]);
        lemma_fold_first_word(x.drop_last());
        let prev = spans_fold(x.drop_last());
        if prev.0.len() > 0 {
            assert(prev.0.push((prev.1, x.len() - 1))[0] == prev.0[0]);
        } else {
            assert(prev.0.push((prev.1, x.len() - 1))[0] == (prev.1, x.len() - 1));
        }
    } else {
        assert(x.drop_last() =~= Seq::<char>::empty());
        assert(spans_fold(x.drop_last()) == (Seq::<(int, int)>::empty(), -1int));
        assert(x.last() == x[0]);
    }
}

/// A text that begins and ends with a word character has words, the first
/// starting at its start and the last ending at its end.
pub proof fn lemma_spans_cover(x: Seq<char>)
    requires
        x.len() > 0,
        !is_ws(x[0]),
        !is_ws(x.last()),
    ensures
        spans(x).len() >= 1,
        spans(x)[0].0 == 0,
        spans(x).last().1 == x.len(),
{
    lemma_fold_first_word(x);
    lemma_fold_open_after_word(x);
}

/// Spans inside `0..len`, non-empty, strictly ordered, separated by white
/// space and made of non-white-space characters.
pub open spec fn spans_wf(s: Seq<char>, sp: Seq<(int, int)>) -> bool {
    &&& forall|k: int| 0 <= k < sp.len() ==> 0 <= (#[trigger] sp[k]).0 < sp[k].1 <= s.len()
    &&& forall|j: int, k: int| 0 <= j < k < sp.len() ==> (#[trigger] sp[j]).1 < (#[trigger] sp[k]).0
}

proof fn lemma_spans_fold_wf(s: Seq<char>)
    ensures
        spans_wf(s, spans_fold(s).0),
        spans_fold(s).1 >= 0 ==> spans_fold(s).1 < s.len(),
        spans_fold(s).1 >= 0 ==> forall|k: int|
            0 <= k < spans_fold(s).0.len() ==> (#[trigger] spans_fold(s).0[k]).1 < spans_fold(s).1,
        forall|k: int|
            0 <= k < spans_fold(s).0.len() ==> (#[trigger] spans_fold(s).0[k]).1 < s.len(),
    decreases s.len(),
{
    if s.len() > 0 {
        lemma_spans_fold_wf(s.drop_last());
    }
}

pub proof fn lemma_spans_wf(s: Seq<char>)
    ensures
        spans_wf(s, spans(s)),
{
    lemma_spans_fold_wf(s);
}

/// The `k`-th word of `s`.
pub open spec fn tok(s: Seq<char>, sp: Seq<(int, int)>, k: int) -> Seq<char> {
    s.subrange(sp[k].0, sp[k].1)
}

/// The text from the start of word `a` to the end of word `b - 1`.
pub open spec fn raw(s: Seq<char>, sp: Seq<(int, int)>, a: int, b: int) -> Seq<char> {
    s.subrange(sp[a].0, sp[b - 1].1)
}

/// The word positions of a character vector.
pub fn word_spans(s: &Vec<char>) -> (r: Vec<(usize, usize)>)
    ensures
        r@.len() == spans(s@).len(),
        forall|k: int|
            0 <= k < r@.len() ==> (#[trigger] r@[k]).0 as int == spans(s@)[k].0 && r@[k].1 as int
                == spans(s@)[k].1,
        spans_wf(s@, spans(s@)),
        sp_int(r@) == spans(s@),
{
    let mut done: Vec<(usize, usize)> = Vec::new();
    let mut cur: Option<usize> = None;
    let mut i: usize = 0;
    while i < s.len()
        invariant
            0 <= i <= s.len(),
            done@.len() == spans_fold(s@.take(i as int)).0.len(),
            forall|k: int|
                0 <= k < done@.len() ==> (#[trigger] done@[k]).0 as int == spans_fold(
                    s@.take(i as int),
                ).0[k].0 && done@[k].1 as int == spans_fold(s@.take(i as int)).0[k].1,
            match cur {
                Some(c) => spans_fold(s@.take(i as int)).1 == c as int,
                None => spans_fold(s@.take(i as int)).1 == -1,
            },
        decreases s.len() - i,
    {
        let c = s[i];
        assert(s@.take(i + 1).drop_last() =~= s@.take(i as int));
        assert(s@.take(i + 1).last() == c);
        if is_ws_char(c) {
            match cur {
                Some(st) => {
                    done.push((st, i));
                    cur = None;
                },
                None => {},
            }
        } else {
            match cur {
                Some(_) => {},
                None => {
                    cur = Some(i);
                },
            }
        }
        i += 1;
    }
    assert(s@.take(s.len() as int) =~= s@);
    match cur {
        Some(st) => {
            done.push((st, s.len()));
        },
        None => {},
    }
    proof {
        lemma_spans_wf(s@);
        assert(sp_int(done@) =~= spans(s@));
    }
    done
}

/// Word positions as integers.
pub open spec fn sp_int(sp: Seq<(usize, usize)>) -> Seq<(int, int)> {
    sp.map_values(|p: (usize, usize)| (p.0 as int, p.1 as int))
}

/// The `k`-th word.
pub fn tok_at(s: &Vec<char>, sp: &Vec<(usize, usize)>, k: usize) -> (r: Vec<char>)
    requires
        sp_int(sp@) == spans(s@),
        spans_wf(s@, spans(s@)),
        k < sp@.len(),
    ensures
        r@ == tok(s@, spans(s@), k as int),
{
    assert(sp_int(sp@)[k as int] == spans(s@)[k as int]);
    slice_chars(s, sp[k].0, sp[k].1)
}

/// The text from the start of word `a` to the end of word `b - 1`.
pub fn raw_at(s: &Vec<char>, sp: &Vec<(usize, usize)>, a: usize, b: usize) -> (r: Vec<char>)
    requires
        sp_int(sp@) == spans(s@),
        spans_wf(s@, spans(s@)),
        a < b <= sp@.len(),
    ensures
        r@ == raw(s@, spans(s@), a as int, b as int),
{
    assert(sp_int(sp@)[a as int] == spans(s@)[a as int]);
    assert(sp_int(sp@)[b - 1] == spans(s@)[b - 1]);
    if a < b - 1 {
        assert(spans(s@)[a as int].1 < spans(s@)[b - 1].0);
    }
    slice_chars(s, sp[a].0, sp[b - 1].1)
}

// ---------------------------------------------------------------------------
// Decimal numbers
// ---------------------------------------------------------------------------

/// The decimal digit character of `d` (0 to 9).
pub open spec fn digit_char(d: int) -> char {
    (d + 48) as char
}

/// The decimal notation of `n` (`u64::to_string`).
pub open spec fn decimal(n: nat) -> Seq<char>
    decreases n,
{
    if n < 10 {
        seq![digit_char(n as int)]
    } else {
        decimal(n / 10).push(digit_char((n % 10) as int))
    }
}

/// The decimal notation of a number.
pub fn decimal_chars(n: u64) -> (r: Vec<char>)
    ensures
        r@ == decimal(n as nat),
    decreases n,
{
    let d: u8 = (n % 10) as u8 + 48u8;
    let c = d as char;
    if n < 10 {
        let r = vec![c];
        assert(r@ =~= seq![digit_char(n as int)]);
        r
    } else {
        let mut r = decimal_chars(n / 10);
        r.push(c);
        r
    }
}

/// The decimal notation of a signed number (`i64::to_string`).
pub open spec fn signed_decimal(i: int) -> Seq<char> {
    if i < 0 {
        seq!['-'] + decimal((-i) as nat)
    } else {
        decimal(i as nat)
    }
}

pub fn signed_decimal_chars(i: i64) -> (r: Vec<char>)
    ensures
        r@ == signed_decimal(i as int),
{
    if i < 0 {
        let magnitude: u64 = (0i128 - i as i128) as u64;
        let mut r = vec!['-'];
        let digits = decimal_chars(magnitude);
        append_chars(&mut r, &digits);
        assert(r@ =~= seq!['-'] + decimal((-i) as nat));
        r
    } else {
        decimal_chars(i as u64)
    }
}

// ---------------------------------------------------------------------------
// Splitting at a character
// ---------------------------------------------------------------------------

/// `str::split` at a character: the parts between its occurrences, empty
/// ones included; always at least one part.
pub open spec fn split_at_char(s: Seq<char>, c: char) -> Seq<Seq<char>>
    decreases s.len(),
{
    if s.len() == 0 {
        seq![Seq::empty()]
    } else {
        let prev = split_at_char(s.drop_last(), c);
        if s.last() == c {
            prev.push(Seq::empty())
        } else {
            prev.update(prev.len() - 1, prev.last().push(s.last()))
        }
    }
}

pub proof fn lemma_split_at_char_len(s: Seq<char>, c: char)
    ensures
        split_at_char(s, c).len() >= 1,
    decreases s.len(),
{
    if s.len() > 0 {
        lemma_split_at_char_len(s.drop_last(), c);
    }
}

/// `str::split` at a character.
pub fn split_char(s: &Vec<char>, c: char) -> (r: Vec<Vec<char>>)
    ensures
        views(r@) == split_at_char(s@, c),
{
    let mut done: Vec<Vec<char>> = Vec::new();
    let mut cur: Vec<char> = Vec::new();
    let mut i: usize = 0;
    while i < s.len()
        invariant
            0 <= i <= s.len(),
            views(done@).push(cur@) == split_at_char(s@.take(i as int), c),
        decreases s.len() - i,
    {
        proof {
            lemma_split_at_char_len(s@.take(i as int), c);
        }
        assert(s@.take(i + 1).drop_last() =~= s@.take(i as int));
        assert(s@.take(i + 1).last() == s@[i as int]);
        let ghost old_done = views(done@);
        let ghost old_cur = cur@;
        if s[i] == c {
            let finished = cur;
            done.push(finished);
            cur = Vec::new();
            assert(views(done@) =~= old_done.push(old_cur));
            assert(views(done@).push(cur@) =~= old_done.push(old_cur).push(Seq::empty()));
        } else {
            cur.push(s[i]);
            assert(views(done@).push(cur@) =~= old_done.push(old_cur).update(
                old_done.len() as int,
                old_cur.push(s@[i as int]),
            ));
        }
        i += 1;
    }
    assert(s@.take(i as int) =~= s@);
    let ghost old_done = views(done@);
    done.push(cur);
    assert(views(done@) =~= old_done.push(cur@));
    done
}

// ---------------------------------------------------------------------------
// Hexadecimal digits
// ---------------------------------------------------------------------------

/// An uppercase hexadecimal digit.
pub open spec fn hex_upper(n: int) -> char {
    if n < 10 {
        (48 + n) as char
    } else {
        (55 + n) as char
    }
}

// ---------------------------------------------------------------------------
// Signed numbers and repeated affixes
// ---------------------------------------------------------------------------

/// What `i64::from_str` returns: an optional sign, then at least one ASCII
/// digit, with a value in range.
pub open spec fn parse_i64(s: Seq<char>) -> Option<i64> {
    if s.len() > 0 && s[0] == '-' {
        let d = s.drop_first();
        if d.len() > 0 && all_digits(d) && digits_value(d) <= 0x8000_0000_0000_0000 {
            Some((0 - digits_value(d)) as i64)
        } else {
            None
        }
    } else {
        let d = unsigned_digits(s);
        if d.len() > 0 && all_digits(d) && digits_value(d) <= i64::MAX {
            Some(digits_value(d) as i64)
        } else {
            None
        }
    }
}

/// Reads a signed decimal number, as `i64::from_str` does.
pub fn parse_i64_chars(s: &Vec<char>) -> (r: Option<i64>)
    ensures
        r == parse_i64(s@),
{
    if s.len() > 0 && s[0] == '-' {
        let d = slice_chars(s, 1, s.len());
        assert(d@ =~= s@.drop_first());
        assert(unsigned_digits(d@) == d@ || (d@.len() > 0 && d@[0] == '+'));
        if d.len() == 0 || d[0] == '+' {
            return None;
        }
        assert(unsigned_digits(d@) == d@);
        match parse_unsigned_chars(&d, 0x8000_0000_0000_0000u64) {
            Some(v) => {
                proof {
                    lemma_digits_value_nonneg(d@);
                }
                if v == 0x8000_0000_0000_0000u64 {
                    Some(i64::MIN)
                } else {
                    Some(0 - (v as i64))
                }
            },
            None => None,
        }
    } else {
        match parse_unsigned_chars(s, 0x7fff_ffff_ffff_ffffu64) {
            Some(v) => Some(v as i64),
            None => None,
        }
    }
}

/// `s` with every leading repetition of `p` removed (`str::trim_start_matches`).
pub open spec fn strip_prefixes(s: Seq<char>, p: Seq<char>) -> Seq<char>
    decreases s.len(),
{
    if p.len() > 0 && starts_with(s, p) {
        strip_prefixes(s.skip(p.len() as int), p)
    } else {
        s
    }
}

/// `s` with every trailing repetition of `p` removed (`str::trim_end_matches`).
pub open spec fn strip_suffixes(s: Seq<char>, p: Seq<char>) -> Seq<char>
    decreases s.len(),
{
    if p.len() > 0 && ends_with(s, p) {
        strip_suffixes(s.take(s.len() - p.len()), p)
    } else {
        s
    }
}

pub fn strip_prefixes_chars(s: &Vec<char>, p: &Vec<char>) -> (r: Vec<char>)
    ensures
        r@ == strip_prefixes(s@, p@),
{
    let mut cur = copy_chars(s);
    while p.len() > 0 && starts_with_chars(&cur, p)
        invariant
            strip_prefixes(s@, p@) == strip_prefixes(cur@, p@),
        decreases cur.len(),
    {
        let ghost before = cur@;
        cur = slice_chars(&cur, p.len(), cur.len());
        assert(cur@ =~= before.skip(p@.len() as int));
    }
    cur
}

pub fn strip_suffixes_chars(s: &Vec<char>, p: &Vec<char>) -> (r: Vec<char>)
    ensures
        r@ == strip_suffixes(s@, p@),
{
    let mut cur = copy_chars(s);
    while p.len() > 0 && ends_with_chars(&cur, p)
        invariant
            strip_suffixes(s@, p@) == strip_suffixes(cur@, p@),
        decreases cur.len(),
    {
        let ghost before = cur@;
        cur = slice_chars(&cur, 0, cur.len() - p.len());
        assert(cur@ =~= before.take(before.len() - p@.len()));
    }
    cur
}

// ---------------------------------------------------------------------------
// The ascending sequence of a set of texts
// ---------------------------------------------------------------------------

/// Two strictly ascending sequences with the same elements are equal: the
/// order in which a set of texts is walked is fixed by the texts.
pub proof fn lemma_sorted_unique(a: Seq<Seq<char>>, b: Seq<Seq<char>>)
    requires
        sorted_strict(a),
        sorted_strict(b),
        a.to_set() == b.to_set(),
    ensures
        a == b,
    decreases a.len(),
{
    if a.len() == 0 {
        if b.len() > 0 {
            assert(b.to_set().contains(b[0]));
            assert(a.to_set().contains(b[0]));
        }
        assert(a =~= b);
    } else if b.len() == 0 {
        assert(a.to_set().contains(a[0]));
        assert(b.to_set().contains(a[0]));
    } else {
        // the first elements are both the least element of the set
        assert(a.to_set().contains(a[0]));
        assert(b.to_set().contains(a[0]));
        assert(b.to_set().contains(b[0]));
        assert(a.to_set().contains(b[0]));
        let ia = choose|i: int| 0 <= i < b.len() && b[i] == a[0];
        let ib = choose|i: int| 0 <= i < a.len() && a[i] == b[0];
        if a[0] != b[0] {
            assert(ia > 0 && ib > 0);
            assert(lex_lt(b[0], b[ia]));
            assert(lex_lt(a[0], a[ib]));
            lemma_lex_total(a[0], b[0]);
        }
        assert(a[0] == b[0]);
        let ta = a.drop_first();
        let tb = b.drop_first();
        assert(sorted_strict(ta)) by {
            assert forall|i: int, j: int| 0 <= i < j < ta.len() implies lex_lt(#[trigger] ta[i], #[trigger] ta[j]) by {
                assert(ta[i] == a[i + 1] && ta[j] == a[j + 1]);
            }
        }
        assert(sorted_strict(tb)) by {
            assert forall|i: int, j: int| 0 <= i < j < tb.len() implies lex_lt(#[trigger] tb[i], #[trigger] tb[j]) by {
                assert(tb[i] == b[i + 1] && tb[j] == b[j + 1]);
            }
        }
        assert(ta.to_set() =~= tb.to_set()) by {
            assert forall|x: Seq<char>| ta.to_set().contains(x) implies tb.to_set().contains(x) by {
                let i = choose|i: int| 0 <= i < ta.len() && ta[i] == x;
                assert(a[i + 1] == x);
                assert(a.to_set().contains(x));
                assert(b.to_set().contains(x));
                let k = choose|k: int| 0 <= k < b.len() && b[k] == x;
                if k == 0 {
                    assert(lex_lt(a[0], a[i + 1]));
                    lemma_lex_irreflexive(x);
                }
                assert(tb[k - 1] == x);
            }
            assert forall|x: Seq<char>| tb.to_set().contains(x) implies ta.to_set().contains(x) by {
                let i = choose|i: int| 0 <= i < tb.len() && tb[i] == x;
                assert(b[i + 1] == x);
                assert(b.to_set().contains(x));
                assert(a.to_set().contains(x));
                let k = choose|k: int| 0 <= k < a.len() && a[k] == x;
                if k == 0 {
                    assert(lex_lt(b[0], b[i + 1]));
                    lemma_lex_irreflexive(x);
                }
                assert(ta[k - 1] == x);
            }
        }
        lemma_sorted_unique(ta, tb);
        assert(a =~= seq![a[0]] + ta);
        assert(b =~= seq![b[0]] + tb);
    }
}

/// The elements of a finite set of texts in ascending order.
pub open spec fn ascending(s: Set<Seq<char>>) -> Seq<Seq<char>> {
    choose|q: Seq<Seq<char>>| sorted_strict(q) && q.to_set() == s
}

/// A strictly ascending sequence is the ascending sequence of its elements.
pub proof fn lemma_ascending(q: Seq<Seq<char>>)
    requires
        sorted_strict(q),
    ensures
        ascending(q.to_set()) == q,
{
    let s = q.to_set();
    assert(sorted_strict(q) && q.to_set() == s);
    let c = ascending(s);
    lemma_sorted_unique(c, q);
}

pub proof fn lemma_push_to_set<A>(s: Seq<A>, x: A)
    ensures
        s.push(x).to_set() == s.to_set().insert(x),
{
    assert forall|y: A| #[trigger] s.push(x).to_set().contains(y) implies s.to_set().insert(x).contains(y) by {
        let i = choose|i: int| 0 <= i < s.push(x).len() && s.push(x)[i] == y;
        if i < s.len() {
            assert(s[i] == y);
        }
    }
    assert forall|y: A| #[trigger] s.to_set().insert(x).contains(y) implies s.push(x).to_set().contains(y) by {
        if y == x {
            assert(s.push(x)[s.len() as int] == x);
        } else {
            let i = choose|i: int| 0 <= i < s.len() && s[i] == y;
            assert(s.push(x)[i] == y);
        }
    }
    assert(s.push(x).to_set() =~= s.to_set().insert(x));
}

} // verus!
