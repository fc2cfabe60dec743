//! PDF text: what an extraction yields and how it is judged.
use std::path::PathBuf;

use vstd::prelude::*;

use crate::text::{chars_of, is_ctrl, is_control_char};

verus! {

broadcast use vstd::string::group_string_axioms;

/// How text extraction treats a document.
#[derive(Debug, Clone)]
pub struct ExtractOptions {
    /// Documents with fewer characters of text are candidates for OCR.
    pub min_text_chars: usize,
}

impl Default for ExtractOptions {
    fn default() -> (r: Self)
        ensures
            r.min_text_chars == 80,
    {
        ExtractOptions { min_text_chars: 80 }
    }
}

/// The text of a PDF and what is known of the file.
#[derive(Debug, Clone)]
pub struct PdfDocument {
    pub source_path: PathBuf,
    pub file_size_bytes: u64,
    pub text: String,
    pub text_char_count: usize,
    pub needs_ocr: bool,
}

/// Extracts the text of PDFs with fixed options.
#[derive(Debug, Clone)]
pub struct PdfExtractor {
    options: ExtractOptions,
}

/// Whether text this short calls for OCR.
pub fn is_ocr_candidate(text_char_count: usize, min_text_chars: usize) -> (r: bool)
    ensures
        r == (text_char_count < min_text_chars),
{
    text_char_count < min_text_chars
}

/// Control characters that extracted text should not hold: all but line
/// feed, carriage return, tab and form feed.
pub open spec fn suspicious_char(c: char) -> bool {
    is_ctrl(c) && c != '\n' && c != '\r' && c != '\t' && c != '\u{c}'
}

/// Whether extracted text holds control characters that point to a broken
/// extraction.
pub fn has_suspicious_control_characters(text: &str) -> (r: bool)
    ensures
        r == exists|i: int| 0 <= i < text@.len() && suspicious_char(#[trigger] text@[i]),
{
    let mut found = false;
    for c in it: text.chars()
        invariant
            found == exists|i: int| 0 <= i < it.index() && suspicious_char(#[trigger] text@[i]),
            it.seq() == text@,
    {
        assert(it.seq()[it.index() as int] == c);
        if is_control_char(c) && c != '\n' && c != '\r' && c != '\t' && c != '\u{c}' {
            found = true;
        }
    }
    found
}

impl PdfExtractor {
    /// The minimum text length of the options.
    pub closed spec fn min_chars(&self) -> usize {
        self.options.min_text_chars
    }

    pub fn new(options: ExtractOptions) -> (r: Self)
        ensures
            r.min_chars() == options.min_text_chars,
    {
        PdfExtractor { options }
    }

    /// The minimum number of characters below which a document needs OCR.
    pub fn min_text_chars(&self) -> (r: usize)
        ensures
            r == self.min_chars(),
    {
        self.options.min_text_chars
    }

    /// The document made of the text finally extracted from a file: its
    /// length in characters and whether that is short enough to need OCR.
    pub fn document(&self, source_path: PathBuf, file_size_bytes: u64, text: String) -> (r:
        PdfDocument)
        ensures
            r.source_path == source_path,
            r.file_size_bytes == file_size_bytes,
            r.text@ == text@,
            r.text_char_count == text@.len(),
            r.needs_ocr == (text@.len() < self.min_chars()),
    {
        let count = chars_of(text.as_str()).len();
        PdfDocument {
            source_path,
            file_size_bytes,
            needs_ocr: is_ocr_candidate(count, self.options.min_text_chars),
            text,
            text_char_count: count,
        }
    }
}

} // verus!
