//! The bytes of a profile file: its lines, and the entries that they give.

use crate::line::{lemma_parsed_are_words, parse_line, parse_line_spec};
use crate::text::{is_word, lemma_position_at, position};
use vstd::prelude::*;
use vstd::slice::slice_subrange;
use vstd::string::StringSliceAdditionalSpecFns;
use vstd::utf8::{decode_utf8, encode_utf8_decode_utf8, valid_utf8};

verus! {

/// The line feed, which ends a line.
pub const LF: u8 = 0x0A;

/// The carriage return, which may stand before the line feed.
pub const CR: u8 = 0x0D;

/// `raw` without the carriage return at its end, if it has one.
pub open spec fn strip_cr(raw: Seq<u8>) -> Seq<u8> {
    if raw.len() > 0 && raw.last() == CR {
        raw.drop_last()
    } else {
        raw
    }
}

/// The lines of a file. A line ends with a line feed, or with a carriage
/// return and a line feed, and is held without them; what follows the last
/// line feed is a line too, unless it is empty.
pub open spec fn lines_of(bytes: Seq<u8>) -> Seq<Seq<u8>>
    decreases bytes.len(),
{
    let n = position(bytes, LF);
    if bytes.len() == 0 {
        Seq::empty()
    } else if 0 <= n < bytes.len() {
        seq![strip_cr(bytes.take(n))] + lines_of(bytes.skip(n + 1))
    } else {
        seq![bytes]
    }
}

/// The text of a line, where its bytes are well-formed UTF-8.
pub open spec fn text_of(raw: Seq<u8>) -> Option<Seq<char>> {
    if valid_utf8(raw) {
        Some(decode_utf8(raw))
    } else {
        None
    }
}

/// The entry that a line gives: none where it is not text, else the entry
/// that its text stands for.
pub open spec fn entry_of(raw: Seq<u8>) -> Option<(Seq<char>, Seq<char>)> {
    match text_of(raw) {
        Some(text) => parse_line_spec(text),
        None => None,
    }
}

/// The entries that the lines give, in the order of the lines.
pub open spec fn items_of(lines: Seq<Seq<u8>>) -> Seq<(Seq<char>, Seq<char>)>
    decreases lines.len(),
{
    if lines.len() == 0 {
        Seq::empty()
    } else {
        let before = items_of(lines.drop_last());
        match entry_of(lines.last()) {
            Some(entry) => before.push(entry),
            None => before,
        }
    }
}

/// Every key and every value of `items` is a word.
pub open spec fn all_words(items: Seq<(Seq<char>, Seq<char>)>) -> bool {
    forall|i: int| 0 <= i < items.len() ==> is_word((#[trigger] items[i]).0) && is_word(items[i].1)
}

/// Every entry that lines give is a pair of words.
pub proof fn lemma_items_are_words(lines: Seq<Seq<u8>>)
    ensures
        all_words(items_of(lines)),
    decreases lines.len(),
{
    if lines.len() > 0 {
        lemma_items_are_words(lines.drop_last());
        if let Some(text) = text_of(lines.last()) {
            lemma_parsed_are_words(text);
        }
    }
}

/// What a vector of byte slices holds.
pub open spec fn slices_view(v: Seq<&[u8]>) -> Seq<Seq<u8>> {
    Seq::new(v.len(), |i: int| v[i]@)
}

/// What a vector of pairs of strings holds.
pub open spec fn pairs_view(v: Seq<(String, String)>) -> Seq<(Seq<char>, Seq<char>)> {
    Seq::new(v.len(), |i: int| (v[i].0@, v[i].1@))
}

/// Splits a file into its lines.
pub fn split_lines(bytes: &[u8]) -> (r: Vec<&[u8]>)
    ensures
        slices_view(r@) == lines_of(bytes@),
{
    let n: usize = bytes.len();
    let mut out: Vec<&[u8]> = Vec::new();
    let mut start: usize = 0;
    assert(bytes@.skip(0) =~= bytes@);
    while start < n
        invariant
            start <= n == bytes.len(),
            lines_of(bytes@) == slices_view(out@) + lines_of(bytes@.skip(start as int)),
        decreases n - start,
    {
        let ghost rest = bytes@.skip(start as int);
        let mut end: usize = start;
        while end < n && bytes[end] != LF
            invariant
                start <= end <= n == bytes.len(),
                rest == bytes@.skip(start as int),
                forall|j: int| 0 <= j < end - start ==> rest[j] != LF,
            decreases n - end,
        {
            end += 1;
        }
        proof {
            lemma_position_at(rest, LF, end - start);
        }
        if end == n {
            out.push(slice_subrange(bytes, start, n));
            start = n;
        } else {
            let stop: usize = if end > start && bytes[end - 1] == CR {
                end - 1
            } else {
                end
            };
            out.push(slice_subrange(bytes, start, stop));
            proof {
                let line = rest.take(end - start);
                assert(bytes@.subrange(start as int, stop as int) =~= strip_cr(line));
                assert(rest.skip(end - start + 1) =~= bytes@.skip(end + 1));
            }
            start = end + 1;
        }
    }
    out
}

/// `core::str::from_utf8`: the text that `raw` encodes, exactly where `raw` is
/// well-formed UTF-8. The text is the one whose encoding is `raw`.
#[verifier::external_body]
fn decode(raw: &[u8]) -> (r: Option<&str>)
    ensures
        r is Some <==> valid_utf8(raw@),
        r matches Some(text) ==> text.spec_bytes() == raw@,
{
    match core::str::from_utf8(raw) {
        Ok(text) => Some(text),
        Err(_) => None,
    }
}

/// Reads the entries of a file, in the order of its lines. A line that is not
/// text, or that gives no entry, is passed over.
pub fn parse_items(bytes: &[u8]) -> (r: Vec<(String, String)>)
    ensures
        pairs_view(r@) == items_of(lines_of(bytes@)),
{
    let lines = split_lines(bytes);
    let mut items: Vec<(String, String)> = Vec::new();
    let mut i: usize = 0;
    while i < lines.len()
        invariant
            i <= lines.len(),
            pairs_view(items@) == items_of(slices_view(lines@).take(i as int)),
        decreases lines.len() - i,
    {
        let ghost all = slices_view(lines@);
        assert(all.take(i + 1).drop_last() =~= all.take(i as int));
        if let Some(text) = decode(lines[i]) {
            proof {
                encode_utf8_decode_utf8(text@);
            }
            if let Some(pair) = parse_line(text.to_owned()) {
                items.push(pair);
            }
        }
        i += 1;
    }
    assert(slices_view(lines@).take(lines.len() as int) =~= slices_view(lines@));
    items
}

} // verus!
