//! One line of a profile file, and the entry that it gives.

use crate::text::{
    chars_of, find_char, is_word, lemma_position, lemma_trim_is_word, position, trim, trim_range,
};
use vstd::prelude::*;
use vstd::string::StrSliceExecFns;

verus! {

/// The index at which the first inline comment of `s` begins, that is the first
/// space that a `#` follows, or `s.len()` where `s` has none.
pub open spec fn comment_start(s: Seq<char>) -> int
    decreases s.len(),
{
    if s.len() < 2 {
        s.len() as int
    } else if s[0] == ' ' && s[1] == '#' {
        0
    } else {
        1 + comment_start(s.drop_first())
    }
}

/// An inline comment begins at index `i` of `s`.
pub open spec fn comment_at(s: Seq<char>, i: int) -> bool {
    0 <= i && i + 1 < s.len() && s[i] == ' ' && s[i + 1] == '#'
}

/// `line` without its inline comment.
pub open spec fn strip_comment(line: Seq<char>) -> Seq<char> {
    line.take(comment_start(line))
}

/// The entry that `line` stands for, if it stands for one.
///
/// A line that begins with `#` is a comment. Any other line loses its inline
/// comment and is split at its first `=`; the two sides, without the white
/// space around them, are the key and the value. A line without `=`, or with
/// an empty key or value, stands for nothing.
pub open spec fn parse_line_spec(line: Seq<char>) -> Option<(Seq<char>, Seq<char>)> {
    let body = strip_comment(line);
    let eq = position(body, '=');
    let key = trim(body.take(eq));
    let value = trim(body.skip(eq + 1));
    if line.len() > 0 && line[0] == '#' {
        None
    } else if eq == body.len() {
        None
    } else if key.len() == 0 || value.len() == 0 {
        None
    } else {
        Some((key, value))
    }
}

/// `comment_start` is the least index at which an inline comment begins, and
/// the length where none begins anywhere.
pub proof fn lemma_comment_start(s: Seq<char>)
    ensures
        0 <= comment_start(s) <= s.len(),
        comment_start(s) < s.len() ==> comment_at(s, comment_start(s)),
        forall|j: int| 0 <= j < comment_start(s) ==> !comment_at(s, j),
    decreases s.len(),
{
    if s.len() >= 2 && !(s[0] == ' ' && s[1] == '#') {
        let t = s.drop_first();
        lemma_comment_start(t);
        assert forall|j: int| 0 <= j < comment_start(s) implies !comment_at(s, j) by {
            if j > 0 {
                assert(comment_at(s, j) == comment_at(t, j - 1));
            }
        }
    }
}

/// An index below which no inline comment begins, and at which one begins
/// unless it is the length, is `comment_start`.
pub proof fn lemma_comment_start_at(s: Seq<char>, i: int)
    requires
        0 <= i <= s.len(),
        forall|j: int| 0 <= j < i ==> !comment_at(s, j),
        i < s.len() ==> comment_at(s, i),
        i == s.len() ==> forall|j: int| 0 <= j < s.len() ==> !comment_at(s, j),
    ensures
        comment_start(s) == i,
{
    lemma_comment_start(s);
}

/// The key and the value that a line gives are words.
pub proof fn lemma_parsed_are_words(line: Seq<char>)
    ensures
        match parse_line_spec(line) {
            Some(kv) => is_word(kv.0) && is_word(kv.1),
            None => true,
        },
{
    let body = strip_comment(line);
    let eq = position(body, '=');
    lemma_trim_is_word(body.take(eq));
    lemma_trim_is_word(body.skip(eq + 1));
}

/// The index at which the first inline comment of `chars` begins.
pub fn find_comment(chars: &Vec<char>) -> (r: usize)
    ensures
        r == comment_start(chars@),
{
    let n: usize = chars.len();
    let mut i: usize = 0;
    while i < n && !(n - i >= 2 && chars[i] == ' ' && chars[i + 1] == '#')
        invariant
            i <= n == chars.len(),
            forall|j: int| 0 <= j < i ==> !comment_at(chars@, j),
        decreases n - i,
    {
        i += 1;
    }
    proof {
        lemma_comment_start_at(chars@, i as int);
    }
    i
}

/// Reads one line: the key and the value that it gives, or `None` where it
/// gives no entry.
pub fn parse_line(line: String) -> (r: Option<(String, String)>)
    ensures
        match r {
            Some(kv) => parse_line_spec(line@) == Some((kv.0@, kv.1@)),
            None => parse_line_spec(line@) is None,
        },
{
    let chars = chars_of(line.as_str());
    if chars.len() > 0 && chars[0] == '#' {
        return None;
    }
    let cut = find_comment(&chars);
    proof {
        lemma_comment_start(chars@);
    }
    let eq = find_char(&chars, cut, '=');
    let ghost body = strip_comment(line@);
    proof {
        lemma_position(body, '=');
    }
    if eq == cut {
        return None;
    }
    let (ka, kb) = trim_range(&chars, 0, eq);
    let (va, vb) = trim_range(&chars, eq + 1, cut);
    proof {
        assert(body.take(eq as int) =~= chars@.subrange(0, eq as int));
        assert(body.skip(eq + 1) =~= chars@.subrange(eq + 1, cut as int));
    }
    if ka == kb || va == vb {
        return None;
    }
    let key = line.as_str().substring_char(ka, kb).to_owned();
    let value = line.as_str().substring_char(va, vb).to_owned();
    Some((key, value))
}

} // verus!
