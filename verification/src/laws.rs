//! What follows from the definitions: statements about every line, every
//! file and every store, each with its proof.

use crate::envy::{load_spec, store_of, well_formed};
use crate::line::{
    comment_at, comment_start, lemma_comment_start, lemma_comment_start_at, parse_line_spec,
    strip_comment,
};
use crate::source::{
    all_words, entry_of, items_of, lemma_items_are_words, lines_of, strip_cr, text_of, CR, LF,
};
use crate::text::{
    all_space, is_space, is_word, lemma_position, lemma_position_at, position, trim, trim_end,
    trim_start,
};
use vstd::prelude::*;
use vstd::utf8::{
    char_u32_cast, encode_scalar, encode_utf8, encode_utf8_decode_utf8, encode_utf8_valid_utf8,
};

verus! {

/// White space before a sequence does not change what trimming its front leaves.
pub proof fn law_trim_start_padding(pad: Seq<char>, s: Seq<char>)
    requires
        all_space(pad),
    ensures
        trim_start(pad + s) == trim_start(s),
    decreases pad.len(),
{
    if pad.len() > 0 {
        assert((pad + s).drop_first() =~= pad.drop_first() + s);
        law_trim_start_padding(pad.drop_first(), s);
    }
}

/// White space after a sequence does not change what trimming its back leaves.
pub proof fn law_trim_end_padding(s: Seq<char>, pad: Seq<char>)
    requires
        all_space(pad),
    ensures
        trim_end(s + pad) == trim_end(s),
    decreases pad.len(),
{
    if pad.len() > 0 {
        assert((s + pad).drop_last() =~= s + pad.drop_last());
        law_trim_end_padding(s, pad.drop_last());
    }
}

/// Trimming a word with white space around it gives the word.
pub proof fn law_trim_padded_word(before: Seq<char>, word: Seq<char>, after: Seq<char>)
    requires
        all_space(before),
        all_space(after),
        is_word(word),
    ensures
        trim(before + word + after) == word,
{
    assert(before + word + after =~= before + (word + after));
    law_trim_start_padding(before, word + after);
    law_trim_end_padding(word, after);
}

/// A line that begins with `#` gives no entry.
pub proof fn law_comment_line(line: Seq<char>)
    requires
        line.len() > 0,
        line[0] == '#',
    ensures
        parse_line_spec(line) is None,
{
}

/// A line without `=` gives no entry.
pub proof fn law_line_without_equals(line: Seq<char>)
    requires
        !line.contains('='),
    ensures
        parse_line_spec(line) is None,
{
    let body = strip_comment(line);
    lemma_comment_start(line);
    lemma_position(body, '=');
}

/// What follows the first space with a `#` behind it is no part of the line:
/// a line with an inline comment gives what the text before the comment gives.
pub proof fn law_inline_comment(body: Seq<char>, comment: Seq<char>)
    requires
        comment_start(body) == body.len(),
    ensures
        strip_comment(body + seq![' ', '#'] + comment) == body,
        parse_line_spec(body + seq![' ', '#'] + comment) == parse_line_spec(body),
{
    let line = body + seq![' ', '#'] + comment;
    let n = body.len() as int;
    lemma_comment_start(body);
    assert(line[n] == ' ' && line[n + 1] == '#');
    assert forall|j: int| 0 <= j < n implies !comment_at(line, j) by {
        if j + 1 < n {
            assert(!comment_at(body, j));
        }
    }
    lemma_comment_start_at(line, n);
    assert(body.take(n) =~= body);
}

/// White space around the key and around the value is no part of them: a line
/// made of a key and a value, with `=` between them and white space anywhere
/// around them, gives that key and that value.
pub proof fn law_padded_entry(
    l1: Seq<char>,
    key: Seq<char>,
    l2: Seq<char>,
    r1: Seq<char>,
    value: Seq<char>,
    r2: Seq<char>,
)
    requires
        all_space(l1) && all_space(l2) && all_space(r1) && all_space(r2),
        is_word(key) && is_word(value),
        !key.contains('='),
        (l1 + key)[0] != '#',
        comment_start(l1 + key + l2 + seq!['='] + r1 + value + r2) == (l1 + key + l2 + seq!['=']
            + r1 + value + r2).len(),
    ensures
        parse_line_spec(l1 + key + l2 + seq!['='] + r1 + value + r2) == Some((key, value)),
{
    let left = l1 + key + l2;
    let right = r1 + value + r2;
    let line = l1 + key + l2 + seq!['='] + r1 + value + r2;
    let n = left.len() as int;
    assert(line.take(line.len() as int) =~= line);
    lemma_position_at(line, '=', n);
    assert(line.take(n) =~= left);
    assert(line.skip(n + 1) =~= right);
    law_trim_padded_word(l1, key, l2);
    law_trim_padded_word(r1, value, r2);
}

/// The entries of two runs of lines, one after the other, are the entries of
/// the first and then those of the second.
pub proof fn law_items_concat(a: Seq<Seq<u8>>, b: Seq<Seq<u8>>)
    ensures
        items_of(a + b) == items_of(a) + items_of(b),
    decreases b.len(),
{
    if b.len() > 0 {
        law_items_concat(a, b.drop_last());
        assert((a + b).drop_last() =~= a + b.drop_last());
    }
}

/// A line that gives no entry leaves no trace: the file gives the store that it
/// would give without the line.
pub proof fn law_silent_line(before: Seq<Seq<u8>>, raw: Seq<u8>, after: Seq<Seq<u8>>)
    requires
        entry_of(raw) is None,
    ensures
        items_of(before + seq![raw] + after) == items_of(before + after),
        store_of(items_of(before + seq![raw] + after)) == store_of(items_of(before + after)),
{
    law_items_concat(before + seq![raw], after);
    law_items_concat(before, seq![raw]);
    law_items_concat(before, after);
    assert(seq![raw].drop_last() =~= Seq::<Seq<u8>>::empty());
    assert(items_of(Seq::<Seq<u8>>::empty()) =~= Seq::empty());
}

/// A file without bytes gives a store without entries.
pub proof fn law_empty_file()
    ensures
        load_spec(Seq::<u8>::empty()) == Map::<Seq<char>, Seq<char>>::empty(),
        load_spec(Seq::<u8>::empty()).len() == 0,
{
}

/// A store made of words is well formed.
pub proof fn law_store_of_words(items: Seq<(Seq<char>, Seq<char>)>)
    requires
        all_words(items),
    ensures
        well_formed(store_of(items)),
    decreases items.len(),
{
    if items.len() > 0 {
        law_store_of_words(items.drop_last());
    }
}

/// Whatever the bytes of a file, the store that they give is well formed:
/// every key and every value in it is a word.
pub proof fn law_load_well_formed(bytes: Seq<u8>)
    ensures
        well_formed(load_spec(bytes)),
{
    lemma_items_are_words(lines_of(bytes));
    law_store_of_words(items_of(lines_of(bytes)));
}

/// A byte below `0x80` in the encoding of a scalar is the scalar itself.
proof fn lemma_low_byte_of_scalar(s: u32, i: int)
    requires
        0 <= i < encode_scalar(s).len(),
        encode_scalar(s)[i] < 0x80,
    ensures
        encode_scalar(s)[i] == s,
{
    assert(s <= 0x7F ==> (s & 0x7F) as u8 == s) by (bit_vector);
    assert(forall|x: u8| 0xC0u8 | x >= 0x80) by (bit_vector);
    assert(forall|x: u8| 0xE0u8 | x >= 0x80) by (bit_vector);
    assert(forall|x: u8| 0xF0u8 | x >= 0x80) by (bit_vector);
    assert(forall|x: u8| 0x80u8 | x >= 0x80) by (bit_vector);
}

/// A byte below `0x80` in the encoding of a text is one of its characters.
pub proof fn law_low_byte_is_char(chars: Seq<char>, j: int)
    requires
        0 <= j < encode_utf8(chars).len(),
        encode_utf8(chars)[j] < 0x80,
    ensures
        exists|i: int| 0 <= i < chars.len() && #[trigger] chars[i] as u32 == encode_utf8(chars)[j],
    decreases chars.len(),
{
    if chars.len() > 0 {
        let first = encode_scalar(chars[0] as u32);
        let rest = chars.drop_first();
        if j < first.len() {
            lemma_low_byte_of_scalar(chars[0] as u32, j);
        } else {
            law_low_byte_is_char(rest, j - first.len());
        }
    }
}

/// The end of a line: nothing, a line feed, or a carriage return and a line feed.
pub open spec fn is_line_end(ending: Seq<u8>) -> bool {
    ending == Seq::<u8>::empty() || ending == seq![LF] || ending == seq![CR, LF]
}

/// A file that holds one line gives what the line gives: the one entry, or
/// nothing.
pub proof fn law_single_line(line: Seq<char>, ending: Seq<u8>)
    requires
        !line.contains('\n'),
        !line.contains('\r'),
        is_line_end(ending),
    ensures
        load_spec(encode_utf8(line) + ending) == match parse_line_spec(line) {
            Some(entry) => Map::<Seq<char>, Seq<char>>::empty().insert(entry.0, entry.1),
            None => Map::<Seq<char>, Seq<char>>::empty(),
        },
{
    let enc = encode_utf8(line);
    let bytes = enc + ending;
    encode_utf8_valid_utf8(line);
    encode_utf8_decode_utf8(line);
    assert forall|j: int| 0 <= j < enc.len() implies #[trigger] enc[j] != LF && enc[j] != CR by {
        if enc[j] == LF || enc[j] == CR {
            law_low_byte_is_char(line, j);
            let i = choose|i: int| 0 <= i < line.len() && #[trigger] line[i] as u32 == enc[j];
            char_u32_cast(line[i], line[i] as u32);
            char_u32_cast('\n', 10u32);
            char_u32_cast('\r', 13u32);
        }
    }
    let none = Seq::<Seq<u8>>::empty();
    if bytes.len() > 0 {
        if ending == Seq::<u8>::empty() {
            lemma_position_at(bytes, LF, bytes.len() as int);
        } else if ending == seq![LF] {
            let n = enc.len() as int;
            lemma_position_at(bytes, LF, n);
            assert(bytes.take(n) =~= enc);
            assert(lines_of(bytes.skip(n + 1)) =~= none);
        } else {
            let n = enc.len() as int;
            lemma_position_at(bytes, LF, n + 1);
            assert(bytes.take(n + 1) =~= enc.push(CR));
            assert(enc.push(CR).drop_last() =~= enc);
            assert(lines_of(bytes.skip(n + 2)) =~= none);
        }
        assert(seq![enc].drop_last() =~= none);
        let items = items_of(seq![enc]);
        assert(items_of(none) =~= Seq::empty());
        if parse_line_spec(line) is Some {
            assert(items.drop_last() =~= Seq::empty());
            assert(store_of(Seq::empty()) =~= Map::<Seq<char>, Seq<char>>::empty());
        }
    }
}

/// A file that holds one line with a key, `=` and a value gives a store with
/// that key and that value, and nothing else.
pub proof fn law_one_entry_file(key: Seq<char>, value: Seq<char>, ending: Seq<u8>)
    requires
        is_word(key) && is_word(value),
        !key.contains('=') && key[0] != '#',
        comment_start(key + seq!['='] + value) == (key + seq!['='] + value).len(),
        !(key + seq!['='] + value).contains('\n'),
        !(key + seq!['='] + value).contains('\r'),
        is_line_end(ending),
    ensures
        load_spec(encode_utf8(key + seq!['='] + value) + ending) == Map::<
            Seq<char>,
            Seq<char>,
        >::empty().insert(key, value),
        load_spec(encode_utf8(key + seq!['='] + value) + ending)[key] == value,
{
    let none = Seq::<char>::empty();
    law_padded_entry(none, key, none, none, value, none);
    law_single_line(key + seq!['='] + value, ending);
}

} // verus!
