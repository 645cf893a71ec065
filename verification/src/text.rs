//! Texts as sequences of characters: comparing them, splitting them into
//! tokens and into lines, and trimming them.

use vstd::prelude::*;

verus! {

/// The characters of each string of `words`.
pub open spec fn texts(words: Seq<String>) -> Seq<Seq<char>> {
    words.map_values(|w: String| w@)
}

/// The characters of each token of `tokens`.
pub open spec fn token_texts(tokens: Seq<&str>) -> Seq<Seq<char>> {
    tokens.map_values(|t: &str| t@)
}

/// Whether `a` and `b` hold the same characters.
pub fn same_text(a: &str, b: &str) -> (same: bool)
    ensures
        same == (a@ == b@),
{
    let len: usize = a.unicode_len();
    if len != b.unicode_len() {
        return false;
    }
    let mut i: usize = 0;
    while i < len
        invariant
            i <= len,
            len == a@.len(),
            len == b@.len(),
            a@.take(i as int) == b@.take(i as int),
        decreases len - i,
    {
        if a.get_char(i) != b.get_char(i) {
            return false;
        }
        assert(a@.take(i + 1) =~= a@.take(i as int).push(a@[i as int]));
        assert(b@.take(i + 1) =~= b@.take(i as int).push(b@[i as int]));
        i = i + 1;
    }
    assert(a@.take(len as int) =~= a@);
    assert(b@.take(len as int) =~= b@);
    true
}

/// Whether `c` is white space: a character that separates the tokens of a
/// line.
pub open spec fn is_blank(c: char) -> bool {
    let code = c as u32;
    (0x09 <= code <= 0x0d) || code == 0x20 || code == 0x85 || code == 0xa0 || code == 0x1680 || (
    0x2000 <= code <= 0x200a) || code == 0x2028 || code == 0x2029 || code == 0x202f || code
        == 0x205f || code == 0x3000
}

/// `word` as a sequence of tokens: one token, or none if `word` is empty.
pub open spec fn token_if_any(word: Seq<char>) -> Seq<Seq<char>> {
    if word.len() > 0 {
        seq![word]
    } else {
        Seq::empty()
    }
}

/// The tokens of `line` from index `from` on, where `word` holds the
/// characters of the token that is being read.
pub open spec fn tokens_with(line: Seq<char>, from: int, word: Seq<char>) -> Seq<Seq<char>>
    decreases line.len() - from,
{
    if from < 0 || from >= line.len() {
        token_if_any(word)
    } else if is_blank(line[from]) {
        token_if_any(word) + tokens_with(line, from + 1, Seq::empty())
    } else {
        tokens_with(line, from + 1, word.push(line[from]))
    }
}

/// The tokens of `line`: its maximal runs of characters that are not white
/// space, in order.
pub open spec fn tokens_of(line: Seq<char>) -> Seq<Seq<char>> {
    tokens_with(line, 0, Seq::empty())
}

/// Whether `c` is white space.
pub fn is_whitespace(c: char) -> (blank: bool)
    ensures
        blank == is_blank(c),
{
    let code: u32 = c as u32;
    (0x09 <= code && code <= 0x0d) || code == 0x20 || code == 0x85 || code == 0xa0 || code
        == 0x1680 || (0x2000 <= code && code <= 0x200a) || code == 0x2028 || code == 0x2029
        || code == 0x202f || code == 0x205f || code == 0x3000
}

/// Splits `line` into its tokens.
pub fn tokenize<'a>(line: &'a str) -> (tokens: Vec<&'a str>)
    ensures
        token_texts(tokens@) == tokens_of(line@),
{
    let len: usize = line.unicode_len();
    let mut tokens: Vec<&'a str> = Vec::new();
    let mut start: usize = 0;
    let mut i: usize = 0;
    assert(line@.subrange(0, 0) =~= Seq::<char>::empty());
    assert(token_texts(tokens@) + tokens_of(line@) =~= tokens_of(line@));
    while i < len
        invariant
            start <= i <= len,
            len == line@.len(),
            tokens_of(line@) == token_texts(tokens@) + tokens_with(
                line@,
                i as int,
                line@.subrange(start as int, i as int),
            ),
        decreases len - i,
    {
        let ghost word = line@.subrange(start as int, i as int);
        let ghost before = token_texts(tokens@);
        if is_whitespace(line.get_char(i)) {
            if start < i {
                let token: &'a str = line.substring_char(start, i);
                tokens.push(token);
                assert(token_texts(tokens@) =~= before + token_if_any(word));
            } else {
                assert(before + token_if_any(word) =~= before);
            }
            start = i + 1;
            assert(line@.subrange(start as int, i + 1) =~= Seq::<char>::empty());
            assert(before + (token_if_any(word) + tokens_with(line@, i + 1, Seq::empty()))
                =~= (before + token_if_any(word)) + tokens_with(line@, i + 1, Seq::empty()));
        } else {
            assert(line@.subrange(start as int, i + 1) =~= word.push(line@[i as int]));
        }
        i = i + 1;
    }
    let ghost word = line@.subrange(start as int, len as int);
    let ghost before = token_texts(tokens@);
    if start < len {
        let token: &'a str = line.substring_char(start, len);
        tokens.push(token);
        assert(token_texts(tokens@) =~= before + token_if_any(word));
    } else {
        assert(before + token_if_any(word) =~= before);
    }
    tokens
}

/// The number of tokens of `contents`: its words.
pub fn count_words(contents: &str) -> (count: usize)
    ensures
        count == tokens_of(contents@).len(),
{
    let tokens: Vec<&str> = tokenize(contents);
    assert(token_texts(tokens@).len() == tokens@.len());
    tokens.len()
}

/// The pieces of `text` from index `from` on, cut at every line feed, where
/// `piece` holds the characters of the piece that is being read.
pub open spec fn pieces_with(text: Seq<char>, from: int, piece: Seq<char>) -> Seq<Seq<char>>
    decreases text.len() - from,
{
    if from < 0 || from >= text.len() {
        seq![piece]
    } else if text[from] == '\n' {
        seq![piece] + pieces_with(text, from + 1, Seq::empty())
    } else {
        pieces_with(text, from + 1, piece.push(text[from]))
    }
}

/// The pieces that `text` falls into when it is cut at every line feed. There
/// is one piece more than there are line feeds; a piece may be empty.
pub open spec fn pieces_of(text: Seq<char>) -> Seq<Seq<char>> {
    pieces_with(text, 0, Seq::empty())
}

/// Cuts `text` at every line feed.
pub fn split_lines<'a>(text: &'a str) -> (pieces: Vec<&'a str>)
    ensures
        token_texts(pieces@) == pieces_of(text@),
        pieces@.len() > 0,
{
    let len: usize = text.unicode_len();
    let mut pieces: Vec<&'a str> = Vec::new();
    let mut start: usize = 0;
    let mut i: usize = 0;
    assert(text@.subrange(0, 0) =~= Seq::<char>::empty());
    assert(token_texts(pieces@) + pieces_of(text@) =~= pieces_of(text@));
    while i < len
        invariant
            start <= i <= len,
            len == text@.len(),
            pieces_of(text@) == token_texts(pieces@) + pieces_with(
                text@,
                i as int,
                text@.subrange(start as int, i as int),
            ),
        decreases len - i,
    {
        let ghost piece = text@.subrange(start as int, i as int);
        let ghost before = token_texts(pieces@);
        if text.get_char(i) == '\n' {
            let cut: &'a str = text.substring_char(start, i);
            pieces.push(cut);
            assert(token_texts(pieces@) =~= before + seq![piece]);
            start = i + 1;
            assert(text@.subrange(start as int, i + 1) =~= Seq::<char>::empty());
            assert(before + (seq![piece] + pieces_with(text@, i + 1, Seq::empty())) =~= (before
                + seq![piece]) + pieces_with(text@, i + 1, Seq::empty()));
        } else {
            assert(text@.subrange(start as int, i + 1) =~= piece.push(text@[i as int]));
        }
        i = i + 1;
    }
    let ghost piece = text@.subrange(start as int, len as int);
    let ghost before = token_texts(pieces@);
    let cut: &'a str = text.substring_char(start, len);
    pieces.push(cut);
    assert(token_texts(pieces@) =~= before + seq![piece]);
    assert(token_texts(pieces@).len() == pieces@.len());
    pieces
}

/// `text` without the white space at its start.
pub open spec fn trimmed_start(text: Seq<char>) -> Seq<char>
    decreases text.len(),
{
    if text.len() > 0 && is_blank(text[0]) {
        trimmed_start(text.drop_first())
    } else {
        text
    }
}

/// `text` without the white space at its end.
pub open spec fn trimmed_end(text: Seq<char>) -> Seq<char>
    decreases text.len(),
{
    if text.len() > 0 && is_blank(text.last()) {
        trimmed_end(text.drop_last())
    } else {
        text
    }
}

/// `text` without the white space at its start and at its end.
pub open spec fn trimmed(text: Seq<char>) -> Seq<char> {
    trimmed_end(trimmed_start(text))
}

/// Takes the white space off the start and the end of `text`.
pub fn trim<'a>(text: &'a str) -> (inner: &'a str)
    ensures
        inner@ == trimmed(text@),
{
    let len: usize = text.unicode_len();
    let mut start: usize = 0;
    assert(text@.skip(0) =~= text@);
    while start < len && is_whitespace(text.get_char(start))
        invariant
            start <= len,
            len == text@.len(),
            trimmed_start(text@) == trimmed_start(text@.skip(start as int)),
        decreases len - start,
    {
        assert(text@.skip(start as int).drop_first() =~= text@.skip(start + 1));
        start = start + 1;
    }
    let ghost rest = text@.skip(start as int);
    assert(trimmed_start(text@) == rest);
    let mut end: usize = len;
    assert(rest.take(len - start) =~= rest);
    while end > start && is_whitespace(text.get_char(end - 1))
        invariant
            start <= end <= len,
            len == text@.len(),
            rest == text@.skip(start as int),
            trimmed_end(rest) == trimmed_end(rest.take(end - start)),
        decreases end,
    {
        assert(rest.take(end - start).drop_last() =~= rest.take(end - start - 1));
        end = end - 1;
    }
    assert(rest.take(end - start) =~= text@.subrange(start as int, end as int));
    text.substring_char(start, end)
}

} // verus!
