//! The encoding that an XML declaration names.

use crate::error::{Error, ErrorView};
use crate::{error, lexical, text};
use vstd::prelude::*;

verus! {

/// The lower case of an ASCII letter; other characters are kept.
pub open spec fn ascii_lower(ch: char) -> char {
    if 'A' <= ch <= 'Z' {
        ((ch as u32) + 32) as char
    } else {
        ch
    }
}

/// A text with its ASCII letters in lower case.
pub open spec fn lowered(s: Seq<char>) -> Seq<char> {
    s.map_values(|ch: char| ascii_lower(ch))
}

/// Where a word in lower case first occurs in a text, whatever the case of its
/// letters there.
pub open spec fn word_at(s: Seq<char>, word: Seq<char>) -> Option<nat>
    decreases s.len(),
{
    if s.len() < word.len() {
        None
    } else if lowered(s.take(word.len() as int)) == word {
        Some(0)
    } else if s.len() == 0 {
        None
    } else {
        match word_at(s.skip(1), word) {
            Some(i) => Some(i + 1),
            None => None,
        }
    }
}

/// A text without its leading white space.
pub open spec fn trimmed(s: Seq<char>) -> Seq<char>
    decreases s.len(),
{
    if s.len() > 0 && text::is_unicode_space(s[0]) {
        trimmed(s.skip(1))
    } else {
        s
    }
}

/// The value in quotes behind `encoding =` in a declaration, if there is one.
pub open spec fn declared_encoding(declaration: Seq<char>) -> Option<Seq<char>> {
    match word_at(declaration, "encoding"@) {
        None => None,
        Some(i) => {
            let rest = trimmed(declaration.skip((i + "encoding"@.len()) as int));
            if rest.len() == 0 || rest[0] != '=' {
                None
            } else {
                let quoted = trimmed(rest.skip(1));
                if quoted.len() == 0 || !(quoted[0] == '\'' || quoted[0] == '"') {
                    None
                } else {
                    let value = quoted.skip(1);
                    Some(value.take(lexical::until(value, quoted[0]) as int))
                }
            }
        },
    }
}

/// The check that a declaration names no encoding but UTF-8.
pub open spec fn utf8_declared(declaration: Seq<char>, position: u64) -> Result<(), ErrorView> {
    match declared_encoding(declaration) {
        None => Ok(()),
        Some(encoding) => if lowered(encoding) == "utf-8"@ || lowered(encoding) == "utf8"@ {
            Ok(())
        } else {
            Err(ErrorView::UnsupportedEncoding { encoding, position })
        },
    }
}

fn to_ascii_lower(ch: char) -> (r: char)
    ensures
        r == ascii_lower(ch),
{
    if 'A' <= ch && ch <= 'Z' {
        (ch as u8 + 32) as char
    } else {
        ch
    }
}

/// Whether `chars[from..to]` is the word, whatever the case of its letters.
fn is_word(chars: &[char], from: usize, to: usize, word: &[char]) -> (r: bool)
    requires
        from <= to <= chars@.len(),
    ensures
        r == (lowered(chars@.subrange(from as int, to as int)) == word@),
{
    let ghost found = lowered(chars@.subrange(from as int, to as int));
    if to - from != word.len() {
        assert(found.len() != word@.len());
        return false;
    }
    let mut i: usize = 0;
    while i < word.len()
        invariant
            from <= to <= chars@.len(),
            to - from == word@.len(),
            i <= word@.len(),
            found == lowered(chars@.subrange(from as int, to as int)),
            forall|j: int| 0 <= j < i ==> found[j] == word@[j],
        decreases word@.len() - i,
    {
        assert(found[i as int] == ascii_lower(chars@[from + i]));
        if to_ascii_lower(chars[from + i]) != word[i] {
            return false;
        }
        i += 1;
    }
    assert(found =~= word@);
    true
}

/// Where a word first occurs, whatever the case of its letters.
fn find_word(chars: &[char], word: &[char]) -> (r: Option<usize>)
    requires
        word@.len() > 0,
    ensures
        match r {
            Some(i) => word_at(chars@, word@) == Some(i as nat) && i + word@.len() <= chars@.len(),
            None => word_at(chars@, word@) is None,
        },
{
    let mut i: usize = 0;
    assert(chars@.skip(0) =~= chars@);
    while word.len() <= chars.len() - i
        invariant
            i <= chars@.len(),
            word@.len() > 0,
            match word_at(chars@.skip(i as int), word@) {
                Some(n) => word_at(chars@, word@) == Some((i + n) as nat),
                None => word_at(chars@, word@) is None,
            },
        decreases chars@.len() - i,
    {
        assert(chars@.skip(i as int).take(word@.len() as int) =~= chars@.subrange(
            i as int,
            i + word@.len(),
        ));
        if is_word(chars, i, i + word.len(), word) {
            return Some(i);
        }
        assert(chars@.skip(i as int).skip(1) =~= chars@.skip(i + 1));
        i += 1;
    }
    None
}

/// The index of the first character of `chars[from..]` that is no white space.
fn skip_space(chars: &[char], from: usize) -> (r: usize)
    requires
        from <= chars@.len(),
    ensures
        from <= r <= chars@.len(),
        chars@.skip(r as int) == trimmed(chars@.skip(from as int)),
{
    let mut i: usize = from;
    while i < chars.len() && chars[i].is_whitespace()
        invariant
            from <= i <= chars@.len(),
            trimmed(chars@.skip(i as int)) == trimmed(chars@.skip(from as int)),
        decreases chars@.len() - i,
    {
        assert(chars@.skip(i as int).skip(1) =~= chars@.skip(i + 1));
        i += 1;
    }
    i
}

/// Refuses a declaration that names another encoding than UTF-8.
pub fn ensure_utf8_declaration(declaration: &str, position: u64) -> (r: Result<(), Error>)
    ensures
        error::outcome(r) == utf8_declared(declaration@, position),
{
    let chars = text::chars_of(declaration);
    let chars = chars.as_slice();
    let word = text::chars_of("encoding");
    proof {
        reveal_strlit("encoding");
    }
    let start: usize = match find_word(chars, word.as_slice()) {
        Some(i) => i + word.len(),
        None => {
            return Ok(());
        },
    };
    let equals = skip_space(chars, start);
    if equals == chars.len() || chars[equals] != '=' {
        return Ok(());
    }
    assert(chars@.skip(equals as int).skip(1) =~= chars@.skip(equals + 1));
    let opening = skip_space(chars, equals + 1);
    if opening == chars.len() || !(chars[opening] == '\'' || chars[opening] == '"') {
        return Ok(());
    }
    let quote = chars[opening];
    assert(chars@.skip(opening as int).skip(1) =~= chars@.skip(opening + 1));
    let closing = lexical::find_char(chars, opening + 1, quote);
    assert(chars@.skip(opening + 1).take(closing - opening - 1) =~= chars@.subrange(
        opening + 1,
        closing as int,
    ));
    if is_word(chars, opening + 1, closing, text::chars_of("utf-8").as_slice()) || is_word(
        chars,
        opening + 1,
        closing,
        text::chars_of("utf8").as_slice(),
    ) {
        Ok(())
    } else {
        Err(
            Error::UnsupportedEncoding {
                encoding: text::string_of(chars, opening + 1, closing),
                position,
            },
        )
    }
}

} // verus!
