//! Which declarations of an encoding are accepted.

use crate::error::ErrorView;
use crate::{declaration, lexical, text};
use vstd::prelude::*;

verus! {

/// A text is a word in lower case, but for the case of its letters.
pub open spec fn same_letters(s: Seq<char>, word: Seq<char>) -> bool {
    &&& s.len() == word.len()
    &&& forall|i: int|
        0 <= i < s.len() ==> #[trigger] s[i] == word[i] || ('a' <= word[i] <= 'z' && s[i] as u32 + 32
            == word[i] as u32)
}

/// A word stands in a text at a place, whatever the case of its letters.
pub open spec fn stands_at(s: Seq<char>, word: Seq<char>, i: int) -> bool {
    0 <= i <= i + word.len() <= s.len() && same_letters(s.subrange(i, i + word.len()), word)
}

/// A text holds a word, whatever the case of its letters.
pub open spec fn holds(s: Seq<char>, word: Seq<char>) -> bool {
    exists|i: int| stands_at(s, word, i)
}

/// All characters of a text are white space.
pub open spec fn all_space(s: Seq<char>) -> bool {
    forall|i: int| 0 <= i < s.len() ==> text::is_unicode_space(#[trigger] s[i])
}

/// An encoding is UTF-8.
pub open spec fn names_utf8(encoding: Seq<char>) -> bool {
    same_letters(encoding, "utf-8"@) || same_letters(encoding, "utf8"@)
}

/// What a declaration of an encoding is answered.
pub open spec fn answer(encoding: Seq<char>, position: u64) -> Result<(), ErrorView> {
    if names_utf8(encoding) {
        Ok(())
    } else {
        Err(ErrorView::UnsupportedEncoding { encoding, position })
    }
}

/// No letter of a word is in upper case.
spec fn no_upper(word: Seq<char>) -> bool {
    forall|i: int| 0 <= i < word.len() ==> !('A' <= #[trigger] word[i] <= 'Z')
}

proof fn lemma_words()
    ensures
        no_upper("encoding"@),
        no_upper("utf-8"@),
        no_upper("utf8"@),
        "encoding"@.len() == 8,
        "encoding"@[0] == 'e',
        "encoding"@[1] == 'n',
        "encoding"@[2] == 'c',
        "encoding"@[3] == 'o',
        "encoding"@[4] == 'd',
        "encoding"@[5] == 'i',
        "encoding"@[6] == 'n',
        "encoding"@[7] == 'g',
{
    reveal_strlit("encoding");
    reveal_strlit("utf-8");
    reveal_strlit("utf8");
}

/// Comparing in lower case is comparing but for the case of letters.
proof fn lemma_lowered(s: Seq<char>, word: Seq<char>)
    requires
        no_upper(word),
    ensures
        declaration::lowered(s) == word <==> same_letters(s, word),
{
    let low = declaration::lowered(s);
    if low == word {
        assert forall|i: int| 0 <= i < s.len() implies #[trigger] s[i] == word[i] || ('a' <= word[i]
            <= 'z' && s[i] as u32 + 32 == word[i] as u32) by {
            assert(low[i] == declaration::ascii_lower(s[i]));
        }
    }
    if same_letters(s, word) {
        assert forall|i: int| 0 <= i < s.len() implies low[i] == word[i] by {
            assert(low[i] == declaration::ascii_lower(s[i]));
            assert(s[i] == word[i] || ('a' <= word[i] <= 'z' && s[i] as u32 + 32
                == word[i] as u32));
            assert(!('A' <= word[i] <= 'Z'));
        }
        assert(low =~= word);
    }
}

/// The search finds the first place where a word stands.
proof fn lemma_word_at(s: Seq<char>, word: Seq<char>)
    requires
        no_upper(word),
        word.len() > 0,
    ensures
        match declaration::word_at(s, word) {
            Some(n) => stands_at(s, word, n as int) && forall|i: int|
                0 <= i < n ==> !stands_at(s, word, i),
            None => forall|i: int| !stands_at(s, word, i),
        },
    decreases s.len(),
{
    if s.len() >= word.len() {
        let head = s.take(word.len() as int);
        lemma_lowered(head, word);
        assert(s.subrange(0, word.len() as int) =~= head);
        if declaration::lowered(head) != word {
            let rest = s.skip(1);
            lemma_word_at(rest, word);
            assert forall|i: int| 1 <= i implies stands_at(s, word, i) == stands_at(
                rest,
                word,
                i - 1,
            ) by {
                if i + word.len() <= s.len() {
                    assert(s.subrange(i, i + word.len()) =~= rest.subrange(
                        i - 1,
                        i - 1 + word.len(),
                    ));
                }
            }
            assert(!stands_at(s, word, 0));
            match declaration::word_at(rest, word) {
                Some(n) => {
                    assert(stands_at(s, word, n as int + 1));
                    assert forall|i: int| 0 <= i < n + 1 implies !stands_at(s, word, i) by {
                        if i > 0 {
                            assert(!stands_at(rest, word, i - 1));
                        }
                    }
                },
                None => {
                    assert forall|i: int| !stands_at(s, word, i) by {
                        if i > 0 {
                            assert(!stands_at(rest, word, i - 1));
                        }
                    }
                },
            }
        }
    }
}

/// White space is skipped.
proof fn lemma_trimmed(gap: Seq<char>, rest: Seq<char>)
    requires
        all_space(gap),
        rest.len() == 0 || !text::is_unicode_space(rest[0]),
    ensures
        declaration::trimmed(gap + rest) == rest,
    decreases gap.len(),
{
    if gap.len() == 0 {
        assert(gap + rest =~= rest);
    } else {
        assert((gap + rest).skip(1) =~= gap.skip(1) + rest);
        assert((gap + rest)[0] == gap[0]);
        lemma_trimmed(gap.skip(1), rest);
    }
}

/// A text up to the first of a character.
proof fn lemma_until_first(v: Seq<char>, q: char, b: Seq<char>)
    requires
        !v.contains(q),
        b.len() == 0 || b[0] == q,
    ensures
        lexical::until(v + b, q) == v.len(),
    decreases v.len(),
{
    if v.len() == 0 {
        assert(v + b =~= b);
    } else {
        assert((v + b).skip(1) =~= v.skip(1) + b);
        assert(v.contains(v[0]));
        assert(!v.skip(1).contains(q)) by {
            if v.skip(1).contains(q) {
                let i = v.skip(1).index_of(q);
                assert(v[i + 1] == q);
            }
        }
        lemma_until_first(v.skip(1), q, b);
    }
}

/// The first `encoding` is the one that follows a text without it.
proof fn lemma_first_word(a: Seq<char>, word: Seq<char>, rest: Seq<char>)
    requires
        !holds(a, "encoding"@),
        same_letters(word, "encoding"@),
    ensures
        declaration::word_at(a + word + rest, "encoding"@) == Some(a.len()),
        (a + word + rest).skip((a.len() + "encoding"@.len()) as int) == rest,
{
    let all = a + word + rest;
    lemma_words();
    lemma_word_at(all, "encoding"@);
    assert(all.subrange(a.len() as int, (a.len() + 8) as int) =~= word);
    assert(stands_at(all, "encoding"@, a.len() as int));
    assert forall|i: int| 0 <= i < a.len() implies !stands_at(all, "encoding"@, i) by {
        if stands_at(all, "encoding"@, i) {
            let part = all.subrange(i, i + 8);
            if i + 8 <= a.len() {
                assert(part =~= a.subrange(i, i + 8));
                assert(stands_at(a, "encoding"@, i));
            } else {
                let d = a.len() - i;
                assert(part[d] == word[0]);
                assert(word[0] as u32 == 0x65 || word[0] as u32 == 0x45);
                assert(part[d] == "encoding"@[d] || ('a' <= "encoding"@[d] <= 'z' && part[d] as u32
                    + 32 == "encoding"@[d] as u32));
                assert(1 <= d < 8);
                assert(d == 1 || d == 2 || d == 3 || d == 4 || d == 5 || d == 6 || d == 7);
            }
        }
    }
    assert(all.skip((a.len() + 8) as int) =~= rest);
}

/// A declaration without the word `encoding` is accepted.
pub proof fn law_no_encoding_is_accepted(declaration: Seq<char>, position: u64)
    requires
        !holds(declaration, "encoding"@),
    ensures
        declaration::utf8_declared(declaration, position) == Ok::<(), ErrorView>(()),
{
    lemma_words();
    lemma_word_at(declaration, "encoding"@);
}

/// The declared encoding is what stands between the two quotes behind the first
/// `encoding` and its equals sign, whatever follows. The declaration is accepted if and
/// only if that is `utf-8` or `utf8`, in any case, and refused with it otherwise.
pub proof fn law_encoding_stands_between_quotes(
    before: Seq<char>,
    word: Seq<char>,
    gap: Seq<char>,
    space: Seq<char>,
    quote: char,
    encoding: Seq<char>,
    behind: Seq<char>,
    position: u64,
)
    requires
        !holds(before, "encoding"@),
        same_letters(word, "encoding"@),
        all_space(gap),
        all_space(space),
        quote == '\'' || quote == '"',
        !encoding.contains(quote),
        behind.len() == 0 || behind[0] == quote,
    ensures
        declaration::utf8_declared(
            before + word + (gap + (seq!['='] + (space + (seq![quote] + (encoding + behind))))),
            position,
        ) == answer(encoding, position),
{
    let value = encoding + behind;
    let quoted = seq![quote] + value;
    let rest = seq!['='] + (space + quoted);
    let all = before + word + (gap + rest);
    lemma_words();
    lemma_first_word(before, word, gap + rest);
    lemma_trimmed(gap, rest);
    lemma_trimmed(space, quoted);
    assert(rest.skip(1) =~= space + quoted);
    assert(quoted.skip(1) =~= value);
    lemma_until_first(encoding, quote, behind);
    assert(value.take(encoding.len() as int) =~= encoding);
    lemma_lowered(encoding, "utf-8"@);
    lemma_lowered(encoding, "utf8"@);
}

/// A first `encoding` that no equals sign follows declares nothing.
pub proof fn law_encoding_needs_an_equals_sign(
    before: Seq<char>,
    word: Seq<char>,
    gap: Seq<char>,
    behind: Seq<char>,
    position: u64,
)
    requires
        !holds(before, "encoding"@),
        same_letters(word, "encoding"@),
        all_space(gap),
        behind.len() == 0 || !(behind[0] == '=' || text::is_unicode_space(behind[0])),
    ensures
        declaration::utf8_declared(before + word + (gap + behind), position) == Ok::<
            (),
            ErrorView,
        >(()),
{
    lemma_words();
    lemma_first_word(before, word, gap + behind);
    lemma_trimmed(gap, behind);
}

/// A first `encoding` with an equals sign that no quote follows declares nothing.
pub proof fn law_encoding_needs_a_quote(
    before: Seq<char>,
    word: Seq<char>,
    gap: Seq<char>,
    space: Seq<char>,
    behind: Seq<char>,
    position: u64,
)
    requires
        !holds(before, "encoding"@),
        same_letters(word, "encoding"@),
        all_space(gap),
        all_space(space),
        behind.len() == 0 || !(behind[0] == '\'' || behind[0] == '"' || text::is_unicode_space(
            behind[0],
        )),
    ensures
        declaration::utf8_declared(
            before + word + (gap + (seq!['='] + (space + behind))),
            position,
        ) == Ok::<(), ErrorView>(()),
{
    let rest = seq!['='] + (space + behind);
    lemma_words();
    lemma_first_word(before, word, gap + rest);
    lemma_trimmed(gap, rest);
    lemma_trimmed(space, behind);
    assert(rest.skip(1) =~= space + behind);
}

} // verus!
