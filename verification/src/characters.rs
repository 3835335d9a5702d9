//! Which characters and names are accepted, and what becomes of line ends.

use crate::error::ErrorView;
use crate::{lexical, reader, tree};
use vstd::prelude::*;

verus! {

/// A character lies in a range of code points.
pub open spec fn between(ch: char, first: u32, last: u32) -> bool {
    first <= ch as u32 && ch as u32 <= last
}

/// Of all characters, XML forbids the control characters but for the tabulator, the line
/// feed and the carriage return, and the last two of the basic plane.
pub proof fn law_forbidden_characters(ch: char)
    ensures
        lexical::xml_char(ch) <==> !(between(ch, 0, 8) || between(ch, 0xB, 0xC) || between(
            ch,
            0xE,
            0x1F,
        ) || between(ch, 0xFFFE, 0xFFFF)),
{
}

/// Of all characters, these cannot begin a name: what is no letter, underscore or colon in
/// ASCII, and some ranges of symbols, marks and private characters beyond it.
pub proof fn law_characters_that_begin_no_name(ch: char)
    ensures
        lexical::xml_name_start_char(ch) <==> !(between(ch, 0, 0x39) || between(ch, 0x3B, 0x40)
            || between(ch, 0x5B, 0x5E) || ch == '`' || between(ch, 0x7B, 0xBF) || ch == '\u{d7}'
            || ch == '\u{f7}' || between(ch, 0x300, 0x36F) || ch == '\u{37e}' || between(
            ch,
            0x2000,
            0x200B,
        ) || between(ch, 0x200E, 0x206F) || between(ch, 0x2190, 0x2BFF) || between(
            ch,
            0x2FF0,
            0x3000,
        ) || between(ch, 0xE000, 0xF8FF) || between(ch, 0xFDD0, 0xFDEF) || between(
            ch,
            0xFFFE,
            0xFFFF,
        ) || between(ch, 0xF_0000, 0x10_FFFF)),
{
}

/// A name goes on with the characters that can begin one, and with digits, hyphens, full
/// stops, middle dots, combining marks and ties.
pub proof fn law_characters_that_continue_a_name(ch: char)
    ensures
        lexical::xml_name_char(ch) && !lexical::xml_name_start_char(ch) <==> '0' <= ch <= '9' || ch
            == '-' || ch == '.' || ch == '\u{b7}' || between(ch, 0x300, 0x36F) || ch == '\u{203f}'
            || ch == '\u{2040}',
        lexical::xml_name_start_char(ch) ==> lexical::xml_name_char(ch),
{
}

/// A name is one character that can begin it, and with each character that can continue
/// it there is a longer one.
pub proof fn law_names_grow_by_characters(name: Seq<char>, ch: char)
    ensures
        !lexical::xml_name(Seq::<char>::empty()),
        lexical::xml_name(seq![ch]) <==> lexical::xml_name_start_char(ch),
        name.len() > 0 ==> (lexical::xml_name(name.push(ch)) <==> lexical::xml_name(name)
            && lexical::xml_name_char(ch)),
{
    let longer = name.push(ch);
    if name.len() > 0 {
        assert(longer[0] == name[0]);
        assert(longer[longer.len() - 1] == ch);
        if lexical::xml_name(longer) {
            assert forall|i: int| 1 <= i < name.len() implies lexical::xml_name_char(
                #[trigger] name[i],
            ) by {
                assert(longer[i] == name[i]);
            }
        }
        if lexical::xml_name(name) && lexical::xml_name_char(ch) {
            assert forall|i: int| 1 <= i < longer.len() implies lexical::xml_name_char(
                #[trigger] longer[i],
            ) by {
                if i < name.len() {
                    assert(longer[i] == name[i]);
                }
            }
        }
    }
}

/// A text is refused for the first of its characters that XML forbids, and accepted where
/// there is none.
pub proof fn law_first_forbidden_character_is_named(s: Seq<char>, i: int, position: u64)
    requires
        0 <= i <= s.len(),
        forall|j: int| 0 <= j < i ==> lexical::xml_char(#[trigger] s[j]),
        i < s.len() ==> !lexical::xml_char(s[i]),
    ensures
        lexical::checked_chars(s, position) == (if i < s.len() {
            Err::<(), ErrorView>(ErrorView::IllegalCharacter { character: s[i], position })
        } else {
            Ok(())
        }),
    decreases i,
{
    if i > 0 {
        let rest = s.skip(1);
        assert forall|j: int| 0 <= j < i - 1 implies lexical::xml_char(#[trigger] rest[j]) by {
            assert(rest[j] == s[j + 1]);
        }
        assert(lexical::xml_char(s[0]));
        law_first_forbidden_character_is_named(rest, i - 1, position);
    }
}

/// White space is a space, a tabulator, a carriage return or a line feed, and a text is
/// white space where all of its characters are.
pub proof fn law_white_space(s: Seq<char>, ch: char, byte: u8)
    ensures
        lexical::xml_space_byte(byte) <==> byte == 9 || byte == 10 || byte == 13 || byte == 32,
        tree::blank(Seq::<char>::empty()),
        tree::blank(s.push(ch)) <==> tree::blank(s) && (between(ch, 9, 10) || ch == '\u{d}' || ch
            == '\u{20}'),
{
    let longer = s.push(ch);
    assert(longer[s.len() as int] == ch);
    if tree::blank(longer) {
        assert forall|i: int| 0 <= i < s.len() implies lexical::xml_space(#[trigger] s[i]) by {
            assert(longer[i] == s[i]);
        }
        assert(lexical::xml_space(longer[s.len() as int]));
    }
    if tree::blank(s) && lexical::xml_space(ch) {
        assert forall|i: int| 0 <= i < longer.len() implies lexical::xml_space(
            #[trigger] longer[i],
        ) by {
            if i < s.len() {
                assert(longer[i] == s[i]);
            }
        }
    }
}

/// A line ends with a character: one of those that mark the end of a line, but for the line
/// feed itself.
pub open spec fn ends_line(ch: char) -> bool {
    ch == '\r' || ch == '\u{85}' || ch == '\u{2028}'
}

/// No line end but line feeds is left in a text, and it is no longer than before.
pub proof fn law_only_line_feeds_are_left(s: Seq<char>)
    ensures
        reader::normalized_eols(s).len() <= s.len(),
        forall|i: int|
            0 <= i < reader::normalized_eols(s).len() ==> !ends_line(
                #[trigger] reader::normalized_eols(s)[i],
            ),
    decreases s.len(),
{
    if s.len() > 0 {
        let step: int = if s[0] == '\r' && s.len() > 1 && (s[1] == '\n' || s[1] == '\u{85}') {
            2
        } else {
            1
        };
        let rest = reader::normalized_eols(s.skip(step));
        law_only_line_feeds_are_left(s.skip(step));
        let all = reader::normalized_eols(s);
        assert(all.len() == rest.len() + 1);
        assert forall|i: int| 0 <= i < all.len() implies !ends_line(#[trigger] all[i]) by {
            if i > 0 {
                assert(all[i] == rest[i - 1]);
            }
        }
    }
}

/// A text without line ends other than line feeds is left as it is.
pub proof fn law_text_without_line_ends_is_kept(s: Seq<char>)
    requires
        forall|i: int| 0 <= i < s.len() ==> !ends_line(#[trigger] s[i]),
    ensures
        reader::normalized_eols(s) == s,
    decreases s.len(),
{
    if s.len() > 0 {
        let rest = s.skip(1);
        assert forall|i: int| 0 <= i < rest.len() implies !ends_line(#[trigger] rest[i]) by {
            assert(rest[i] == s[i + 1]);
        }
        law_text_without_line_ends_is_kept(rest);
        assert(!ends_line(s[0]));
        assert(s =~= seq![s[0]] + rest);
    }
}

/// A line end becomes one line feed, whatever stands before and behind it. A carriage
/// return is one line end with the line feed or the next line character behind it.
pub proof fn law_line_end_is_one_line_feed(before: Seq<char>, end: Seq<char>, behind: Seq<char>)
    requires
        forall|i: int| 0 <= i < before.len() ==> !ends_line(#[trigger] before[i]),
        end == seq!['\r', '\n'] || end == seq!['\r', '\u{85}'] || end == seq!['\u{85}'] || end
            == seq!['\u{2028}'] || (end == seq!['\r'] && (behind.len() == 0 || (behind[0] != '\n'
            && behind[0] != '\u{85}'))),
    ensures
        reader::normalized_eols(before + end + behind) == before.push('\n')
            + reader::normalized_eols(behind),
    decreases before.len(),
{
    let s = before + end + behind;
    if before.len() == 0 {
        assert(s =~= end + behind);
        assert(s.skip(end.len() as int) =~= behind);
        assert(s[0] == end[0]);
        if end.len() == 2 {
            assert(s[1] == end[1]);
        } else if behind.len() > 0 {
            assert(s[1] == behind[0]);
        }
        assert(before.push('\n') =~= seq!['\n']);
    } else {
        let rest = before.skip(1);
        assert forall|i: int| 0 <= i < rest.len() implies !ends_line(#[trigger] rest[i]) by {
            assert(rest[i] == before[i + 1]);
        }
        law_line_end_is_one_line_feed(rest, end, behind);
        assert(!ends_line(before[0]));
        assert(s[0] == before[0]);
        assert(s.skip(1) =~= rest + end + behind);
        assert(before.push('\n') + reader::normalized_eols(behind) =~= seq![before[0]] + (rest.push(
            '\n',
        ) + reader::normalized_eols(behind)));
    }
}

} // verus!
