//! Characters, names and references of XML.

use crate::error::{Error, ErrorView};
use crate::{error, reader, text};
use quick_xml::encoding::Decoder;
use std::borrow::Cow;
use vstd::prelude::*;
use vstd::utf8::*;

verus! {

/// The white space of XML, as bytes.
pub open spec fn xml_space_byte(byte: u8) -> bool {
    byte == 0x20 || byte == 0x09 || byte == 0x0D || byte == 0x0A
}

/// The white space of XML, as characters.
pub open spec fn xml_space(ch: char) -> bool {
    ch == ' ' || ch == '\t' || ch == '\r' || ch == '\n'
}

/// The characters that XML allows.
pub open spec fn xml_char(ch: char) -> bool {
    let c = ch as u32;
    ||| c == 0x09
    ||| c == 0x0A
    ||| c == 0x0D
    ||| 0x20 <= c <= 0xD7FF
    ||| 0xE000 <= c <= 0xFFFD
    ||| 0x10000 <= c <= 0x10FFFF
}

/// The characters that can begin an XML name.
pub open spec fn xml_name_start_char(ch: char) -> bool {
    let c = ch as u32;
    ||| c == 0x3A
    ||| 0x41 <= c <= 0x5A
    ||| c == 0x5F
    ||| 0x61 <= c <= 0x7A
    ||| 0xC0 <= c <= 0xD6
    ||| 0xD8 <= c <= 0xF6
    ||| 0xF8 <= c <= 0x2FF
    ||| 0x370 <= c <= 0x37D
    ||| 0x37F <= c <= 0x1FFF
    ||| 0x200C <= c <= 0x200D
    ||| 0x2070 <= c <= 0x218F
    ||| 0x2C00 <= c <= 0x2FEF
    ||| 0x3001 <= c <= 0xD7FF
    ||| 0xF900 <= c <= 0xFDCF
    ||| 0xFDF0 <= c <= 0xFFFD
    ||| 0x10000 <= c <= 0xEFFFF
}

/// The characters that can stand in an XML name.
pub open spec fn xml_name_char(ch: char) -> bool {
    let c = ch as u32;
    ||| xml_name_start_char(ch)
    ||| c == 0x2D
    ||| c == 0x2E
    ||| 0x30 <= c <= 0x39
    ||| c == 0xB7
    ||| 0x0300 <= c <= 0x036F
    ||| 0x203F <= c <= 0x2040
}

/// An XML name: a name start character, then name characters.
pub open spec fn xml_name(name: Seq<char>) -> bool {
    &&& name.len() > 0
    &&& xml_name_start_char(name[0])
    &&& forall|i: int| 1 <= i < name.len() ==> xml_name_char(#[trigger] name[i])
}

/// Every character of a text is one that XML allows.
pub open spec fn xml_text(s: Seq<char>) -> bool {
    forall|i: int| 0 <= i < s.len() ==> xml_char(#[trigger] s[i])
}

pub fn is_xml_whitespace(byte: u8) -> (r: bool)
    ensures
        r == xml_space_byte(byte),
{
    byte == 0x20 || byte == 0x09 || byte == 0x0D || byte == 0x0A
}

pub fn is_xml_char(ch: char) -> (r: bool)
    ensures
        r == xml_char(ch),
{
    let c = ch as u32;
    c == 0x09 || c == 0x0A || c == 0x0D || (0x20 <= c && c <= 0xD7FF) || (0xE000 <= c && c
        <= 0xFFFD) || (0x10000 <= c && c <= 0x10FFFF)
}

pub fn is_xml_name_start_char(ch: char) -> (r: bool)
    ensures
        r == xml_name_start_char(ch),
{
    let c = ch as u32;
    c == 0x3A || (0x41 <= c && c <= 0x5A) || c == 0x5F || (0x61 <= c && c <= 0x7A) || (0xC0 <= c
        && c <= 0xD6) || (0xD8 <= c && c <= 0xF6) || (0xF8 <= c && c <= 0x2FF) || (0x370 <= c && c
        <= 0x37D) || (0x37F <= c && c <= 0x1FFF) || (0x200C <= c && c <= 0x200D) || (0x2070 <= c
        && c <= 0x218F) || (0x2C00 <= c && c <= 0x2FEF) || (0x3001 <= c && c <= 0xD7FF) || (0xF900
        <= c && c <= 0xFDCF) || (0xFDF0 <= c && c <= 0xFFFD) || (0x10000 <= c && c <= 0xEFFFF)
}

pub fn is_xml_name_char(ch: char) -> (r: bool)
    ensures
        r == xml_name_char(ch),
{
    let c = ch as u32;
    is_xml_name_start_char(ch) || c == 0x2D || c == 0x2E || (0x30 <= c && c <= 0x39) || c == 0xB7
        || (0x0300 <= c && c <= 0x036F) || (0x203F <= c && c <= 0x2040)
}

/// Whether `chars[from..to]` is an XML name.
fn is_name_range(chars: &[char], from: usize, to: usize) -> (r: bool)
    requires
        from <= to <= chars@.len(),
    ensures
        r == xml_name(chars@.subrange(from as int, to as int)),
{
    let ghost name = chars@.subrange(from as int, to as int);
    if from == to {
        return false;
    }
    if !is_xml_name_start_char(chars[from]) {
        assert(name[0] == chars@[from as int]);
        return false;
    }
    let mut i: usize = from + 1;
    while i < to
        invariant
            from < i <= to <= chars@.len(),
            name == chars@.subrange(from as int, to as int),
            xml_name_start_char(name[0]),
            forall|j: int| 1 <= j < i - from ==> xml_name_char(#[trigger] name[j]),
        decreases to - i,
    {
        if !is_xml_name_char(chars[i]) {
            assert(name[i - from] == chars@[i as int]);
            return false;
        }
        i += 1;
    }
    true
}

/// Whether a string is an XML name.
pub fn is_xml_name(name: &str) -> (r: bool)
    ensures
        r == xml_name(name@),
{
    let chars = text::chars_of(name);
    assert(chars@.subrange(0, chars@.len() as int) =~= name@);
    is_name_range(chars.as_slice(), 0, chars.len())
}

/// The first character of a text that XML does not allow.
pub open spec fn illegal_char(s: Seq<char>) -> Option<char>
    decreases s.len(),
{
    if s.len() == 0 {
        None
    } else if !xml_char(s[0]) {
        Some(s[0])
    } else {
        illegal_char(s.skip(1))
    }
}

/// The check that a text holds allowed characters only.
pub open spec fn checked_chars(s: Seq<char>, position: u64) -> Result<(), ErrorView> {
    match illegal_char(s) {
        Some(character) => Err(ErrorView::IllegalCharacter { character, position }),
        None => Ok(()),
    }
}

/// A text passes the check if and only if all of its characters are allowed.
pub proof fn lemma_illegal_char(s: Seq<char>)
    ensures
        illegal_char(s) is None <==> xml_text(s),
    decreases s.len(),
{
    if s.len() > 0 {
        let rest = s.skip(1);
        lemma_illegal_char(rest);
        if xml_text(s) {
            assert forall|i: int| 0 <= i < rest.len() implies xml_char(#[trigger] rest[i]) by {
                assert(rest[i] == s[i + 1]);
            }
        }
        if xml_char(s[0]) && xml_text(rest) {
            assert forall|i: int| 0 <= i < s.len() implies xml_char(#[trigger] s[i]) by {
                if i > 0 {
                    assert(s[i] == rest[i - 1]);
                }
            }
        }
    }
}

/// Refuses a text with a character that XML does not allow, and names the first.
pub fn ensure_xml_chars(value: &str, position: u64) -> (r: Result<(), Error>)
    ensures
        error::outcome(r) == checked_chars(value@, position),
{
    let chars = text::chars_of(value);
    let mut i: usize = 0;
    assert(value@.skip(0) =~= value@);
    while i < chars.len()
        invariant
            chars@ == value@,
            i <= chars@.len(),
            illegal_char(value@) == illegal_char(value@.skip(i as int)),
        decreases chars@.len() - i,
    {
        if !is_xml_char(chars[i]) {
            return Err(Error::IllegalCharacter { character: chars[i], position });
        }
        assert(value@.skip(i as int).skip(1) =~= value@.skip(i + 1));
        i += 1;
    }
    Ok(())
}

/// Refuses an entity name that is no XML name.
pub fn ensure_entity_name(name: &str, position: u64) -> (r: Result<(), Error>)
    ensures
        xml_name(name@) ==> r is Ok,
        !xml_name(name@) ==> error::outcome(r) == Err::<(), ErrorView>(
            ErrorView::InvalidEntityReference { reference: name@, position },
        ),
{
    if is_xml_name(name) {
        Ok(())
    } else {
        Err(Error::InvalidEntityReference { reference: name.to_owned(), position })
    }
}

/// What each of the five predefined entities stands for.
pub open spec fn standard_entity(name: Seq<char>) -> Option<Seq<char>> {
    if name == "amp"@ {
        Some("&"@)
    } else if name == "lt"@ {
        Some("<"@)
    } else if name == "gt"@ {
        Some(">"@)
    } else if name == "quot"@ {
        Some("\""@)
    } else if name == "apos"@ {
        Some("'"@)
    } else {
        None
    }
}

/// What a predefined entity stands for.
pub fn resolve_standard_entity(name: &str) -> (r: Option<&'static str>)
    ensures
        match r {
            Some(s) => standard_entity(name@) == Some(s@),
            None => standard_entity(name@) is None,
        },
{
    if text::str_eq(name, "amp") {
        Some("&")
    } else if text::str_eq(name, "lt") {
        Some("<")
    } else if text::str_eq(name, "gt") {
        Some(">")
    } else if text::str_eq(name, "quot") {
        Some("\"")
    } else if text::str_eq(name, "apos") {
        Some("'")
    } else {
        None
    }
}

/// The value of a digit, in bases up to 16.
pub open spec fn digit_value(ch: char) -> Option<nat> {
    if '0' <= ch <= '9' {
        Some((ch as u32 - 0x30) as nat)
    } else if 'a' <= ch <= 'f' {
        Some((ch as u32 - 0x61 + 10) as nat)
    } else if 'A' <= ch <= 'F' {
        Some((ch as u32 - 0x41 + 10) as nat)
    } else {
        None
    }
}

/// The number that a sequence of digits denotes in a base, `None` where one of the
/// characters is no digit of it.
pub open spec fn digits_value(digits: Seq<char>, radix: nat) -> Option<nat>
    decreases digits.len(),
{
    if digits.len() == 0 {
        Some(0)
    } else {
        match (digits_value(digits.drop_last(), radix), digit_value(digits.last())) {
            (Some(high), Some(low)) => if low < radix {
                Some(high * radix + low)
            } else {
                None
            },
            _ => None,
        }
    }
}

/// The number of 32 bits that a text denotes: digits, with a plus sign before them
/// or not.
pub open spec fn number(s: Seq<char>, radix: nat) -> Option<u32> {
    let digits = if s.len() > 0 && s[0] == '+' {
        s.skip(1)
    } else {
        s
    };
    match digits_value(digits, radix) {
        Some(value) => if digits.len() > 0 && value <= u32::MAX {
            Some(value as u32)
        } else {
            None
        },
        None => None,
    }
}

fn digit_of(ch: char) -> (r: Option<u32>)
    ensures
        match r {
            Some(value) => digit_value(ch) == Some(value as nat) && value < 16,
            None => digit_value(ch) is None,
        },
{
    let c = ch as u32;
    if '0' <= ch && ch <= '9' {
        Some(c - 0x30)
    } else if 'a' <= ch && ch <= 'f' {
        Some(c - 0x61 + 10)
    } else if 'A' <= ch && ch <= 'F' {
        Some(c - 0x41 + 10)
    } else {
        None
    }
}

/// A number is at least the number that a prefix of its digits denotes.
proof fn lemma_prefix_value(digits: Seq<char>, radix: nat, n: int)
    requires
        0 <= n <= digits.len(),
        radix >= 1,
    ensures
        digits_value(digits, radix) matches Some(value) ==> (digits_value(
            digits.take(n),
            radix,
        ) matches Some(prefix) && prefix <= value),
    decreases digits.len() - n,
{
    if n == digits.len() {
        assert(digits.take(n) =~= digits);
    } else {
        let shorter = digits.drop_last();
        lemma_prefix_value(shorter, radix, n);
        assert(shorter.take(n) =~= digits.take(n));
        if let Some(high) = digits_value(shorter, radix) {
            assert(high <= high * radix) by (nonlinear_arith)
                requires
                    radix >= 1,
            ;
        }
    }
}

/// The number of 32 bits that `chars[from..]` denotes.
fn number_at(chars: &[char], from: usize, radix: u32) -> (r: Option<u32>)
    requires
        from <= chars@.len(),
        1 <= radix <= 16,
    ensures
        r == number(chars@.skip(from as int), radix as nat),
{
    let ghost s = chars@.skip(from as int);
    let mut start: usize = from;
    if from < chars.len() && chars[from] == '+' {
        start = from + 1;
    }
    let ghost digits = if s.len() > 0 && s[0] == '+' {
        s.skip(1)
    } else {
        s
    };
    assert(digits =~= chars@.skip(start as int));
    if start == chars.len() {
        return None;
    }
    let mut value: u64 = 0;
    let mut i: usize = start;
    assert(digits.take(0) =~= Seq::<char>::empty());
    while i < chars.len()
        invariant
            start <= i <= chars@.len(),
            digits == chars@.skip(start as int),
            1 <= radix <= 16,
            value <= u32::MAX,
            digits_value(digits.take(i - start), radix as nat) == Some(value as nat),
            s == chars@.skip(from as int),
            digits == (if s.len() > 0 && s[0] == '+' {
                s.skip(1)
            } else {
                s
            }),
        decreases chars@.len() - i,
    {
        proof {
            assert(digits.take(i - start + 1).drop_last() =~= digits.take(i - start));
            assert(digits.take(i - start + 1).last() == chars@[i as int]);
            lemma_prefix_value(digits, radix as nat, i - start + 1);
        }
        match digit_of(chars[i]) {
            Some(digit) => {
                if digit >= radix {
                    return None;
                }
                assert(value * radix <= 0xFFFF_FFFF * 16) by (nonlinear_arith)
                    requires
                        value <= 0xFFFF_FFFF,
                        radix <= 16,
                ;
                value = value * (radix as u64) + digit as u64;
                if value > 0xFFFF_FFFF {
                    return None;
                }
            },
            None => {
                return None;
            },
        }
        i += 1;
    }
    assert(digits.take(digits.len() as int) =~= digits);
    Some(value as u32)
}

/// What a reference `&entity;` to a character stands for. A reference that does not
/// begin with `#` is kept as it stands.
pub open spec fn character_reference(entity: Seq<char>, position: u64) -> Result<
    Seq<char>,
    ErrorView,
> {
    if entity.len() == 0 || entity[0] != '#' {
        Ok("&"@ + entity + ";"@)
    } else {
        let value = entity.skip(1);
        let codepoint = if value.len() > 0 && (value[0] == 'x' || value[0] == 'X') {
            number(value.skip(1), 16)
        } else {
            number(value, 10)
        };
        match codepoint {
            Some(c) => if is_scalar(c) && xml_char(c as char) {
                Ok(seq![c as char])
            } else {
                Err(ErrorView::InvalidCharacterReference { reference: entity, position })
            },
            None => Err(ErrorView::InvalidCharacterReference { reference: entity, position }),
        }
    }
}

/// Decodes a character reference.
pub fn decode_character_reference<'a>(entity: Cow<'a, str>, position: u64) -> (r: Result<
    Cow<'a, str>,
    Error,
>)
    ensures
        error::outcome(r) == character_reference(entity@, position),
        r matches Ok(decoded) ==> decoded is Owned,
{
    let chars = text::chars_of(text::text_str(&entity));
    if chars.len() == 0 || chars[0] != '#' {
        let mut kept = String::new();
        kept.append("&");
        kept.append(text::text_str(&entity));
        kept.append(";");
        assert(kept@ =~= "&"@ + entity@ + ";"@);
        return Ok(Cow::Owned(kept));
    }
    let ghost value = entity@.skip(1);
    assert(value =~= chars@.skip(1));
    let codepoint = if chars.len() > 1 && (chars[1] == 'x' || chars[1] == 'X') {
        assert(value.skip(1) =~= chars@.skip(2));
        number_at(chars.as_slice(), 2, 16)
    } else {
        number_at(chars.as_slice(), 1, 10)
    };
    if let Some(c) = codepoint {
        if let Some(ch) = char::from_u32(c) {
            if is_xml_char(ch) {
                let mut decoded = String::new();
                decoded.push(ch);
                assert(decoded@ =~= seq![ch]);
                return Ok(Cow::Owned(decoded));
            }
        }
    }
    Err(Error::InvalidCharacterReference { reference: text::text_string(entity), position })
}

/// How many characters stand before the first `ch`: all of them where there is none.
pub open spec fn until(s: Seq<char>, ch: char) -> nat
    decreases s.len(),
{
    if s.len() == 0 || s[0] == ch {
        0
    } else {
        1 + until(s.skip(1), ch)
    }
}

pub proof fn lemma_until(s: Seq<char>, ch: char)
    ensures
        until(s, ch) <= s.len(),
        until(s, ch) < s.len() ==> s[until(s, ch) as int] == ch,
        forall|i: int| 0 <= i < until(s, ch) ==> s[i] != ch,
    decreases s.len(),
{
    if s.len() > 0 && s[0] != ch {
        let rest = s.skip(1);
        lemma_until(rest, ch);
        assert forall|i: int| 0 <= i < until(s, ch) implies s[i] != ch by {
            if i > 0 {
                assert(s[i] == rest[i - 1]);
            }
        }
    }
}

/// The index of the first `ch` in `chars[from..]`, the length where there is none.
pub(crate) fn find_char(chars: &[char], from: usize, ch: char) -> (r: usize)
    requires
        from <= chars@.len(),
    ensures
        r == from + until(chars@.skip(from as int), ch),
        from <= r <= chars@.len(),
        r < chars@.len() ==> chars@[r as int] == ch,
{
    let mut i: usize = from;
    while i < chars.len() && chars[i] != ch
        invariant
            from <= i <= chars@.len(),
            from + until(chars@.skip(from as int), ch) == i + until(chars@.skip(i as int), ch),
        decreases chars@.len() - i,
    {
        assert(chars@.skip(i as int).skip(1) =~= chars@.skip(i + 1));
        i += 1;
    }
    i
}

/// What a reference `&entity;` in an attribute value becomes: what a predefined
/// entity or a character reference stands for, and the reference itself for any
/// other name.
pub open spec fn reference_text(entity: Seq<char>, position: u64) -> Result<Seq<char>, ErrorView> {
    match standard_entity(entity) {
        Some(resolved) => Ok(resolved),
        None => if entity.len() > 0 && entity[0] == '#' {
            character_reference(entity, position)
        } else if xml_name(entity) {
            Ok("&"@ + entity + ";"@)
        } else {
            Err(ErrorView::InvalidEntityReference { reference: entity, position })
        },
    }
}

/// An attribute value with its references decoded, from left to right.
pub open spec fn decoded_references(s: Seq<char>, position: u64) -> Result<Seq<char>, ErrorView>
    decreases s.len(),
{
    let start = until(s, '&') as int;
    if start >= s.len() {
        Ok(s)
    } else {
        let after = s.skip(start + 1);
        let end = until(after, ';') as int;
        if end >= after.len() {
            Err(ErrorView::InvalidEntityReference { reference: after, position })
        } else {
            match reference_text(after.take(end), position) {
                Err(e) => Err(e),
                Ok(decoded) => match decoded_references(after.skip(end + 1), position) {
                    Err(e) => Err(e),
                    Ok(rest) => Ok(s.take(start) + decoded + rest),
                },
            }
        }
    }
}

/// A reference without a name is refused.
proof fn lemma_empty_reference(position: u64)
    ensures
        reference_text(Seq::empty(), position) == Err::<Seq<char>, ErrorView>(
            ErrorView::InvalidEntityReference { reference: Seq::empty(), position },
        ),
{
    reveal_strlit("amp");
    reveal_strlit("lt");
    reveal_strlit("gt");
    reveal_strlit("quot");
    reveal_strlit("apos");
}

/// A text put before a decoded one.
pub open spec fn prefixed(prefix: Seq<char>, rest: Result<Seq<char>, ErrorView>) -> Result<
    Seq<char>,
    ErrorView,
> {
    match rest {
        Ok(rest) => Ok(prefix + rest),
        Err(e) => Err(e),
    }
}

/// One step of decoding: the plain text up to a reference that begins at `start`, then
/// the reference, which ends at `end`, then the rest.
proof fn lemma_reference_step(chars: Seq<char>, from: int, start: int, end: int, position: u64)
    requires
        0 <= from <= start < end <= chars.len(),
        start == from + until(chars.skip(from), '&'),
        end == start + 1 + until(chars.skip(start + 1), ';'),
    ensures
        end == chars.len() ==> decoded_references(chars.skip(from), position) == Err::<
            Seq<char>,
            ErrorView,
        >(ErrorView::InvalidEntityReference { reference: chars.subrange(start + 1, end), position }),
        end < chars.len() ==> decoded_references(chars.skip(from), position) == (
        match reference_text(chars.subrange(start + 1, end), position) {
            Ok(decoded) => prefixed(
                chars.subrange(from, start) + decoded,
                decoded_references(chars.skip(end + 1), position),
            ),
            Err(e) => Err(e),
        }),
{
    let remaining = chars.skip(from);
    let after = remaining.skip(start - from + 1);
    assert(after =~= chars.skip(start + 1));
    assert(after.take(end - start - 1) =~= chars.subrange(start + 1, end));
    assert(remaining.take(start - from) =~= chars.subrange(from, start));
    if end < chars.len() {
        assert(after.skip(end - start) =~= chars.skip(end + 1));
    } else {
        assert(after =~= chars.subrange(start + 1, end));
    }
}

/// Decodes one reference and appends what it stands for.
fn push_reference(decoded: &mut String, entity: String, position: u64) -> (r: Result<(), Error>)
    ensures
        match reference_text(entity@, position) {
            Ok(resolved) => r is Ok && final(decoded)@ == old(decoded)@ + resolved,
            Err(e) => error::outcome(r) == Err::<(), ErrorView>(e),
        },
{
    let chars = text::chars_of(entity.as_str());
    if let Some(resolved) = resolve_standard_entity(entity.as_str()) {
        decoded.append(resolved);
    } else if chars.len() > 0 && chars[0] == '#' {
        let resolved = decode_character_reference(Cow::Owned(entity), position)?;
        decoded.append(text::text_str(&resolved));
    } else {
        ensure_entity_name(entity.as_str(), position)?;
        decoded.append("&");
        decoded.append(entity.as_str());
        decoded.append(";");
        assert(decoded@ =~= old(decoded)@ + ("&"@ + entity@ + ";"@));
    }
    Ok(())
}

/// Decodes the references of an attribute value. A value without any is borrowed.
pub fn decode_entities_preserving_unknown<'a>(value: &'a str, position: u64) -> (r: Result<
    Cow<'a, str>,
    Error,
>)
    ensures
        error::outcome(r) == decoded_references(value@, position),
        !value@.contains('&') ==> r == Ok::<Cow<'a, str>, Error>(Cow::Borrowed(value)),
        r matches Ok(text) ==> (text is Borrowed <==> !value@.contains('&')),
{
    proof {
        lemma_until(value@, '&');
    }
    let chars = text::chars_of(value);
    let chars = chars.as_slice();
    assert(chars@.skip(0) =~= value@);
    if find_char(chars, 0, '&') == chars.len() {
        return Ok(Cow::Borrowed(value));
    }
    let ghost whole = decoded_references(value@, position);
    let mut decoded = String::new();
    let mut from: usize = 0;
    loop
        invariant
            chars@ == value@,
            from <= chars@.len(),
            value@.contains('&'),
            whole == decoded_references(value@, position),
            whole == prefixed(decoded@, decoded_references(chars@.skip(from as int), position)),
        decreases chars@.len() - from,
    {
        let start = find_char(chars, from, '&');
        if start == chars.len() {
            let tail = text::string_of(chars, from, start);
            decoded.append(tail.as_str());
            assert(chars@.skip(from as int) =~= chars@.subrange(from as int, start as int));
            return Ok(Cow::Owned(decoded));
        }
        let ghost before = decoded@;
        let plain = text::string_of(chars, from, start);
        decoded.append(plain.as_str());
        let end = find_char(chars, start + 1, ';');
        proof {
            lemma_reference_step(chars@, from as int, start as int, end as int, position);
        }
        if end == chars.len() {
            let reference = text::string_of(chars, start + 1, end);
            return Err(Error::InvalidEntityReference { reference, position });
        }
        if start + 1 == end {
            proof {
                lemma_empty_reference(position);
                assert(chars@.subrange(start + 1, end as int) =~= Seq::<char>::empty());
            }
            return Err(Error::InvalidEntityReference { reference: String::new(), position });
        }
        let entity = text::string_of(chars, start + 1, end);
        push_reference(&mut decoded, entity, position)?;
        proof {
            let resolved = reference_text(entity@, position)->Ok_0;
            if let Ok(rest) = decoded_references(chars@.skip(end + 1), position) {
                assert(before + (plain@ + resolved + rest) =~= decoded@ + rest);
            }
        }
        from = end + 1;
    }
}

/// An attribute value, decoded from its raw bytes.
pub open spec fn attribute_value(raw: Seq<u8>, position: u64) -> Result<Seq<char>, ErrorView> {
    if !valid_utf8(raw) {
        Err(ErrorView::Encoding { position, valid_up_to: text::valid_up_to(raw) })
    } else {
        match checked_chars(decode_utf8(raw), position) {
            Err(e) => Err(e),
            Ok(_) => decoded_references(decode_utf8(raw), position),
        }
    }
}

/// Decodes bytes. Text that is not changed by it is borrowed.
pub fn decode_bytes<'a>(bytes: Cow<'a, [u8]>, decoder: Decoder, position: u64) -> (r: Result<
    Cow<'a, str>,
    Error,
>)
    ensures
        error::outcome(r) == (if valid_utf8(bytes@) {
            Ok::<Seq<char>, ErrorView>(decode_utf8(bytes@))
        } else {
            Err(ErrorView::Encoding { position, valid_up_to: text::valid_up_to(bytes@) })
        }),
        r matches Ok(text) ==> bytes is Borrowed ==> text is Borrowed,
{
    match bytes {
        Cow::Borrowed(slice) => match decoder.decode(slice) {
            Ok(decoded) => {
                proof {
                    encode_utf8_decode_utf8(decoded@);
                }
                Ok(decoded)
            },
            Err(source) => {
                proof {
                    text::lemma_valid_up_to(bytes@, reader::encoding_error_index(source));
                }
                Err(Error::encoding(position, source))
            },
        },
        Cow::Owned(owned) => match decoder.decode(owned.as_slice()) {
            Ok(decoded) => {
                proof {
                    encode_utf8_decode_utf8(decoded@);
                }
                Ok(text::text_into_owned(decoded))
            },
            Err(source) => {
                proof {
                    text::lemma_valid_up_to(bytes@, reader::encoding_error_index(source));
                }
                Err(Error::encoding(position, source))
            },
        },
    }
}

/// A raw attribute value has no reference.
pub open spec fn without_reference(raw: Seq<u8>) -> bool {
    !decode_utf8(raw).contains('&')
}

/// Decodes an attribute value. One without references is borrowed.
pub fn decode_attribute_value<'a>(raw: Cow<'a, [u8]>, decoder: Decoder, position: u64) -> (r:
    Result<Cow<'a, str>, Error>)
    ensures
        error::outcome(r) == attribute_value(raw@, position),
        r matches Ok(value) ==> raw is Borrowed && without_reference(raw@) ==> value is Borrowed,
{
    let decoded = decode_bytes(raw, decoder, position)?;
    ensure_xml_chars(text::text_str(&decoded), position)?;
    match decoded {
        Cow::Borrowed(slice) => decode_entities_preserving_unknown(slice, position),
        Cow::Owned(owned) => {
            let value = decode_entities_preserving_unknown(owned.as_str(), position)?;
            Ok(text::text_into_owned(value))
        },
    }
}

} // verus!
