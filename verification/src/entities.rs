//! What the references of a document stand for, in content and in attribute values.

use crate::document::NodeView;
use crate::error::ErrorView;
use crate::{lexical, references, tree};
use vstd::arithmetic::power::*;
use vstd::prelude::*;

verus! {

/// The names of the predefined entities.
pub open spec fn predefined() -> Seq<Seq<char>> {
    seq!["amp"@, "lt"@, "gt"@, "quot"@, "apos"@]
}

/// The characters that the predefined entities stand for.
pub open spec fn predefined_characters() -> Seq<char> {
    seq!['&', '<', '>', '"', '\'']
}

/// What a name stands for is known if and only if it is that of a predefined entity, and
/// is then the one character of that entity.
pub proof fn law_predefined_entities(name: Seq<char>)
    ensures
        forall|i: int|
            0 <= i < 5 && name == #[trigger] predefined()[i] ==> lexical::standard_entity(name)
                == Some(seq![predefined_characters()[i]]),
        !predefined().contains(name) ==> lexical::standard_entity(name) is None,
        predefined().no_duplicates(),
{
    lemma_predefined();
    let names = predefined();
    assert(names[0] == "amp"@ && names[1] == "lt"@ && names[2] == "gt"@ && names[3] == "quot"@
        && names[4] == "apos"@);
    reveal_strlit("&");
    reveal_strlit("<");
    reveal_strlit(">");
    reveal_strlit("\"");
    reveal_strlit("'");
    assert("&"@ =~= seq!['&']);
    assert("<"@ =~= seq!['<']);
    assert(">"@ =~= seq!['>']);
    assert("\""@ =~= seq!['"']);
    assert("'"@ =~= seq!['\'']);
}

/// The names of the predefined entities are letters, and differ.
proof fn lemma_predefined()
    ensures
        "amp"@.len() == 3,
        "amp"@[0] == 'a',
        "lt"@.len() == 2,
        "lt"@[0] == 'l',
        "gt"@.len() == 2,
        "gt"@[0] == 'g',
        "quot"@.len() == 4,
        "quot"@[0] == 'q',
        "apos"@.len() == 4,
        "apos"@[0] == 'a',
        forall|i: int, j: int|
            0 <= i < 5 && 0 <= j < predefined()[i].len() ==> 'a' <= #[trigger] predefined()[i][j]
                <= 'z',
{
    reveal_strlit("amp");
    reveal_strlit("lt");
    reveal_strlit("gt");
    reveal_strlit("quot");
    reveal_strlit("apos");
    assert forall|i: int, j: int| 0 <= i < 5 && 0 <= j < predefined()[i].len() implies 'a'
        <= #[trigger] predefined()[i][j] <= 'z' by {
        assert(i == 0 || i == 1 || i == 2 || i == 3 || i == 4);
    }
}

/// In content a reference to a predefined entity is a text of the one character that it
/// stands for. Any other name is kept as a reference to an entity: such a node has the
/// name that was referred to, which is an XML name and none of the predefined.
pub proof fn law_references_in_content(entity: Seq<char>, position: u64)
    ensures
        forall|i: int|
            0 <= i < 5 && entity == #[trigger] predefined()[i] ==> tree::reference_node(
                entity,
                position,
            ) == Ok::<NodeView, ErrorView>(NodeView::Text(seq![predefined_characters()[i]])),
        tree::reference_node(entity, position) == Ok::<NodeView, ErrorView>(
            NodeView::EntityRef(entity),
        ) <==> lexical::xml_name(entity) && !predefined().contains(entity),
        tree::reference_node(entity, position) matches Ok(NodeView::EntityRef(name)) ==> name
            == entity,
        tree::reference_node(entity, position) matches Ok(node) ==> node is Text
            || node is EntityRef,
        entity.len() > 0 && entity[0] == '#' ==> match lexical::character_reference(
            entity,
            position,
        ) {
            Ok(text) => tree::reference_node(entity, position) == Ok::<NodeView, ErrorView>(
                NodeView::Text(text),
            ),
            Err(e) => tree::reference_node(entity, position) == Err::<NodeView, ErrorView>(e),
        },
        !lexical::xml_name(entity) && !(entity.len() > 0 && entity[0] == '#')
            ==> tree::reference_node(entity, position) == Err::<NodeView, ErrorView>(
            ErrorView::InvalidEntityReference { reference: entity, position },
        ),
{
    law_predefined_entities(entity);
    lemma_predefined();
    let names = predefined();
    if names.contains(entity) {
        let i = names.index_of(entity);
        assert(names[i] == entity);
        lemma_predefined_name(i);
    }
}

/// The name of a predefined entity is an XML name.
proof fn lemma_predefined_name(i: int)
    requires
        0 <= i < 5,
    ensures
        lexical::xml_name(predefined()[i]),
        predefined()[i][0] != '#',
{
    lemma_predefined();
    let name = predefined()[i];
    assert(i == 0 || i == 1 || i == 2 || i == 3 || i == 4);
    assert('a' <= name[0] <= 'z');
    assert forall|j: int| 1 <= j < name.len() implies lexical::xml_name_char(#[trigger] name[j]) by {
        assert('a' <= predefined()[i][j] <= 'z');
    }
}

/// A value without an ampersand is decoded to itself.
pub proof fn law_plain_value_is_kept(value: Seq<char>, position: u64)
    requires
        !value.contains('&'),
    ensures
        lexical::decoded_references(value, position) == Ok::<Seq<char>, ErrorView>(value),
{
    lexical::lemma_until(value, '&');
}

/// The first reference of a value, which begins behind a plain text.
proof fn lemma_first_reference(plain: Seq<char>, entity: Seq<char>, rest: Seq<char>)
    requires
        !plain.contains('&'),
        !entity.contains(';'),
    ensures
        ({
            let value = plain + seq!['&'] + entity + seq![';'] + rest;
            &&& lexical::until(value, '&') == plain.len()
            &&& value.skip(plain.len() as int + 1) == entity + seq![';'] + rest
            &&& lexical::until(value.skip(plain.len() as int + 1), ';') == entity.len()
            &&& value.skip(plain.len() as int + 1).take(entity.len() as int) == entity
            &&& value.skip(plain.len() as int + 1).skip(entity.len() as int + 1) == rest
            &&& value.take(plain.len() as int) == plain
        }),
{
    let value = plain + seq!['&'] + entity + seq![';'] + rest;
    let after = entity + seq![';'] + rest;
    let tail = seq!['&'] + after;
    lexical::lemma_until(plain, '&');
    lexical::lemma_until(entity, ';');
    references::lemma_until_concat(plain, tail, '&');
    assert(plain + tail =~= value);
    assert(tail[0] == '&');
    references::lemma_until_concat(entity, seq![';'] + rest, ';');
    assert(entity + (seq![';'] + rest) =~= after);
    assert((seq![';'] + rest)[0] == ';');
    assert(value.skip(plain.len() as int + 1) =~= after);
    assert(after.take(entity.len() as int) =~= entity);
    assert(after.skip(entity.len() as int + 1) =~= rest);
    assert(value.take(plain.len() as int) =~= plain);
}

/// Decoding takes the references of a value one after the other: behind a plain text, a
/// reference becomes what it stands for, and what follows is decoded on its own. A
/// reference that is refused refuses the value.
pub proof fn law_references_are_decoded_in_turn(
    plain: Seq<char>,
    entity: Seq<char>,
    rest: Seq<char>,
    position: u64,
)
    requires
        !plain.contains('&'),
        !entity.contains(';'),
    ensures
        ({
            let value = plain + seq!['&'] + entity + seq![';'] + rest;
            match (
                lexical::reference_text(entity, position),
                lexical::decoded_references(rest, position),
            ) {
                (Err(e), _) => lexical::decoded_references(value, position) == Err::<
                    Seq<char>,
                    ErrorView,
                >(e),
                (Ok(_), Err(e)) => lexical::decoded_references(value, position) == Err::<
                    Seq<char>,
                    ErrorView,
                >(e),
                (Ok(text), Ok(decoded)) => lexical::decoded_references(value, position) == Ok::<
                    Seq<char>,
                    ErrorView,
                >(plain + text + decoded),
            }
        }),
{
    lemma_first_reference(plain, entity, rest);
}

/// A reference that is not closed is refused, with all that follows the ampersand.
pub proof fn law_unclosed_reference_is_refused(
    plain: Seq<char>,
    behind: Seq<char>,
    position: u64,
)
    requires
        !plain.contains('&'),
        !behind.contains(';'),
    ensures
        lexical::decoded_references(plain + seq!['&'] + behind, position) == Err::<
            Seq<char>,
            ErrorView,
        >(ErrorView::InvalidEntityReference { reference: behind, position }),
{
    let value = plain + seq!['&'] + behind;
    lexical::lemma_until(plain, '&');
    lexical::lemma_until(behind, ';');
    references::lemma_until_concat(plain, seq!['&'] + behind, '&');
    assert(plain + (seq!['&'] + behind) =~= value);
    assert((seq!['&'] + behind)[0] == '&');
    assert(value.skip(plain.len() as int + 1) =~= behind);
}

/// In a value a reference to a predefined entity becomes the one character that it stands
/// for, a character reference the character, and any other name stays as it is written.
pub proof fn law_references_in_values(entity: Seq<char>, position: u64)
    ensures
        forall|i: int|
            0 <= i < 5 && entity == #[trigger] predefined()[i] ==> lexical::reference_text(
                entity,
                position,
            ) == Ok::<Seq<char>, ErrorView>(seq![predefined_characters()[i]]),
        lexical::xml_name(entity) && !predefined().contains(entity) ==> lexical::reference_text(
            entity,
            position,
        ) == Ok::<Seq<char>, ErrorView>(seq!['&'] + entity + seq![';']),
        entity.len() > 0 && entity[0] == '#' ==> lexical::reference_text(entity, position)
            == lexical::character_reference(entity, position),
        !lexical::xml_name(entity) && !(entity.len() > 0 && entity[0] == '#')
            ==> lexical::reference_text(entity, position) == Err::<Seq<char>, ErrorView>(
            ErrorView::InvalidEntityReference { reference: entity, position },
        ),
{
    law_predefined_entities(entity);
    lemma_predefined();
    reveal_strlit("&");
    reveal_strlit(";");
    assert("&"@ =~= seq!['&']);
    assert(";"@ =~= seq![';']);
    let names = predefined();
    if names.contains(entity) {
        let i = names.index_of(entity);
        assert(names[i] == entity);
        lemma_predefined_name(i);
    }
}

/// The digits in the order of their values, in lower and in upper case.
pub open spec fn digits_in_order() -> (Seq<char>, Seq<char>) {
    (
        seq!['0', '1', '2', '3', '4', '5', '6', '7', '8', '9', 'a', 'b', 'c', 'd', 'e', 'f'],
        seq!['0', '1', '2', '3', '4', '5', '6', '7', '8', '9', 'A', 'B', 'C', 'D', 'E', 'F'],
    )
}

/// The value of a digit is its place among the digits, whatever its case.
pub proof fn law_digit_values(ch: char, value: nat)
    ensures
        lexical::digit_value(ch) == Some(value) <==> value < 16 && (digits_in_order().0[value as int]
            == ch || digits_in_order().1[value as int] == ch),
{
    let (lower, upper) = digits_in_order();
    let c = ch as u32;
    if value < 10 {
        assert(lower[value as int] as u32 == 0x30 + value);
        assert(upper[value as int] as u32 == 0x30 + value);
    } else if value < 16 {
        assert(lower[value as int] as u32 == 0x61 + value - 10);
        assert(upper[value as int] as u32 == 0x41 + value - 10);
    }
}

/// All characters of a text are digits of a base.
pub open spec fn all_digits(s: Seq<char>, radix: nat) -> bool {
    forall|i: int|
        0 <= i < s.len() ==> lexical::digit_value(#[trigger] s[i]) is Some && lexical::digit_value(
            s[i],
        )->0 < radix
}

/// Digits denote a number by their places: the first counts as often as there are numbers
/// that the digits behind it can write. Without digits the number is 0, and where one of
/// the characters is no digit of the base there is none.
pub proof fn law_digits_count_by_place(first: char, rest: Seq<char>, radix: nat)
    requires
        radix > 0,
    ensures
        lexical::digits_value(Seq::empty(), radix) == Some(0nat),
        lexical::digits_value(seq![first] + rest, radix) is Some <==> all_digits(
            seq![first] + rest,
            radix,
        ),
        all_digits(seq![first] + rest, radix) ==> {
            &&& lexical::digits_value(rest, radix) is Some
            &&& lexical::digits_value(seq![first] + rest, radix)->0 == lexical::digit_value(
                first,
            )->0 * pow(radix as int, rest.len()) + lexical::digits_value(rest, radix)->0
        },
    decreases rest.len(),
{
    let all = seq![first] + rest;
    assert(all[0] == first);
    if rest.len() == 0 {
        assert(all.drop_last() =~= Seq::empty());
        assert(rest =~= Seq::empty());
        reveal_with_fuel(lexical::digits_value, 2);
        lemma_pow0(radix as int);
        let f = lexical::digit_value(first)->0 as int;
        assert(f * pow(radix as int, 0) == f) by (nonlinear_arith)
            requires
                pow(radix as int, 0) == 1,
        ;
        assert(0 * radix == 0) by (nonlinear_arith);
        if all_digits(all, radix) {
            assert(lexical::digit_value(all[0]) is Some);
        }
    } else {
        let shorter = rest.drop_last();
        let last = rest.last();
        law_digits_count_by_place(first, shorter, radix);
        assert(all.drop_last() =~= seq![first] + shorter);
        assert(all.last() == last);
        assert(all_digits(all, radix) <==> all_digits(seq![first] + shorter, radix)
            && lexical::digit_value(last) is Some && lexical::digit_value(last)->0 < radix) by {
            let before = seq![first] + shorter;
            if all_digits(all, radix) {
                assert forall|i: int| 0 <= i < before.len() implies lexical::digit_value(
                    #[trigger] before[i],
                ) is Some && lexical::digit_value(before[i])->0 < radix by {
                    assert(before[i] == all[i]);
                }
                assert(all[all.len() - 1] == last);
            }
            if all_digits(before, radix) && lexical::digit_value(last) is Some
                && lexical::digit_value(last)->0 < radix {
                assert forall|i: int| 0 <= i < all.len() implies lexical::digit_value(
                    #[trigger] all[i],
                ) is Some && lexical::digit_value(all[i])->0 < radix by {
                    if i < before.len() {
                        assert(all[i] == before[i]);
                    }
                }
            }
        }
        if all_digits(all, radix) {
            let f = lexical::digit_value(first)->0 as int;
            let p = pow(radix as int, shorter.len());
            let v = lexical::digits_value(shorter, radix)->0 as int;
            let r = radix as int;
            lemma_pow1(r);
            lemma_pow_adds(r, shorter.len(), 1);
            assert(pow(r, rest.len()) == p * r);
            let low = lexical::digit_value(last)->0 as int;
            assert((f * p + v) * r == f * (p * r) + v * r) by (nonlinear_arith);
            assert(lexical::digits_value(rest, radix) == Some((v * r + low) as nat)) by {
                assert(v * r >= 0) by (nonlinear_arith)
                    requires
                        v >= 0,
                        r >= 0,
                ;
            }
            assert(lexical::digits_value(all, radix)->0 == (f * p + v) * r + low);
        }
    }
}

/// A number is written with at least one digit, and with a plus sign before the digits or
/// without; it has no more than 32 bits.
pub proof fn law_number_is_written_in_digits(digits: Seq<char>, radix: nat)
    requires
        0 < radix <= 16,
        digits.len() == 0 || digits[0] != '+',
    ensures
        lexical::number(digits, radix) == lexical::number(seq!['+'] + digits, radix),
        match lexical::number(digits, radix) {
            Some(value) => digits.len() > 0 && lexical::digits_value(digits, radix) == Some(
                value as nat,
            ),
            None => digits.len() == 0 || !all_digits(digits, radix) || lexical::digits_value(
                digits,
                radix,
            )->0 > 0xFFFF_FFFF,
        },
{
    assert((seq!['+'] + digits).skip(1) =~= digits);
    if digits.len() > 0 {
        assert(digits =~= seq![digits[0]] + digits.skip(1));
        law_digits_count_by_place(digits[0], digits.skip(1), radix);
    }
}

/// A character reference gives the one character that its number, decimal or behind an `x`
/// hexadecimal, is the code point of, where XML allows it, and is refused otherwise.
pub proof fn law_character_reference_is_its_number(body: Seq<char>, position: u64)
    ensures
        ({
            let hexadecimal = body.len() > 0 && (body[0] == 'x' || body[0] == 'X');
            let number = if hexadecimal {
                lexical::number(body.skip(1), 16)
            } else {
                lexical::number(body, 10)
            };
            let entity = seq!['#'] + body;
            match lexical::character_reference(entity, position) {
                Ok(text) => {
                    &&& text.len() == 1
                    &&& number == Some(text[0] as u32)
                    &&& lexical::xml_char(text[0])
                },
                Err(e) => {
                    &&& e == (ErrorView::InvalidCharacterReference { reference: entity, position })
                    &&& forall|ch: char| #[trigger] lexical::xml_char(ch) ==> number != Some(ch as u32)
                },
            }
        }),
{
    assert((seq!['#'] + body).skip(1) =~= body);
}

/// What does not begin with a number sign is no character reference, and stays as it is
/// written.
pub proof fn law_other_reference_is_kept(entity: Seq<char>, position: u64)
    requires
        entity.len() == 0 || entity[0] != '#',
    ensures
        lexical::character_reference(entity, position) == Ok::<Seq<char>, ErrorView>(
            seq!['&'] + entity + seq![';'],
        ),
{
    reveal_strlit("&");
    reveal_strlit(";");
    assert("&"@ =~= seq!['&']);
    assert(";"@ =~= seq![';']);
}

} // verus!
