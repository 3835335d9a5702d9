//! What references in a document stand for.

use crate::error::ErrorView;
use crate::{lexical, text};
use vstd::prelude::*;

verus! {

/// A text up to the first `ch`, where it ends with the only one.
proof fn lemma_until_last(s: Seq<char>, ch: char)
    requires
        forall|i: int| 0 <= i < s.len() ==> s[i] != ch,
    ensures
        lexical::until(s.push(ch), ch) == s.len(),
    decreases s.len(),
{
    let all = s.push(ch);
    if s.len() > 0 {
        let rest = s.skip(1);
        assert(all.skip(1) =~= rest.push(ch));
        lemma_until_last(rest, ch);
    }
}

/// A reference to an entity that is not predefined stays in an attribute value as it
/// stands.
pub proof fn law_unknown_reference_is_kept(name: Seq<char>, position: u64)
    requires
        lexical::xml_name(name),
        lexical::standard_entity(name) is None,
    ensures
        lexical::decoded_references("&"@ + name + ";"@, position) == Ok::<Seq<char>, ErrorView>(
            "&"@ + name + ";"@,
        ),
{
    reveal_strlit("&");
    reveal_strlit(";");
    let s = "&"@ + name + ";"@;
    let after = s.skip(1);
    assert(after =~= name.push(';'));
    assert forall|i: int| 0 <= i < name.len() implies name[i] != ';' by {
        if i > 0 {
            assert(lexical::xml_name_char(name[i]));
        }
    }
    lemma_until_last(name, ';');
    assert(after.take(name.len() as int) =~= name);
    assert(after.skip((name.len() + 1) as int) =~= Seq::<char>::empty());
    assert(s.take(0) + s + Seq::<char>::empty() =~= s);
    assert(lexical::until(s, '&') == 0);
    reveal_with_fuel(lexical::decoded_references, 2);
}

/// The first `ch` of a text is still the first where more text follows; where there is
/// none, the first is that of the text that follows.
pub proof fn lemma_until_concat(a: Seq<char>, b: Seq<char>, ch: char)
    ensures
        lexical::until(a, ch) < a.len() ==> lexical::until(a + b, ch) == lexical::until(a, ch),
        lexical::until(a, ch) == a.len() ==> lexical::until(a + b, ch) == a.len() + lexical::until(
            b,
            ch,
        ),
    decreases a.len(),
{
    if a.len() == 0 {
        assert(a + b =~= b);
    } else if a[0] != ch {
        assert((a + b).skip(1) =~= a.skip(1) + b);
        lemma_until_concat(a.skip(1), b, ch);
    }
}

/// Decoding two values that are joined gives the decoded values, joined: where each can be
/// decoded on its own, no reference goes from one into the other.
pub proof fn law_decoding_joins(a: Seq<char>, b: Seq<char>, position: u64)
    requires
        lexical::decoded_references(a, position) is Ok,
        lexical::decoded_references(b, position) is Ok,
    ensures
        lexical::decoded_references(a + b, position) == Ok::<Seq<char>, ErrorView>(
            lexical::decoded_references(a, position)->Ok_0 + lexical::decoded_references(
                b,
                position,
            )->Ok_0,
        ),
    decreases a.len(),
{
    let x = lexical::decoded_references(a, position)->Ok_0;
    let y = lexical::decoded_references(b, position)->Ok_0;
    let all = a + b;
    lexical::lemma_until(a, '&');
    lexical::lemma_until(b, '&');
    lemma_until_concat(a, b, '&');
    let start = lexical::until(a, '&') as int;
    if start < a.len() {
        let after = a.skip(start + 1);
        lexical::lemma_until(after, ';');
        lemma_until_concat(after, b, ';');
        let end = lexical::until(after, ';') as int;
        assert(all.skip(start + 1) =~= after + b);
        assert((after + b).take(end) =~= after.take(end));
        assert((after + b).skip(end + 1) =~= after.skip(end + 1) + b);
        assert(all.take(start) =~= a.take(start));
        law_decoding_joins(after.skip(end + 1), b, position);
        let decoded = lexical::reference_text(after.take(end), position)->Ok_0;
        let rest = lexical::decoded_references(after.skip(end + 1), position)->Ok_0;
        assert(a.take(start) + decoded + (rest + y) =~= x + y);
    } else {
        let first = lexical::until(b, '&') as int;
        if first < b.len() {
            assert(all.skip(a.len() + first + 1) =~= b.skip(first + 1));
            assert(all.take(a.len() + first) =~= a + b.take(first));
            let after = b.skip(first + 1);
            let end = lexical::until(after, ';') as int;
            let decoded = lexical::reference_text(after.take(end), position)->Ok_0;
            let rest = lexical::decoded_references(after.skip(end + 1), position)->Ok_0;
            assert(a + b.take(first) + decoded + rest =~= x + y);
        }
    }
}

/// The digits of a number denote it.
proof fn lemma_decimal_value(n: nat)
    ensures
        lexical::digits_value(text::decimal(n), 10) == Some(n),
        text::decimal(n).len() > 0,
        text::decimal(n)[0] != '+',
        text::decimal(n)[0] != 'x',
        text::decimal(n)[0] != 'X',
    decreases n,
{
    let digits = text::decimal(n);
    let last = text::digit_char(n % 10);
    assert(last as u32 == 0x30 + n % 10);
    assert(lexical::digit_value(last) == Some(n % 10));
    reveal_with_fuel(lexical::digits_value, 2);
    if n >= 10 {
        lemma_decimal_value(n / 10);
        assert(digits.drop_last() =~= text::decimal(n / 10));
    } else {
        assert(digits.drop_last() =~= Seq::<char>::empty());
    }
}

/// Every character that XML allows can be referred to by its number.
pub proof fn law_character_reference_denotes(ch: char, position: u64)
    requires
        lexical::xml_char(ch),
    ensures
        lexical::character_reference("#"@ + text::decimal(ch as nat), position) == Ok::<
            Seq<char>,
            ErrorView,
        >(seq![ch]),
{
    reveal_strlit("#");
    let entity = "#"@ + text::decimal(ch as nat);
    lemma_decimal_value(ch as nat);
    assert(entity.skip(1) =~= text::decimal(ch as nat));
}

} // verus!
