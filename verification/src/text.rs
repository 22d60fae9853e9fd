//! Decimal text of integers.

use vstd::prelude::*;

verus! {

/// The character that stands for a decimal digit.
pub open spec fn digit_char(digit: nat) -> char {
    if digit == 0 {
        '0'
    } else if digit == 1 {
        '1'
    } else if digit == 2 {
        '2'
    } else if digit == 3 {
        '3'
    } else if digit == 4 {
        '4'
    } else if digit == 5 {
        '5'
    } else if digit == 6 {
        '6'
    } else if digit == 7 {
        '7'
    } else if digit == 8 {
        '8'
    } else {
        '9'
    }
}

/// A natural number in decimal: no sign, no padding, no leading zero.
pub open spec fn decimal(n: nat) -> Seq<char>
    decreases n,
{
    if n < 10 {
        seq![digit_char(n)]
    } else {
        decimal(n / 10).push(digit_char(n % 10))
    }
}

/// An integer in decimal: a minus sign before a negative number, else as
/// [`decimal`].
pub open spec fn signed_decimal(v: int) -> Seq<char> {
    if v < 0 {
        seq!['-'] + decimal((-v) as nat)
    } else {
        decimal(v as nat)
    }
}

/// The last `places` decimal digits of `n`, padded with zeros on the left.
pub open spec fn padded_decimal(n: nat, places: nat) -> Seq<char>
    decreases places,
{
    if places == 0 {
        Seq::empty()
    } else {
        padded_decimal(n / 10, (places - 1) as nat).push(digit_char(n % 10))
    }
}

/// The one-character text of a decimal digit.
pub(crate) fn digit_str(digit: u8) -> (text: &'static str)
    requires
        digit < 10,
    ensures
        text@ == seq![digit_char(digit as nat)],
{
    proof {
        reveal_strlit("0");
        reveal_strlit("1");
        reveal_strlit("2");
        reveal_strlit("3");
        reveal_strlit("4");
        reveal_strlit("5");
        reveal_strlit("6");
        reveal_strlit("7");
        reveal_strlit("8");
        reveal_strlit("9");
    }
    let text: &'static str = match digit {
        0 => "0",
        1 => "1",
        2 => "2",
        3 => "3",
        4 => "4",
        5 => "5",
        6 => "6",
        7 => "7",
        8 => "8",
        _ => "9",
    };
    assert(text@ =~= seq![digit_char(digit as nat)]);
    text
}

/// Appends the decimal text of `n` to `out`.
pub fn push_decimal(out: &mut String, n: u128)
    ensures
        final(out)@ == old(out)@ + decimal(n as nat),
    decreases n,
{
    if n >= 10 {
        push_decimal(out, n / 10);
    }
    let digit: u8 = (n % 10) as u8;
    out.append(digit_str(digit));
    proof {
        if n >= 10 {
            assert(out@ =~= old(out)@ + decimal((n / 10) as nat).push(
                digit_char((n % 10) as nat),
            ));
        }
    }
}

/// Appends the last `places` decimal digits of `n` to `out`, padded with zeros
/// on the left.
pub fn push_padded_decimal(out: &mut String, n: u128, places: u8)
    ensures
        final(out)@ == old(out)@ + padded_decimal(n as nat, places as nat),
    decreases places,
{
    if places > 0 {
        push_padded_decimal(out, n / 10, places - 1);
        let digit: u8 = (n % 10) as u8;
        out.append(digit_str(digit));
        proof {
            assert(out@ =~= old(out)@ + padded_decimal(
                (n / 10) as nat,
                (places - 1) as nat,
            ).push(digit_char((n % 10) as nat)));
        }
    } else {
        assert(out@ =~= old(out)@ + padded_decimal(n as nat, places as nat));
    }
}

/// Appends the decimal text of `v` to `out`, with a minus sign if negative.
pub fn push_signed_decimal(out: &mut String, v: i128)
    requires
        v > i128::MIN,
    ensures
        final(out)@ == old(out)@ + signed_decimal(v as int),
{
    if v < 0 {
        proof {
            reveal_strlit("-");
        }
        out.append("-");
        let magnitude: u128 = (-v) as u128;
        push_decimal(out, magnitude);
        assert(out@ =~= old(out)@ + signed_decimal(v as int));
    } else {
        push_decimal(out, v as u128);
    }
}

/// The decimal text of an unsigned integer.
pub fn unsigned_to_string(n: u64) -> (text: String)
    ensures
        text@ == decimal(n as nat),
{
    let mut text = String::new();
    push_decimal(&mut text, n as u128);
    assert(text@ =~= decimal(n as nat));
    text
}

/// The decimal text of a signed integer.
pub fn signed_to_string(v: i64) -> (text: String)
    ensures
        text@ == signed_decimal(v as int),
{
    let mut text = String::new();
    push_signed_decimal(&mut text, v as i128);
    assert(text@ =~= signed_decimal(v as int));
    text
}

/// The parts in order, with the separator between each two of them.
pub open spec fn joined(parts: Seq<Seq<char>>, separator: Seq<char>) -> Seq<char>
    decreases parts.len(),
{
    if parts.len() == 0 {
        Seq::empty()
    } else if parts.len() == 1 {
        parts[0]
    } else {
        joined(parts.drop_last(), separator) + separator + parts.last()
    }
}

/// The texts of a list of strings.
pub open spec fn texts(names: Seq<String>) -> Seq<Seq<char>> {
    names.map_values(|name: String| name@)
}

/// The texts of a list that grew by one string are the texts of the list and
/// then the text of the string.
pub proof fn lemma_texts_push(names: Seq<String>, name: String)
    ensures
        texts(names.push(name)) == texts(names).push(name@),
{
    assert(texts(names.push(name)) =~= texts(names).push(name@));
}

/// Appends to `out` the texts of the names with the separator between each
/// two of them.
pub fn push_joined(out: &mut String, names: &Vec<String>, separator: &str)
    ensures
        final(out)@ == old(out)@ + joined(texts(names@), separator@),
{
    let mut i: usize = 0;
    while i < names.len()
        invariant
            i <= names.len(),
            out@ == old(out)@ + joined(texts(names@).take(i as int), separator@),
        decreases names.len() - i,
    {
        if i > 0 {
            out.append(separator);
        }
        out.append(names[i].as_str());
        proof {
            let longer = texts(names@).take(i + 1);
            assert(longer.drop_last() =~= texts(names@).take(i as int));
            assert(longer.last() == names@[i as int]@);
            assert(out@ =~= old(out)@ + joined(longer, separator@));
        }
        i += 1;
    }
    assert(texts(names@).take(i as int) =~= texts(names@));
}

/// How often a character stands in a text.
pub open spec fn occurrences(text: Seq<char>, wanted: char) -> nat
    decreases text.len(),
{
    if text.len() == 0 {
        0
    } else {
        occurrences(text.drop_last(), wanted) + if text.last() == wanted {
            1nat
        } else {
            0nat
        }
    }
}

/// A character stands in two texts put together as often as in the one and
/// in the other.
pub proof fn lemma_occurrences_concat(front: Seq<char>, back: Seq<char>, wanted: char)
    ensures
        occurrences(front + back, wanted) == occurrences(front, wanted) + occurrences(
            back,
            wanted,
        ),
    decreases back.len(),
{
    if back.len() == 0 {
        assert(front + back =~= front);
    } else {
        lemma_occurrences_concat(front, back.drop_last(), wanted);
        assert((front + back).drop_last() =~= front + back.drop_last());
        assert((front + back).last() == back.last());
    }
}

/// A text of other characters alone holds the wanted one not once.
pub proof fn lemma_occurrences_none(text: Seq<char>, wanted: char)
    requires
        forall|i: int| 0 <= i < text.len() ==> text[i] != wanted,
    ensures
        occurrences(text, wanted) == 0,
    decreases text.len(),
{
    if text.len() > 0 {
        lemma_occurrences_none(text.drop_last(), wanted);
    }
}

/// Whether the character is one of the ten digits.
pub open spec fn is_digit(c: char) -> bool {
    c == '0' || c == '1' || c == '2' || c == '3' || c == '4' || c == '5' || c == '6' || c == '7'
        || c == '8' || c == '9'
}

/// Decimal text is made of digits.
pub proof fn lemma_decimal_digits(n: nat)
    ensures
        decimal(n).len() >= 1,
        forall|i: int| 0 <= i < decimal(n).len() ==> is_digit(#[trigger] decimal(n)[i]),
    decreases n,
{
    if n >= 10 {
        lemma_decimal_digits(n / 10);
    }
}

/// Padded decimal text is made of digits, as many as asked for.
pub proof fn lemma_padded_decimal_digits(n: nat, places: nat)
    ensures
        padded_decimal(n, places).len() == places,
        forall|i: int|
            0 <= i < padded_decimal(n, places).len() ==> is_digit(
                #[trigger] padded_decimal(n, places)[i],
            ),
    decreases places,
{
    if places > 0 {
        lemma_padded_decimal_digits(n / 10, (places - 1) as nat);
    }
}

} // verus!
