//! What texts promise: that a reader gets back what was written.

use vstd::prelude::*;

use crate::text::{
    blank, decimal, joined_words, left_aligned, right_aligned, signed_decimal, white_space,
};
use crate::value::{hex, value_text, ValueView};

verus! {

/// The number that decimal digits spell, most significant first.
pub open spec fn number_read(digits: Seq<char>) -> int
    decreases digits.len(),
{
    if digits.len() == 0 {
        0
    } else {
        number_read(digits.drop_last()) * 10 + (digits.last() as u32 - 48)
    }
}

/// A number reads back from its digits, and nothing but digits is written, with no zero in front.
pub proof fn a_number_reads_back(n: nat)
    ensures
        number_read(decimal(n)) == n,
        decimal(n).len() > 0,
        forall|i: int| 0 <= i < decimal(n).len() ==> 48 <= (#[trigger] decimal(n)[i]) as u32 <= 57,
        n > 0 ==> decimal(n)[0] != '0',
        n == 0 ==> decimal(n) == seq!['0'],
    decreases n,
{
    reveal_with_fuel(number_read, 2);
    if n >= 10 {
        a_number_reads_back(n / 10);
        let shorter = decimal(n / 10);
        assert(decimal(n).drop_last() =~= shorter);
        assert(decimal(n)[0] == shorter[0]);
        assert forall|i: int| 0 <= i < decimal(n).len() implies 48 <= (
        #[trigger] decimal(n)[i]) as u32 <= 57 by {
            if i < shorter.len() {
                assert(decimal(n)[i] == shorter[i]);
            }
        }
    } else {
        assert(decimal(n).drop_last() =~= Seq::<char>::empty());
    }
}

/// No two numbers are written the same way.
pub proof fn numbers_are_told_apart(a: nat, b: nat)
    requires
        decimal(a) == decimal(b),
    ensures
        a == b,
{
    a_number_reads_back(a);
    a_number_reads_back(b);
}

/// A number below zero is a minus sign and the number without it; any other is its digits.
pub proof fn a_signed_number_reads_back(n: int)
    ensures
        n < 0 ==> signed_decimal(n)[0] == '-' && number_read(signed_decimal(n).skip(1)) == -n,
        n >= 0 ==> number_read(signed_decimal(n)) == n && signed_decimal(n)[0] != '-',
{
    if n < 0 {
        a_number_reads_back((-n) as nat);
        assert(signed_decimal(n).skip(1) =~= decimal((-n) as nat));
    } else {
        a_number_reads_back(n as nat);
        assert(48 <= signed_decimal(n)[0] as u32);
    }
}

/// A column is as wide as it is told, or as what stands in it where that is wider; what stands in
/// it is whole, at the right or at the left, and the rest is filled.
pub proof fn columns_are_filled(text: Seq<char>, fill: char, width: nat)
    ensures
        ({
            let right = right_aligned(text, fill, width);
            let left = left_aligned(text, width);
            let wide = if text.len() < width {
                width
            } else {
                text.len()
            };
            &&& right.len() == wide
            &&& left.len() == wide
            &&& right.skip(wide - text.len()) == text
            &&& left.take(text.len() as int) == text
            &&& forall|i: int| 0 <= i < wide - text.len() ==> (#[trigger] right[i]) == fill
            &&& forall|i: int| text.len() <= i < wide ==> (#[trigger] left[i]) == ' '
        }),
{
    let right = right_aligned(text, fill, width);
    let left = left_aligned(text, width);
    assert(right.skip(right.len() - text.len()) =~= text);
    assert(left.take(text.len() as int) =~= text);
}

/// Words stand in their order with one separator between each and the next, and none at the ends.
pub proof fn words_are_separated(words: Seq<Seq<char>>, word: Seq<char>, separator: Seq<char>)
    ensures
        joined_words(Seq::<Seq<char>>::empty(), separator) == Seq::<char>::empty(),
        joined_words(seq![word], separator) == word,
        words.len() > 0 ==> joined_words(words.push(word), separator) == joined_words(
            words,
            separator,
        ) + separator + word,
{
    assert(words.push(word).drop_last() =~= words);
}

/// A text is blank exactly where no character of it shows: an empty one is, a letter makes it not.
pub proof fn a_blank_text_shows_nothing(text: Seq<char>, c: char)
    ensures
        blank(Seq::<char>::empty()),
        blank(text.push(c)) <==> blank(text) && white_space(c),
        white_space(' '),
        white_space('\t'),
        white_space('\n'),
        33 <= c as u32 <= 126 ==> !white_space(c),
{
    if blank(text.push(c)) {
        assert forall|i: int| 0 <= i < text.len() implies white_space(#[trigger] text[i]) by {
            assert(text.push(c)[i] == text[i]);
        }
        assert(text.push(c)[text.len() as int] == c);
    }
    if blank(text) && white_space(c) {
        assert forall|i: int| 0 <= i < text.push(c).len() implies white_space(
            #[trigger] text.push(c)[i],
        ) by {
            if i < text.len() {
                assert(text.push(c)[i] == text[i]);
            }
        }
    }
}

/// What a hexadecimal digit stands for.
pub open spec fn hex_read(c: char) -> int {
    if c as u32 <= 57 {
        c as u32 - 48
    } else {
        c as u32 - 97 + 10
    }
}

/// Bytes read back from their hexadecimal digits, two for each.
pub proof fn bytes_read_back(bytes: Seq<u8>)
    ensures
        hex(bytes).len() == 2 * bytes.len(),
        forall|i: int|
            0 <= i < bytes.len() ==> hex_read(hex(bytes)[2 * i]) * 16 + hex_read(
                hex(bytes)[2 * i + 1],
            ) == #[trigger] bytes[i],
    decreases bytes.len(),
{
    if bytes.len() > 0 {
        let rest = bytes.drop_last();
        bytes_read_back(rest);
        let last = bytes.last();
        assert(last as int / 16 < 16 && last as int % 16 < 16);
        assert forall|i: int| 0 <= i < bytes.len() implies hex_read(hex(bytes)[2 * i]) * 16
            + hex_read(hex(bytes)[2 * i + 1]) == #[trigger] bytes[i] by {
            if i < rest.len() {
                assert(rest[i] == bytes[i]);
                assert(hex(bytes)[2 * i] == hex(rest)[2 * i]);
                assert(hex(bytes)[2 * i + 1] == hex(rest)[2 * i + 1]);
            } else {
                assert(hex(bytes)[2 * i] == crate::value::hex_digit(last as int / 16));
                assert(hex(bytes)[2 * i + 1] == crate::value::hex_digit(last as int % 16));
            }
        }
    }
}

/// What a table shows of a value is the value: an integer in digits, a float as it was given, a
/// label and a text as they are, and of bytes all of them, or the first sixteen and how many there
/// are.
pub proof fn a_value_is_shown_as_it_is(value: ValueView, float_text: Seq<char>)
    ensures
        match value {
            ValueView::Unsigned(n) => number_read(value_text(value, float_text)) == n,
            ValueView::Signed(n) => n >= 0 ==> number_read(value_text(value, float_text)) == n,
            ValueView::Float(_) => value_text(value, float_text) == float_text,
            ValueView::Bool(flag) => value_text(value, float_text) == (if flag {
                seq!['t', 'r', 'u', 'e']
            } else {
                seq!['f', 'a', 'l', 's', 'e']
            }),
            ValueView::Label(text) => value_text(value, float_text) == text,
            ValueView::Text(text) => value_text(value, float_text) == text,
            ValueView::Bytes(bytes) => {
                let shown = value_text(value, float_text);
                let head = if bytes.len() <= 16 {
                    bytes.len() as int
                } else {
                    16
                };
                &&& shown.len() >= 2 * head
                &&& forall|i: int|
                    0 <= i < head ==> hex_read(shown[2 * i]) * 16 + hex_read(shown[2 * i + 1])
                        == #[trigger] bytes[i]
                &&& bytes.len() <= 16 ==> shown.len() == 2 * bytes.len()
                &&& bytes.len() > 16 ==> shown.len() > 32 && number_read(
                    shown.subrange(35, shown.len() - 7),
                ) == bytes.len()
            },
        },
        value matches ValueView::Signed(n) ==> (n < 0 ==> value_text(value, float_text)[0] == '-'
            && number_read(value_text(value, float_text).skip(1)) == -n),
{
    match value {
        ValueView::Unsigned(n) => a_number_reads_back(n as nat),
        ValueView::Signed(n) => a_signed_number_reads_back(n as int),
        ValueView::Bool(_) => {
            reveal_strlit("true");
            reveal_strlit("false");
        },
        ValueView::Bytes(bytes) => {
            reveal_strlit("… (");
            reveal_strlit(" bytes)");
            let head = if bytes.len() <= 16 {
                bytes
            } else {
                bytes.take(16)
            };
            bytes_read_back(head);
            let shown = value_text(value, float_text);
            assert forall|i: int| 0 <= i < head.len() implies hex_read(shown[2 * i]) * 16 + hex_read(
                shown[2 * i + 1],
            ) == #[trigger] bytes[i] by {
                assert(head[i] == bytes[i]);
                assert(shown[2 * i] == hex(head)[2 * i]);
                assert(shown[2 * i + 1] == hex(head)[2 * i + 1]);
            }
            if bytes.len() > 16 {
                a_number_reads_back(bytes.len());
                assert(shown.subrange(35, shown.len() - 7) =~= decimal(bytes.len()));
            }
        },
        _ => {},
    }
}

/// Whether a text says something between two others: what stands in front of it, and what behind.
pub open spec fn shows(text: Seq<char>, front: Seq<char>, shown: Seq<char>, behind: Seq<char>) -> bool {
    exists|a: Seq<char>, b: Seq<char>| text == #[trigger] (a + front + shown + behind + b)
}

/// Texts one behind the other.
pub open spec fn strung(parts: Seq<Seq<char>>) -> Seq<char>
    decreases parts.len(),
{
    if parts.len() == 0 {
        Seq::empty()
    } else {
        strung(parts.drop_last()) + parts.last()
    }
}

/// One text more stands behind the others.
pub proof fn lemma_strung_push(parts: Seq<Seq<char>>, part: Seq<char>)
    ensures
        strung(parts.push(part)) == strung(parts) + part,
{
    assert(parts.push(part).drop_last() =~= parts);
}

/// Of texts one behind the other each is shown between its neighbours.
pub proof fn lemma_strung_shows(parts: Seq<Seq<char>>, place: int)
    requires
        0 <= place,
        place + 2 < parts.len(),
    ensures
        shows(strung(parts), parts[place], parts[place + 1], parts[place + 2]),
    decreases parts.len(),
{
    let rest = parts.drop_last();
    if place + 2 < rest.len() {
        lemma_strung_shows(rest, place);
        let (a, b) = choose|a: Seq<char>, b: Seq<char>|
            strung(rest) == #[trigger] (a + rest[place] + rest[place + 1] + rest[place + 2] + b);
        let more = b + parts.last();
        assert(strung(parts) =~= a + parts[place] + parts[place + 1] + parts[place + 2] + more);
    } else {
        let none = Seq::<char>::empty();
        let before = parts.take(place);
        lemma_strung_push(before, parts[place]);
        lemma_strung_push(before.push(parts[place]), parts[place + 1]);
        assert(rest =~= before.push(parts[place]).push(parts[place + 1]));
        assert(strung(parts) =~= strung(before) + parts[place] + parts[place + 1] + parts[place + 2]
            + none);
    }
}

} // verus!
