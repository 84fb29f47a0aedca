//! Building text: decimal numbers, padding and comparison.

use vstd::prelude::*;
use vstd::string::*;

verus! {

/// `String::push` appends one character and changes nothing else.
pub assume_specification[ String::push ](s: &mut String, c: char)
    ensures
        final(s)@ == old(s)@.push(c),
;

/// `==` on two string slices: true exactly when both hold the same characters.
pub assume_specification[ <str as PartialEq<str>>::eq ](a: &str, b: &str) -> (r: bool)
    ensures
        r == (a@ == b@),
;

/// Whether two slices hold the same characters.
pub fn same_text(a: &str, b: &str) -> (r: bool)
    ensures
        r == (a@ == b@),
{
    *a == *b
}

/// The character of a decimal digit.
pub open spec fn digit(d: nat) -> char {
    if d == 0 {
        '0'
    } else if d == 1 {
        '1'
    } else if d == 2 {
        '2'
    } else if d == 3 {
        '3'
    } else if d == 4 {
        '4'
    } else if d == 5 {
        '5'
    } else if d == 6 {
        '6'
    } else if d == 7 {
        '7'
    } else if d == 8 {
        '8'
    } else {
        '9'
    }
}

/// The decimal rendering of a natural number, most significant digit first.
pub open spec fn decimal(n: nat) -> Seq<char>
    decreases n,
{
    if n < 10 {
        seq![digit(n)]
    } else {
        decimal(n / 10).push(digit(n % 10))
    }
}

/// The decimal rendering of an integer, with a minus sign below zero.
pub open spec fn signed_decimal(n: int) -> Seq<char> {
    if n < 0 {
        seq!['-'] + decimal((-n) as nat)
    } else {
        decimal(n as nat)
    }
}

/// `count` copies of one character.
pub open spec fn repeated(c: char, count: nat) -> Seq<char> {
    Seq::new(count, |i: int| c)
}

/// `text` with `fill` in front of it until it is `width` characters long.
pub open spec fn right_aligned(text: Seq<char>, fill: char, width: nat) -> Seq<char> {
    if text.len() < width {
        repeated(fill, (width - text.len()) as nat) + text
    } else {
        text
    }
}

/// `text` with spaces behind it until it is `width` characters long.
pub open spec fn left_aligned(text: Seq<char>, width: nat) -> Seq<char> {
    if text.len() < width {
        text + repeated(' ', (width - text.len()) as nat)
    } else {
        text
    }
}

/// The character of a decimal digit.
pub fn digit_char(d: u64) -> (c: char)
    requires
        d < 10,
    ensures
        c == digit(d as nat),
{
    match d {
        0 => '0',
        1 => '1',
        2 => '2',
        3 => '3',
        4 => '4',
        5 => '5',
        6 => '6',
        7 => '7',
        8 => '8',
        _ => '9',
    }
}

/// Appends `n` in decimal.
pub fn push_decimal(out: &mut String, n: u64)
    ensures
        final(out)@ == old(out)@ + decimal(n as nat),
    decreases n,
{
    if n >= 10 {
        push_decimal(out, n / 10);
    }
    out.push(digit_char(n % 10));
    assert(out@ =~= old(out)@ + decimal(n as nat));
}

/// Appends `n` in decimal, with a minus sign below zero.
pub fn push_signed(out: &mut String, n: i64)
    ensures
        final(out)@ == old(out)@ + signed_decimal(n as int),
{
    if n < 0 {
        out.push('-');
        let magnitude: u64 = if n == i64::MIN {
            0x8000_0000_0000_0000
        } else {
            (-n) as u64
        };
        push_decimal(out, magnitude);
        assert(out@ =~= old(out)@ + signed_decimal(n as int));
    } else {
        push_decimal(out, n as u64);
    }
}

/// How many characters the decimal rendering of `n` takes.
pub fn decimal_width(n: u64) -> (w: usize)
    ensures
        w == decimal(n as nat).len(),
        1 <= w <= 20,
{
    let mut rest: u64 = n;
    let mut width: usize = 1;
    assert(pow10(20) > 0x1_0000_0000_0000_0000) by {
        reveal_with_fuel(pow10, 21);
    }
    while rest >= 10
        invariant
            decimal(n as nat).len() == decimal(rest as nat).len() + width - 1,
            1 <= width <= 20,
            rest < pow10((21 - width) as nat),
        decreases rest,
    {
        proof {
            if width == 20 {
                reveal_with_fuel(pow10, 2);
            }
        }
        rest = rest / 10;
        width = width + 1;
    }
    width
}

spec fn pow10(n: nat) -> nat
    decreases n,
{
    if n == 0 {
        1
    } else {
        10 * pow10((n - 1) as nat)
    }
}

/// Appends `count` copies of `c`.
pub fn push_repeated(out: &mut String, c: char, count: usize)
    ensures
        final(out)@ == old(out)@ + repeated(c, count as nat),
{
    let ghost before = out@;
    let mut done: usize = 0;
    while done < count
        invariant
            done <= count,
            out@ == before + repeated(c, done as nat),
        decreases count - done,
    {
        out.push(c);
        done = done + 1;
        assert(out@ =~= before + repeated(c, done as nat));
    }
}

/// Appends `n` in decimal, zero-padded to at least `width` digits.
pub fn push_padded(out: &mut String, n: u64, width: usize)
    ensures
        final(out)@ == old(out)@ + right_aligned(decimal(n as nat), '0', width as nat),
{
    let digits: usize = decimal_width(n);
    if digits < width {
        push_repeated(out, '0', width - digits);
    }
    push_decimal(out, n);
    assert(out@ =~= old(out)@ + right_aligned(decimal(n as nat), '0', width as nat));
}

/// Appends `n` in decimal, right-aligned with spaces in `width` characters.
pub fn push_right(out: &mut String, n: u64, width: usize)
    ensures
        final(out)@ == old(out)@ + right_aligned(decimal(n as nat), ' ', width as nat),
{
    let digits: usize = decimal_width(n);
    if digits < width {
        push_repeated(out, ' ', width - digits);
    }
    push_decimal(out, n);
    assert(out@ =~= old(out)@ + right_aligned(decimal(n as nat), ' ', width as nat));
}

/// Appends `text`, left-aligned with spaces in `width` characters.
pub fn push_left(out: &mut String, text: &str, width: usize)
    ensures
        final(out)@ == old(out)@ + left_aligned(text@, width as nat),
{
    out.append(text);
    let length: usize = text.unicode_len();
    if length < width {
        push_repeated(out, ' ', width - length);
    }
    assert(out@ =~= old(out)@ + left_aligned(text@, width as nat));
}

/// Words with `separator` between each and the next.
pub open spec fn joined_words(words: Seq<Seq<char>>, separator: Seq<char>) -> Seq<char>
    decreases words.len(),
{
    if words.len() == 0 {
        Seq::empty()
    } else if words.len() == 1 {
        words[0]
    } else {
        joined_words(words.drop_last(), separator) + separator + words.last()
    }
}

/// What the words of a list hold.
pub open spec fn word_views(words: Seq<&'static str>) -> Seq<Seq<char>> {
    words.map_values(|word: &'static str| word@)
}

/// Words with `separator` between each and the next.
pub fn join_words(words: &Vec<&'static str>, separator: &str) -> (r: String)
    ensures
        r@ == joined_words(word_views(words@), separator@),
{
    let ghost all = word_views(words@);
    let mut out: String = String::new();
    let mut done: usize = 0;
    assert(out@ =~= joined_words(all.take(0), separator@));
    while done < words.len()
        invariant
            done <= words@.len(),
            all == word_views(words@),
            out@ == joined_words(all.take(done as int), separator@),
        decreases words@.len() - done,
    {
        if done > 0 {
            out.append(separator);
        }
        out.append(words[done]);
        proof {
            let next = all.take(done + 1);
            assert(next.drop_last() =~= all.take(done as int));
            assert(out@ =~= joined_words(next, separator@));
        }
        done = done + 1;
    }
    assert(all.take(done as int) =~= all);
    out
}

/// Whether Unicode counts a character as white space: the control characters from the tab to the
/// carriage return, the space, the next-line control, and the spaces and separators beyond ASCII.
pub open spec fn white_space(c: char) -> bool {
    let code = c as u32;
    ||| 0x9 <= code <= 0xd
    ||| code == 0x20
    ||| code == 0x85
    ||| code == 0xa0
    ||| code == 0x1680
    ||| 0x2000 <= code <= 0x200a
    ||| code == 0x2028
    ||| code == 0x2029
    ||| code == 0x202f
    ||| code == 0x205f
    ||| code == 0x3000
}

/// `char::is_whitespace`: whether a character has the Unicode property `White_Space`, whose
/// characters are those of [`white_space`].
pub assume_specification[ char::is_whitespace ](c: char) -> (r: bool)
    ensures
        r == white_space(c),
;

/// Whether a text is nothing but white space.
pub open spec fn blank(text: Seq<char>) -> bool {
    forall|i: int| 0 <= i < text.len() ==> white_space(#[trigger] text[i])
}

/// Whether a text is nothing but white space.
pub fn is_blank(text: &str) -> (r: bool)
    ensures
        r == blank(text@),
{
    let length: usize = text.unicode_len();
    let mut index: usize = 0;
    while index < length
        invariant
            index <= length,
            length == text@.len(),
            forall|i: int| 0 <= i < index ==> white_space(#[trigger] text@[i]),
        decreases length - index,
    {
        if !text.get_char(index).is_whitespace() {
            assert(!white_space(text@[index as int]));
            return false;
        }
        index = index + 1;
    }
    true
}

} // verus!
