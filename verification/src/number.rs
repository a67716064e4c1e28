//! Decimal numbers, written and read.
use vstd::prelude::*;

use crate::text::{
    before_char, chars_of, find_char, first_index, lemma_first_index, lemma_no_index, same_text,
    skip_chars,
};

verus! {

/// The character of a decimal digit.
pub open spec fn digit_char(digit: nat) -> char {
    ('0' as nat + digit) as char
}

/// `n` written in decimal, without a sign and without leading zeros.
pub open spec fn decimal(n: nat) -> Seq<char>
    decreases n,
{
    if n < 10 {
        seq![digit_char(n)]
    } else {
        decimal(n / 10).push(digit_char(n % 10))
    }
}

/// Appends `n` in decimal.
pub fn push_decimal(out: &mut String, n: u64)
    ensures
        final(out)@ == old(out)@ + decimal(n as nat),
    decreases n,
{
    if n >= 10 {
        push_decimal(out, n / 10);
    }
    let digit: u8 = (n % 10) as u8;
    out.push((48u8 + digit) as char);
}

/// Writes `n` in decimal.
pub fn decimal_text(n: u64) -> (text: String)
    ensures
        text@ == decimal(n as nat),
{
    let mut text = String::new();
    push_decimal(&mut text, n);
    assert(text@ =~= decimal(n as nat));
    text
}

/// The decimal digits `0` to `9`.
pub open spec fn is_digit(c: char) -> bool {
    '0' <= c <= '9'
}

/// `s` holds decimal digits only.
pub open spec fn all_digits(s: Seq<char>) -> bool {
    forall|i: int| 0 <= i < s.len() ==> is_digit(#[trigger] s[i])
}

/// The number that a sequence of decimal digits stands for.
pub open spec fn digits_value(s: Seq<char>) -> nat
    decreases s.len(),
{
    if s.len() == 0 {
        0
    } else {
        digits_value(s.drop_last()) * 10 + (s.last() as nat - '0' as nat) as nat
    }
}

/// `s` without the plus sign that it may begin with.
pub open spec fn without_plus(s: Seq<char>) -> Seq<char> {
    if s.len() > 0 && s.first() == '+' {
        s.drop_first()
    } else {
        s
    }
}

/// The 16-bit number that `s` spells: an optional plus sign, then one or more
/// decimal digits, with a value that fits.
pub open spec fn u16_value(s: Seq<char>) -> Option<u16> {
    let digits = without_plus(s);
    if digits.len() > 0 && all_digits(digits) && digits_value(digits) <= u16::MAX {
        Some(digits_value(digits) as u16)
    } else {
        None
    }
}

/// Leading digits never stand for more than the whole number does.
proof fn lemma_prefix_value(s: Seq<char>, n: int)
    requires
        0 <= n <= s.len(),
    ensures
        digits_value(s.take(n)) <= digits_value(s),
    decreases s.len(),
{
    if n == s.len() {
        assert(s.take(n) =~= s);
    } else {
        lemma_prefix_value(s.drop_last(), n);
        assert(s.drop_last().take(n) =~= s.take(n));
    }
}

/// Reads a 16-bit number from all of a string.
pub fn parse_u16(text: &str) -> (number: Option<u16>)
    ensures
        number == u16_value(text@),
{
    let chars = chars_of(text);
    let start: usize = if chars.len() > 0 && chars[0] == '+' { 1 } else { 0 };
    let ghost digits = without_plus(text@);
    assert(digits =~= chars@.skip(start as int));
    if start == chars.len() {
        return None;
    }
    let mut value: u32 = 0;
    let mut i: usize = start;
    assert(digits.take(0) =~= Seq::<char>::empty());
    while i < chars.len()
        invariant
            start <= i <= chars.len(),
            start < chars.len(),
            digits == chars@.skip(start as int),
            digits == without_plus(text@),
            forall|j: int| 0 <= j < i - start ==> is_digit(#[trigger] digits[j]),
            value == digits_value(digits.take(i - start)),
            value <= 0xffff,
        decreases chars.len() - i,
    {
        let c = chars[i];
        let ghost k = i - start;
        assert(digits[k] == c);
        if c < '0' || c > '9' {
            assert(!is_digit(digits[k]));
            return None;
        }
        assert(digits.take(k + 1).drop_last() =~= digits.take(k));
        let digit: u32 = c as u32 - 48;
        value = value * 10 + digit;
        if value > 0xffff {
            proof {
                lemma_prefix_value(digits, k + 1);
            }
            return None;
        }
        i = i + 1;
    }
    assert(digits.take(chars.len() - start) =~= digits);
    Some(value as u16)
}

/// A letter of the English alphabet in lower case; any other character as it is.
pub open spec fn lower_char(c: char) -> char {
    if 'A' <= c <= 'Z' {
        (c as u32 + 32) as char
    } else {
        c
    }
}

/// `s` with the letters of the English alphabet in lower case.
pub open spec fn lowered(s: Seq<char>) -> Seq<char> {
    s.map_values(|c: char| lower_char(c))
}

/// `s` without the sign that it may begin with.
pub open spec fn without_sign(s: Seq<char>) -> Seq<char> {
    if s.len() > 0 && (s.first() == '+' || s.first() == '-') {
        s.drop_first()
    } else {
        s
    }
}

/// `s` is one or more digits.
pub open spec fn digits_text(s: Seq<char>) -> bool {
    s.len() > 0 && all_digits(s)
}

/// `s` is one or more digits, with at most one point before, among or behind
/// them.
pub open spec fn fraction_text(s: Seq<char>) -> bool {
    match first_index(s, '.') {
        None => digits_text(s),
        Some(point) => s.len() > 1 && all_digits(s.take(point)) && all_digits(s.skip(point + 1)),
    }
}

/// `s` is digits with at most one point, and an exponent behind them or none.
/// An exponent is an `e`, a sign or none, and one or more digits.
pub open spec fn scientific_text(s: Seq<char>) -> bool {
    match first_index(s, 'e') {
        None => fraction_text(s),
        Some(at) => fraction_text(s.take(at)) && digits_text(without_sign(s.skip(at + 1))),
    }
}

/// `s` spells a floating-point number: a sign or none, and then a number in
/// decimal or scientific notation, an infinity, or what is not a number. Upper
/// and lower case do not matter.
pub open spec fn number_text(s: Seq<char>) -> bool {
    let unsigned = without_sign(lowered(s));
    ||| unsigned == "inf"@
    ||| unsigned == "infinity"@
    ||| unsigned == "nan"@
    ||| scientific_text(unsigned)
}

/// Writes the letters of the English alphabet in lower case.
fn to_lower(text: &str) -> (lower: String)
    ensures
        lower@ == lowered(text@),
{
    let chars = chars_of(text);
    let mut lower = String::new();
    let mut i: usize = 0;
    while i < chars.len()
        invariant
            i <= chars.len(),
            lower@ == lowered(chars@.take(i as int)),
        decreases chars.len() - i,
    {
        let c = chars[i];
        if 'A' <= c && c <= 'Z' {
            lower.push((c as u8 + 32) as char);
        } else {
            lower.push(c);
        }
        i = i + 1;
        assert(lower@ =~= lowered(chars@.take(i as int)));
    }
    assert(chars@.take(i as int) =~= text@);
    lower
}

/// The text without the sign that it may begin with.
fn skip_sign<'a>(text: &'a str) -> (rest: &'a str)
    ensures
        rest@ == without_sign(text@),
{
    let chars = chars_of(text);
    if chars.len() > 0 && (chars[0] == '+' || chars[0] == '-') {
        assert(text@.skip(1) =~= text@.drop_first());
        skip_chars(text, 1)
    } else {
        text
    }
}

/// Tells whether a text holds decimal digits only.
fn holds_digits_only(text: &str) -> (found: bool)
    ensures
        found == all_digits(text@),
{
    let chars = chars_of(text);
    let mut i: usize = 0;
    while i < chars.len()
        invariant
            i <= chars.len(),
            chars@ == text@,
            forall|j: int| 0 <= j < i ==> is_digit(#[trigger] chars@[j]),
        decreases chars.len() - i,
    {
        if chars[i] < '0' || chars[i] > '9' {
            assert(!is_digit(chars@[i as int]));
            return false;
        }
        i = i + 1;
    }
    true
}

/// Tells whether a text is digits with at most one point.
fn is_fraction_text(text: &str) -> (found: bool)
    ensures
        found == fraction_text(text@),
{
    match find_char(text, '.') {
        None => text.unicode_len() > 0 && holds_digits_only(text),
        Some(point) => text.unicode_len() > 1 && holds_digits_only(before_char(text, '.'))
            && holds_digits_only(skip_chars(text, point + 1)),
    }
}

/// Tells whether a text is a number in decimal or scientific notation.
fn is_scientific_text(text: &str) -> (found: bool)
    ensures
        found == scientific_text(text@),
{
    match find_char(text, 'e') {
        None => is_fraction_text(text),
        Some(at) => {
            let exponent = skip_sign(skip_chars(text, at + 1));
            is_fraction_text(before_char(text, 'e')) && exponent.unicode_len() > 0
                && holds_digits_only(exponent)
        },
    }
}

/// Tells whether a text spells a floating-point number.
pub fn is_number_text(text: &str) -> (found: bool)
    ensures
        found == number_text(text@),
{
    let lower = to_lower(text);
    let unsigned = skip_sign(lower.as_str());
    same_text(unsigned, "inf") || same_text(unsigned, "infinity") || same_text(unsigned, "nan")
        || is_scientific_text(unsigned)
}

/// Written decimals hold digits only, at least one, and stand for the number
/// that was written.
pub proof fn law_decimal_reads_back(n: nat)
    ensures
        decimal(n).len() > 0,
        all_digits(decimal(n)),
        digits_value(decimal(n)) == n,
    decreases n,
{
    if n < 10 {
        assert(decimal(n).drop_last() =~= Seq::<char>::empty());
        assert(digits_value(decimal(n).drop_last()) == 0);
    } else {
        law_decimal_reads_back(n / 10);
        assert(decimal(n).drop_last() =~= decimal(n / 10));
    }
}

/// Reading a 16-bit number from what writing it gave returns the number.
pub proof fn law_u16_round_trip(n: u16)
    ensures
        u16_value(decimal(n as nat)) == Some(n),
{
    law_decimal_reads_back(n as nat);
    assert(is_digit(decimal(n as nat)[0]));
}

/// Digits alone, and digits with a point among them, spell a number, with a minus
/// sign or without. With a comma in it a text spells none.
pub proof fn law_numbers_are_spelled(whole: Seq<char>, part: Seq<char>)
    requires
        digits_text(whole),
        all_digits(part),
    ensures
        number_text(whole),
        number_text(whole.push('.') + part),
        number_text(seq!['-'] + whole.push('.') + part),
        !number_text(whole.push(',') + part),
{
    let point = whole.push('.') + part;
    let comma = whole.push(',') + part;
    let negative = seq!['-'] + whole.push('.') + part;
    assert(is_digit(whole[0]));
    assert forall|i: int| 0 <= i < whole.len() implies is_digit(#[trigger] whole[i]) by {}
    assert forall|i: int| 0 <= i < part.len() implies is_digit(#[trigger] part[i]) by {}
    assert(lowered(whole) =~= whole);
    assert(lowered(point) =~= point);
    assert(lowered(comma) =~= comma);
    assert(lowered(negative) =~= negative);
    assert(negative.drop_first() =~= point);
    lemma_no_index(whole, 'e');
    lemma_no_index(whole, '.');
    lemma_no_index(point, 'e');
    lemma_first_index(point, '.', whole.len() as int);
    assert(point.take(whole.len() as int) =~= whole);
    assert(point.skip(whole.len() as int + 1) =~= part);
    lemma_no_index(comma, 'e');
    lemma_no_index(comma, '.');
    assert(comma[whole.len() as int] == ',');
    assert(!is_digit(comma[whole.len() as int]));
    reveal_strlit("inf");
    reveal_strlit("infinity");
    reveal_strlit("nan");
    assert(comma[0] == whole[0]);
}

/// Two numbers that are written alike are the same number.
pub proof fn law_decimal_injective(a: nat, b: nat)
    requires
        decimal(a) == decimal(b),
    ensures
        a == b,
{
    law_decimal_reads_back(a);
    law_decimal_reads_back(b);
}

/// A character is the digit of a number below ten.
pub open spec fn is_digit_of(c: char, digit: nat) -> bool {
    ||| c == '0' && digit == 0
    ||| c == '1' && digit == 1
    ||| c == '2' && digit == 2
    ||| c == '3' && digit == 3
    ||| c == '4' && digit == 4
    ||| c == '5' && digit == 5
    ||| c == '6' && digit == 6
    ||| c == '7' && digit == 7
    ||| c == '8' && digit == 8
    ||| c == '9' && digit == 9
}

/// A number is written digit by digit: one below ten is its digit, and another
/// its tens with the digit of its ones behind them. So there are no leading
/// zeros.
pub proof fn law_decimal_goes_by_digits(tens: nat, ones: nat, c: char)
    requires
        is_digit_of(c, ones),
    ensures
        decimal(ones) == seq![c],
        tens > 0 ==> decimal(10 * tens + ones) == decimal(tens).push(c),
        tens > 0 ==> decimal(tens).first() != '0',
    decreases tens,
{
    assert(digit_char(ones) == c);
    if tens > 0 {
        let n = 10 * tens + ones;
        assert(n / 10 == tens && n % 10 == ones);
        law_decimal_reads_back(tens);
        if tens >= 10 {
            law_decimal_goes_by_digits(tens / 10, 0, '0');
            law_decimal_reads_back(tens / 10);
        }
    }
}

/// A text is read as a 16-bit number digit by digit. What is empty is none. One
/// character is the number of its digit, or none where it is no digit. A plus
/// sign in front does not count. With one more character, a number becomes ten
/// times as large and the digit more, and none where the character is no digit
/// or the number too large; and what was none stays none.
pub proof fn law_u16_goes_by_digits(s: Seq<char>, c: char, digit: nat)
    requires
        s.len() > 0,
        s != seq!['+'],
    ensures
        u16_value(Seq::empty()) is None,
        u16_value(seq!['+']) is None,
        is_digit_of(c, digit) ==> u16_value(seq![c]) == Some(digit as u16),
        (forall|d: nat| !#[trigger] is_digit_of(c, d)) ==> u16_value(seq![c]) is None,
        s.first() != '+' ==> u16_value(seq!['+'] + s) == u16_value(s),
        s.first() == '+' ==> u16_value(seq!['+'] + s) is None,
        is_digit_of(c, digit) && u16_value(s) is Some && u16_value(s)->0 * 10 + digit <= 65535
            ==> u16_value(s.push(c)) == Some((u16_value(s)->0 * 10 + digit) as u16),
        is_digit_of(c, digit) && u16_value(s) is Some && u16_value(s)->0 * 10 + digit > 65535
            ==> u16_value(s.push(c)) is None,
        (forall|d: nat| !#[trigger] is_digit_of(c, d)) ==> u16_value(s.push(c)) is None,
        u16_value(s) is None ==> u16_value(s.push(c)) is None,
{
    lemma_digit_of(c);
    assert(without_plus(seq!['+']) =~= Seq::<char>::empty());
    let one = seq![c];
    assert(one.drop_last() =~= Seq::<char>::empty());
    assert(digits_value(one.drop_last()) == 0);
    if c == '+' {
        assert(one =~= seq!['+']);
    } else {
        assert(without_plus(one) == one);
        assert(one[0] == c);
    }
    let plus = seq!['+'] + s;
    assert(without_plus(plus) =~= s);
    if s.first() == '+' {
        assert(!is_digit(s[0]));
    }
    let digits = without_plus(s);
    let more = s.push(c);
    assert(without_plus(more) =~= digits.push(c));
    assert(digits.len() > 0) by {
        if digits.len() == 0 {
            assert(s =~= seq!['+']);
        }
    }
    assert(digits.push(c).drop_last() =~= digits);
    assert(digits.push(c)[digits.len() as int] == c);
    if all_digits(digits.push(c)) {
        assert forall|i: int| 0 <= i < digits.len() implies is_digit(#[trigger] digits[i]) by {
            assert(digits.push(c)[i] == digits[i]);
        }
    } else if all_digits(digits) && is_digit(c) {
        assert forall|i: int| 0 <= i < digits.push(c).len() implies is_digit(
            #[trigger] digits.push(c)[i],
        ) by {
            if i < digits.len() {
                assert(is_digit(digits[i]));
            }
        }
    }
}

/// The digits are the characters from zero to nine.
proof fn lemma_digit_of(c: char)
    ensures
        is_digit(c) <==> exists|d: nat| #[trigger] is_digit_of(c, d),
        forall|d: nat| #[trigger] is_digit_of(c, d) ==> d == c as nat - '0' as nat && d < 10,
{
    if is_digit(c) {
        assert(is_digit_of(c, (c as nat - '0' as nat) as nat));
    }
}

/// The parts of a number in decimal or scientific notation: a sign or none,
/// digits, a point or none, digits, and an exponent or none.
pub struct NumberParts {
    pub sign: Seq<char>,
    pub whole: Seq<char>,
    pub point: bool,
    pub part: Seq<char>,
    pub exponent: Option<(char, Seq<char>, Seq<char>)>,
}

impl NumberParts {
    /// The digits, with the point among them.
    pub open spec fn mantissa(self) -> Seq<char> {
        self.whole + if self.point {
            seq!['.'] + self.part
        } else {
            Seq::empty()
        }
    }

    /// The parts together.
    pub open spec fn text(self) -> Seq<char> {
        self.sign + self.mantissa() + match self.exponent {
            Some((letter, sign, digits)) => seq![letter] + sign + digits,
            None => Seq::empty(),
        }
    }

    /// A text of digits.
    pub open spec fn digits(s: Seq<char>) -> bool {
        forall|i: int| 0 <= i < s.len() ==> '0' <= #[trigger] s[i] <= '9'
    }

    /// A sign or none.
    pub open spec fn signs(s: Seq<char>) -> bool {
        s.len() == 0 || s == seq!['+'] || s == seq!['-']
    }

    /// Each part is what it should be, and there is at least one digit.
    pub open spec fn fit(self) -> bool {
        &&& Self::signs(self.sign)
        &&& Self::digits(self.whole)
        &&& Self::digits(self.part)
        &&& self.whole.len() > 0 || self.point && self.part.len() > 0
        &&& match self.exponent {
            Some((letter, sign, digits)) => (letter == 'e' || letter == 'E') && Self::signs(sign)
                && digits.len() > 0 && Self::digits(digits),
            None => true,
        }
    }
}

/// What is put together from the parts of a number spells a number.
pub proof fn law_parts_spell_a_number(parts: NumberParts)
    requires
        parts.fit(),
    ensures
        number_text(parts.text()),
{
    let mantissa = parts.mantissa();
    lemma_fraction(parts.whole, parts.point, parts.part);
    lemma_fraction_is_lower(mantissa);
    match parts.exponent {
        Some((letter, sign, digits)) => {
            let rest = mantissa + (seq![letter] + sign + digits);
            assert(parts.text() =~= parts.sign + rest);
            lemma_digits_are_lower(digits);
            assert(lowered(rest) =~= mantissa + (seq!['e'] + sign + digits));
            lemma_scientific(mantissa, sign, digits);
            lemma_signed(parts.sign, rest);
        },
        None => {
            assert(parts.text() =~= parts.sign + mantissa);
            lemma_no_index(mantissa, 'e');
            lemma_signed(parts.sign, mantissa);
        },
    }
}

/// A text of digits has no upper case.
proof fn lemma_digits_are_lower(s: Seq<char>)
    ensures
        NumberParts::digits(s) ==> lowered(s) == s && all_digits(s),
        all_digits(lowered(s)) ==> lowered(s) == s && NumberParts::digits(s),
{
    if NumberParts::digits(s) {
        assert(lowered(s) =~= s);
    }
    if all_digits(lowered(s)) {
        assert forall|i: int| 0 <= i < s.len() implies lowered(s)[i] == #[trigger] s[i] && '0'
            <= s[i] <= '9' by {
            assert(is_digit(lowered(s)[i]));
            assert(lowered(s)[i] == lower_char(s[i]));
        }
        assert(lowered(s) =~= s);
    }
}

/// A sign before a number does not count, nor does upper or lower case.
proof fn lemma_signed(sign: Seq<char>, rest: Seq<char>)
    requires
        NumberParts::signs(sign),
        scientific_text(lowered(rest)),
        rest.len() > 0,
        rest[0] != '+' && rest[0] != '-',
    ensures
        number_text(sign + rest),
{
    let low = lowered(sign + rest);
    assert(low =~= sign + lowered(rest));
    assert(lowered(rest)[0] == lower_char(rest[0]));
    if sign.len() > 0 {
        assert(low.drop_first() =~= lowered(rest));
    } else {
        assert(low =~= lowered(rest));
    }
}

/// Digits with a point or none are a fraction.
proof fn lemma_fraction(whole: Seq<char>, point: bool, part: Seq<char>)
    requires
        NumberParts::digits(whole),
        NumberParts::digits(part),
        whole.len() > 0 || point && part.len() > 0,
    ensures
        ({
            let s = whole + if point {
                seq!['.'] + part
            } else {
                Seq::empty()
            };
            &&& fraction_text(s)
            &&& s.len() > 0 && s[0] != '+' && s[0] != '-'
        }),
{
    assert forall|i: int| 0 <= i < whole.len() implies is_digit(#[trigger] whole[i]) && whole[i]
        != '.' by {}
    assert forall|i: int| 0 <= i < part.len() implies is_digit(#[trigger] part[i]) by {}
    if point {
        let s = whole + (seq!['.'] + part);
        lemma_first_index(s, '.', whole.len() as int);
        assert(s.take(whole.len() as int) =~= whole);
        assert(s.skip(whole.len() as int + 1) =~= part);
        assert(s[whole.len() as int] == '.');
        if whole.len() > 0 {
            assert(s[0] == whole[0]);
        }
    } else {
        assert(whole + Seq::<char>::empty() =~= whole);
        lemma_no_index(whole, '.');
    }
}

/// A fraction has digits and points only, and so no upper case.
proof fn lemma_fraction_is_lower(s: Seq<char>)
    ensures
        fraction_text(s) ==> lowered(s) == s && forall|i: int|
            0 <= i < s.len() ==> #[trigger] s[i] != 'e',
        fraction_text(lowered(s)) ==> lowered(s) == s,
{
    lemma_fraction_chars(s);
    lemma_fraction_chars(lowered(s));
    if fraction_text(s) {
        assert(lowered(s) =~= s);
    }
    if fraction_text(lowered(s)) {
        assert forall|i: int| 0 <= i < s.len() implies lowered(s)[i] == #[trigger] s[i] by {
            assert(lowered(s)[i] == lower_char(s[i]));
            assert(is_digit(lowered(s)[i]) || lowered(s)[i] == '.');
        }
        assert(lowered(s) =~= s);
    }
}

/// The characters of a fraction.
proof fn lemma_fraction_chars(s: Seq<char>)
    ensures
        fraction_text(s) ==> forall|i: int|
            0 <= i < s.len() ==> is_digit(#[trigger] s[i]) || s[i] == '.',
{
    s.index_of_first_ensures('.');
    if fraction_text(s) {
        if let Some(point) = first_index(s, '.') {
            assert forall|i: int| 0 <= i < s.len() implies is_digit(#[trigger] s[i]) || s[i]
                == '.' by {
                if i < point {
                    assert(is_digit(s.take(point)[i]));
                } else if i > point {
                    assert(is_digit(s.skip(point + 1)[i - point - 1]));
                }
            }
        }
    }
}

/// A fraction with an exponent is in scientific notation.
proof fn lemma_scientific(mantissa: Seq<char>, sign: Seq<char>, digits: Seq<char>)
    requires
        fraction_text(mantissa),
        forall|i: int| 0 <= i < mantissa.len() ==> #[trigger] mantissa[i] != 'e',
        NumberParts::signs(sign),
        digits.len() > 0,
        all_digits(digits),
    ensures
        scientific_text(mantissa + (seq!['e'] + sign + digits)),
{
    let s = mantissa + (seq!['e'] + sign + digits);
    let at = mantissa.len() as int;
    assert(s[at] == 'e');
    lemma_first_index(s, 'e', at);
    assert(s.take(at) =~= mantissa);
    assert(s.skip(at + 1) =~= sign + digits);
    assert(is_digit(digits[0]));
    assert(without_sign(sign + digits) =~= digits);
}

/// The sign that a text begins with, or none, and the rest.
proof fn lemma_sign_of(s: Seq<char>) -> (parts: (Seq<char>, Seq<char>))
    ensures
        NumberParts::signs(parts.0),
        s == parts.0 + parts.1,
        without_sign(lowered(s)) == lowered(parts.1),
        lowered(s) == parts.0 + lowered(parts.1),
{
    if s.len() > 0 && (s[0] == '+' || s[0] == '-') {
        let sign = seq![s[0]];
        let rest = s.drop_first();
        assert(sign =~= seq!['+'] || sign =~= seq!['-']);
        assert(s =~= sign + rest);
        assert(lowered(s)[0] == lower_char(s[0]));
        assert(lowered(s).drop_first() =~= lowered(rest));
        assert(lowered(s) =~= sign + lowered(rest));
        (sign, rest)
    } else {
        assert(s.len() > 0 ==> lowered(s)[0] == lower_char(s[0]));
        assert(s =~= Seq::<char>::empty() + s);
        assert(lowered(s) =~= Seq::<char>::empty() + lowered(s));
        (Seq::empty(), s)
    }
}

/// The digits of a fraction before and behind its point, if it has one.
proof fn lemma_fraction_parts(s: Seq<char>) -> (parts: (Seq<char>, bool, Seq<char>))
    requires
        fraction_text(s),
    ensures
        NumberParts::digits(parts.0),
        NumberParts::digits(parts.2),
        parts.0.len() > 0 || parts.1 && parts.2.len() > 0,
        s == parts.0 + if parts.1 {
            seq!['.'] + parts.2
        } else {
            Seq::empty()
        },
{
    s.index_of_first_ensures('.');
    match first_index(s, '.') {
        Some(point) => {
            let (whole, part) = (s.take(point), s.skip(point + 1));
            assert(s =~= whole + (seq!['.'] + part));
            assert forall|i: int| 0 <= i < whole.len() implies '0' <= #[trigger] whole[i]
                <= '9' by {
                assert(is_digit(whole[i]));
            }
            assert forall|i: int| 0 <= i < part.len() implies '0' <= #[trigger] part[i]
                <= '9' by {
                assert(is_digit(part[i]));
            }
            (whole, true, part)
        },
        None => {
            assert(s =~= s + Seq::<char>::empty());
            assert forall|i: int| 0 <= i < s.len() implies '0' <= #[trigger] s[i] <= '9' by {
                assert(is_digit(s[i]));
            }
            (s, false, Seq::empty())
        },
    }
}

/// The fraction of a number in scientific notation, and what stands behind the
/// letter of its exponent.
proof fn lemma_exponent_parts(rest: Seq<char>, at: int) -> (parts: (Seq<char>, Seq<char>))
    requires
        scientific_text(lowered(rest)),
        first_index(lowered(rest), 'e') == Some(at),
    ensures
        0 <= at < rest.len(),
        rest[at] == 'e' || rest[at] == 'E',
        fraction_text(rest.take(at)),
        NumberParts::signs(parts.0),
        NumberParts::digits(parts.1),
        parts.1.len() > 0,
        rest.skip(at + 1) == parts.0 + parts.1,
{
    let low = lowered(rest);
    low.index_of_first_ensures('e');
    let (mantissa, after) = (rest.take(at), rest.skip(at + 1));
    assert(low.take(at) =~= lowered(mantissa));
    assert(low.skip(at + 1) =~= lowered(after));
    lemma_fraction_is_lower(mantissa);
    let (sign, digits) = lemma_sign_of(after);
    lemma_digits_are_lower(digits);
    assert(low[at] == lower_char(rest[at]));
    (sign, digits)
}

/// A number in scientific notation is put together from its parts.
proof fn lemma_scientific_parts(sign: Seq<char>, rest: Seq<char>) -> (parts: NumberParts)
    requires
        NumberParts::signs(sign),
        scientific_text(lowered(rest)),
    ensures
        parts.fit(),
        parts.text() == sign + rest,
{
    match first_index(lowered(rest), 'e') {
        Some(at) => {
            let (esign, digits) = lemma_exponent_parts(rest, at);
            let (whole, point, part) = lemma_fraction_parts(rest.take(at));
            let exponent = Some((rest[at], esign, digits));
            let parts = NumberParts { sign, whole, point, part, exponent };
            let tail = seq![rest[at]] + esign + digits;
            assert(tail =~= seq![rest[at]] + rest.skip(at + 1));
            assert(rest =~= rest.take(at) + tail);
            assert(parts.mantissa() == rest.take(at));
            assert(sign + rest.take(at) + tail =~= sign + rest);
            parts
        },
        None => {
            lemma_fraction_is_lower(rest);
            let (whole, point, part) = lemma_fraction_parts(rest);
            let parts = NumberParts { sign, whole, point, part, exponent: None };
            assert(parts.mantissa() == rest);
            assert(sign + rest + Seq::<char>::empty() =~= sign + rest);
            parts
        },
    }
}

/// What spells a number is put together from the parts of one, or is, apart from
/// a sign and from upper and lower case, one of three words.
pub proof fn law_a_number_has_its_parts(s: Seq<char>) -> (parts: NumberParts)
    requires
        number_text(s),
    ensures
        (parts.fit() && parts.text() == s) || (NumberParts::signs(parts.sign) && (lowered(s)
            == parts.sign + "inf"@ || lowered(s) == parts.sign + "infinity"@ || lowered(s)
            == parts.sign + "nan"@)),
{
    let (sign, rest) = lemma_sign_of(s);
    let low = lowered(rest);
    if low == "inf"@ || low == "infinity"@ || low == "nan"@ {
        let empty = Seq::<char>::empty();
        NumberParts { sign, whole: empty, point: false, part: empty, exponent: None }
    } else {
        lemma_scientific_parts(sign, rest)
    }
}

/// The three words spell a number, with a sign or without, in upper or lower case.
pub proof fn law_words_spell_a_number(sign: Seq<char>, word: Seq<char>)
    requires
        NumberParts::signs(sign),
        lowered(word) == "inf"@ || lowered(word) == "infinity"@ || lowered(word) == "nan"@,
    ensures
        number_text(sign + word),
{
    let low = lowered(sign + word);
    reveal_strlit("inf");
    reveal_strlit("infinity");
    reveal_strlit("nan");
    assert(low =~= sign + lowered(word));
    if sign.len() > 0 {
        assert(low.drop_first() =~= lowered(word));
    } else {
        assert(low =~= lowered(word));
    }
}

/// The lower case of the capital letters is 32 codes further on; all other
/// characters stay as they are.
pub proof fn law_lower_case(s: Seq<char>, i: int)
    requires
        0 <= i < s.len(),
    ensures
        lowered(s).len() == s.len(),
        65 <= s[i] as u32 <= 90 ==> lowered(s)[i] as u32 == s[i] as u32 + 32,
        !(65 <= s[i] as u32 <= 90) ==> lowered(s)[i] == s[i],
{
}

} // verus!
