//! Numbers as text, in decimal and hexadecimal, and what std does with texts.
use vstd::arithmetic::div_mod::lemma_div_denominator;
use vstd::arithmetic::power::{lemma_pow0, lemma_pow_positive, pow};
use vstd::prelude::*;

verus! {

/// The formatter of std's formatting traits, carried as an opaque value.
#[verifier::external_type_specification]
#[verifier::external_body]
pub struct ExFormatter<'a>(core::fmt::Formatter<'a>);

/// The error of std's formatting traits, carried as an opaque value.
#[verifier::external_type_specification]
#[verifier::external_body]
pub struct ExFmtError(core::fmt::Error);

/// The text that a formatter's buffer has accepted so far. The formatter holds
/// that buffer by an exclusive borrow, so nobody else adds to it meanwhile.
pub uninterp spec fn written(f: core::fmt::Formatter<'_>) -> Seq<char>;

/// `Formatter::write_str`, which is taken to append the whole text to the
/// formatter's buffer where it succeeds. Whether it succeeds is up to the buffer,
/// and how much of the text arrived where it failed is not stated.
pub assume_specification<'a>[ core::fmt::Formatter::<'a>::write_str ](
    f: &mut core::fmt::Formatter<'a>,
    data: &str,
) -> (r: core::fmt::Result)
    ensures
        r is Ok ==> written(*final(f)) == written(*old(f)) + data@,
;

/// The minimum width that a formatter was asked for: what `Formatter::width` gives.
pub uninterp spec fn width_of(f: core::fmt::Formatter<'_>) -> Option<usize>;

/// `Formatter::width`, which reads an option of the formatter.
pub assume_specification<'a>[ core::fmt::Formatter::<'a>::width ](
    f: &core::fmt::Formatter<'a>,
) -> (r: Option<usize>)
    ensures
        r == width_of(*f),
;

/// The precision that a formatter was asked for: what `Formatter::precision` gives.
pub uninterp spec fn precision_of(f: core::fmt::Formatter<'_>) -> Option<usize>;

/// `Formatter::precision`, which reads an option of the formatter.
pub assume_specification<'a>[ core::fmt::Formatter::<'a>::precision ](
    f: &core::fmt::Formatter<'a>,
) -> (r: Option<usize>)
    ensures
        r == precision_of(*f),
;

/// A text as `Formatter::pad` emits it: cut to the formatter's precision, and
/// filled up to its width with its fill character, on the side that its
/// alignment says.
pub uninterp spec fn padded(f: core::fmt::Formatter<'_>, text: Seq<char>) -> Seq<char>;

/// `Formatter::pad`, which is taken to append the text, as the formatter's
/// options have it, to the formatter's buffer where it succeeds. Whether it
/// succeeds is up to the buffer, and how much of the text arrived where it failed
/// is not stated.
pub assume_specification<'a>[ core::fmt::Formatter::<'a>::pad ](
    f: &mut core::fmt::Formatter<'a>,
    s: &str,
) -> (r: core::fmt::Result)
    ensures
        r is Ok ==> written(*final(f)) == written(*old(f)) + padded(*old(f), s@),
;

/// `String::push`, which is taken to append the character to the end.
pub assume_specification[ String::push ](s: &mut String, c: char)
    ensures
        final(s)@ == old(s)@.push(c),
;

/// The character for a decimal or lower-case hexadecimal digit.
pub open spec fn digit_char(d: int) -> char {
    if d < 10 {
        ('0' as int + d) as char
    } else {
        ('a' as int + (d - 10)) as char
    }
}

/// `n` in decimal, without leading zeros.
pub open spec fn decimal(n: nat) -> Seq<char>
    decreases n,
{
    if n < 10 {
        seq![digit_char(n as int)]
    } else {
        decimal(n / 10).push(digit_char((n % 10) as int))
    }
}

/// `n` in lower-case hexadecimal, without leading zeros.
pub open spec fn hexadecimal(n: nat) -> Seq<char>
    decreases n,
{
    if n < 16 {
        seq![digit_char(n as int)]
    } else {
        hexadecimal(n / 16).push(digit_char((n % 16) as int))
    }
}

/// Whether `c` is one of the ten ASCII digits.
pub open spec fn is_digit(c: char) -> bool {
    '0' <= c <= '9'
}

/// The ASCII digits of `s`, in order.
pub open spec fn digits_of(s: Seq<char>) -> Seq<char> {
    s.filter(|c: char| is_digit(c))
}

/// The number that a sequence of digits spells; 0 for no digits.
pub open spec fn decimal_value(digits: Seq<char>) -> nat
    decreases digits.len(),
{
    if digits.len() == 0 {
        0
    } else {
        (10 * decimal_value(digits.drop_last()) + (digits.last() as int - '0' as int)) as nat
    }
}

/// Each byte as two lower-case hexadecimal digits, the high one first.
pub open spec fn hex(bytes: Seq<u8>) -> Seq<char> {
    Seq::new(
        2 * bytes.len(),
        |i: int|
            digit_char(
                if i % 2 == 0 {
                    bytes[i / 2] as int / 16
                } else {
                    bytes[i / 2] as int % 16
                },
            ),
    )
}

/// The character for a digit below 16.
fn digit(d: u8) -> (c: char)
    requires
        d < 16,
    ensures
        c == digit_char(d as int),
{
    if d < 10 {
        ('0' as u8 + d) as char
    } else {
        ('a' as u8 + (d - 10)) as char
    }
}

/// Appends `n` in decimal.
pub(crate) fn push_decimal(out: &mut String, n: u32)
    ensures
        final(out)@ == old(out)@ + decimal(n as nat),
    decreases n,
{
    if n >= 10 {
        push_decimal(out, n / 10);
    }
    out.push(digit((n % 10) as u8));
    assert(out@ =~= old(out)@ + decimal(n as nat));
}

/// Appends `n` in hexadecimal.
pub(crate) fn push_hexadecimal(out: &mut String, n: u16)
    ensures
        final(out)@ == old(out)@ + hexadecimal(n as nat),
    decreases n,
{
    if n >= 16 {
        push_hexadecimal(out, n / 16);
    }
    out.push(digit((n % 16) as u8));
    assert(out@ =~= old(out)@ + hexadecimal(n as nat));
}

/// Appends each byte in hexadecimal.
pub(crate) fn push_hex(out: &mut String, bytes: &[u8])
    ensures
        final(out)@ == old(out)@ + hex(bytes@),
{
    let ghost start = out@;
    assert(start =~= start + hex(bytes@.take(0)));
    for i in 0..bytes.len()
        invariant
            out@ == start + hex(bytes@.take(i as int)),
    {
        let b: u8 = bytes[i];
        out.push(digit(b / 16));
        out.push(digit(b % 16));
        assert(out@ =~= start + hex(bytes@.take(i + 1)));
    }
    assert(bytes@.take(bytes@.len() as int) =~= bytes@);
}

/// Decimal text consists of digits.
pub proof fn lemma_decimal_is_digits(n: nat)
    ensures
        forall|i: int| 0 <= i < decimal(n).len() ==> is_digit(#[trigger] decimal(n)[i]),
    decreases n,
{
    if n >= 10 {
        lemma_decimal_is_digits(n / 10);
        assert forall|i: int| 0 <= i < decimal(n).len() implies is_digit(
            #[trigger] decimal(n)[i],
        ) by {
            if i < decimal(n / 10).len() {
                assert(decimal(n)[i] == decimal(n / 10)[i]);
            }
        }
    }
}

/// Decimal text spells the number it was made from.
pub proof fn lemma_decimal_round_trip(n: nat)
    ensures
        decimal_value(decimal(n)) == n,
    decreases n,
{
    if n >= 10 {
        lemma_decimal_round_trip(n / 10);
        assert(decimal(n).drop_last() =~= decimal(n / 10));
    } else {
        assert(decimal(n).drop_last() =~= seq![]);
        assert(decimal_value(decimal(n).drop_last()) == 0);
    }
}

/// A number between 100000000 and 999999999 has nine digits.
pub proof fn lemma_decimal_len(n: nat)
    requires
        100_000_000 <= n <= 999_999_999,
    ensures
        decimal(n).len() == 9,
{
    reveal_with_fuel(decimal, 9);
}

/// A text of digits only loses nothing when its digits are picked out.
pub proof fn lemma_digits_of_digits(s: Seq<char>)
    requires
        forall|i: int| 0 <= i < s.len() ==> is_digit(#[trigger] s[i]),
    ensures
        digits_of(s) == s,
    decreases s.len(),
{
    reveal(Seq::filter);
    if s.len() > 0 {
        assert(is_digit(s[s.len() - 1]));
        lemma_digits_of_digits(s.drop_last());
        assert(s.drop_last().push(s.last()) =~= s);
    }
}

/// A space holds no digit.
pub proof fn lemma_digits_of_space()
    ensures
        digits_of(seq![' ']) == Seq::<char>::empty(),
{
    reveal(Seq::filter);
    assert(seq![' '].drop_last() =~= Seq::<char>::empty());
    assert(digits_of(Seq::<char>::empty()) =~= Seq::<char>::empty());
}

/// The characters for digits, spelled out.
proof fn lemma_digit_chars()
    ensures
        forall|d: int| 0 <= d < 10 ==> #[trigger] digit_char(d) == "0123456789"@[d],
        forall|d: int| 0 <= d < 16 ==> #[trigger] digit_char(d) == "0123456789abcdef"@[d],
{
    reveal_strlit("0123456789");
    reveal_strlit("0123456789abcdef");
}

/// The characters of `decimal` are the decimal digits of the number, the one of weight
/// 10 to the power `i` at place `i` from the end.
pub proof fn decimal_shows_digits(n: nat, i: nat)
    requires
        i < decimal(n).len(),
    ensures
        decimal(n)[decimal(n).len() - 1 - i] == "0123456789"@[(n as int / pow(10, i)) % 10],
    decreases n,
{
    lemma_digit_chars();
    lemma_pow0(10);
    if i > 0 {
        decimal_shows_digits(n / 10, (i - 1) as nat);
        lemma_pow_positive(10, (i - 1) as nat);
        reveal(pow);
        lemma_div_denominator(n as int, 10, pow(10, (i - 1) as nat));
    }
}

/// `decimal` has as many characters as the number has digits: none of them is a
/// leading zero, and zero has one.
pub proof fn decimal_has_no_leading_zeros(n: nat)
    ensures
        decimal(n).len() >= 1,
        n < pow(10, decimal(n).len()),
        n > 0 ==> n >= pow(10, (decimal(n).len() - 1) as nat),
        n == 0 ==> decimal(n).len() == 1,
    decreases n,
{
    lemma_pow0(10);
    reveal(pow);
    if n < 10 {
        assert(pow(10, 1) == 10 * pow(10, 0));
    } else {
        decimal_has_no_leading_zeros(n / 10);
        let len = decimal(n / 10).len();
        assert(pow(10, len + 1) == 10 * pow(10, len));
        assert(pow(10, len) == 10 * pow(10, (len - 1) as nat));
    }
}

/// The characters of `hexadecimal` are the hexadecimal digits of the number, the one of weight
/// 16 to the power `i` at place `i` from the end.
pub proof fn hexadecimal_shows_digits(n: nat, i: nat)
    requires
        i < hexadecimal(n).len(),
    ensures
        hexadecimal(n)[hexadecimal(n).len() - 1 - i]
            == "0123456789abcdef"@[(n as int / pow(16, i)) % 16],
    decreases n,
{
    lemma_digit_chars();
    lemma_pow0(16);
    if i > 0 {
        hexadecimal_shows_digits(n / 16, (i - 1) as nat);
        lemma_pow_positive(16, (i - 1) as nat);
        reveal(pow);
        lemma_div_denominator(n as int, 16, pow(16, (i - 1) as nat));
    }
}

/// `hexadecimal` has as many characters as the number has digits: none of them is a
/// leading zero, and zero has one.
pub proof fn hexadecimal_has_no_leading_zeros(n: nat)
    ensures
        hexadecimal(n).len() >= 1,
        n < pow(16, hexadecimal(n).len()),
        n > 0 ==> n >= pow(16, (hexadecimal(n).len() - 1) as nat),
        n == 0 ==> hexadecimal(n).len() == 1,
    decreases n,
{
    lemma_pow0(16);
    reveal(pow);
    if n < 16 {
        assert(pow(16, 1) == 16 * pow(16, 0));
    } else {
        hexadecimal_has_no_leading_zeros(n / 16);
        let len = hexadecimal(n / 16).len();
        assert(pow(16, len + 1) == 16 * pow(16, len));
        assert(pow(16, len) == 16 * pow(16, (len - 1) as nat));
    }
}

/// Byte `i` is shown as two hexadecimal digits, the high one first.
pub proof fn hex_shows_digits(bytes: Seq<u8>, i: int)
    requires
        0 <= i < bytes.len(),
    ensures
        hex(bytes).len() == 2 * bytes.len(),
        hex(bytes)[2 * i] == "0123456789abcdef"@[bytes[i] as int / 16],
        hex(bytes)[2 * i + 1] == "0123456789abcdef"@[bytes[i] as int % 16],
{
    lemma_digit_chars();
    assert((2 * i) / 2 == i && (2 * i) % 2 == 0);
    assert((2 * i + 1) / 2 == i && (2 * i + 1) % 2 == 1);
}

/// The digits are the ten characters of `0123456789`.
pub proof fn digits_are_the_ten(c: char)
    ensures
        is_digit(c) <==> "0123456789"@.contains(c),
{
    reveal_strlit("0123456789");
    if is_digit(c) {
        assert("0123456789"@[c as int - '0' as int] == c);
    }
}

/// Picking out digits goes character by character: a digit stays where it is among
/// the others, and anything else goes.
pub proof fn digits_of_each_character(a: Seq<char>, c: char, b: Seq<char>)
    ensures
        digits_of(a + seq![c] + b) == if "0123456789"@.contains(c) {
            digits_of(a) + seq![c] + digits_of(b)
        } else {
            digits_of(a) + digits_of(b)
        },
        digits_of(a + b) == digits_of(a) + digits_of(b),
        digits_of(Seq::empty()) == Seq::<char>::empty(),
{
    let pred = |c: char| is_digit(c);
    digits_are_the_ten(c);
    Seq::filter_distributes_over_add(a + seq![c], b, pred);
    Seq::filter_distributes_over_add(a, seq![c], pred);
    Seq::filter_distributes_over_add(a, b, pred);
    reveal(Seq::filter);
    assert(digits_of(Seq::<char>::empty()) =~= Seq::<char>::empty());
    assert(seq![c].drop_last() =~= Seq::<char>::empty());
    assert(digits_of(seq![c]) =~= if is_digit(c) {
        seq![c]
    } else {
        seq![]
    });
}

/// A leading zero adds nothing to a number.
pub proof fn lemma_leading_zero(digits: Seq<char>)
    ensures
        decimal_value(seq!['0'] + digits) == decimal_value(digits),
    decreases digits.len(),
{
    let s = seq!['0'] + digits;
    if digits.len() == 0 {
        assert(s.drop_last() =~= Seq::<char>::empty());
        assert(decimal_value(s.drop_last()) == 0);
    } else {
        lemma_leading_zero(digits.drop_last());
        assert(s.drop_last() =~= seq!['0'] + digits.drop_last());
        assert(s.last() == digits.last());
    }
}

/// Digits without a leading zero are the decimal text of the number they spell.
pub proof fn lemma_decimal_of_value(digits: Seq<char>)
    requires
        forall|i: int| 0 <= i < digits.len() ==> is_digit(#[trigger] digits[i]),
        digits.len() > 0,
        digits[0] != '0',
    ensures
        decimal_value(digits) > 0,
        decimal(decimal_value(digits)) == digits,
    decreases digits.len(),
{
    let rest = digits.drop_last();
    assert(is_digit(digits[digits.len() - 1]));
    if digits.len() == 1 {
        assert(decimal_value(rest) == 0);
        assert(decimal(decimal_value(digits)) =~= digits);
    } else {
        assert(rest[0] == digits[0]);
        lemma_decimal_of_value(rest);
        assert(rest.push(digits.last()) =~= digits);
    }
}

/// How large a number of so many digits is.
pub proof fn lemma_decimal_value_bounds(digits: Seq<char>)
    requires
        forall|i: int| 0 <= i < digits.len() ==> is_digit(#[trigger] digits[i]),
    ensures
        decimal_value(digits) < pow(10, digits.len()),
        digits.len() > 0 && digits[0] != '0' ==> decimal_value(digits) >= pow(
            10,
            (digits.len() - 1) as nat,
        ),
    decreases digits.len(),
{
    lemma_pow0(10);
    reveal(pow);
    if digits.len() > 0 {
        let len = digits.len();
        let rest = digits.drop_last();
        lemma_decimal_value_bounds(rest);
        assert(is_digit(digits[len - 1]));
        assert(pow(10, len) == 10 * pow(10, (len - 1) as nat));
        if len > 1 {
            assert(rest[0] == digits[0]);
            assert(pow(10, (len - 1) as nat) == 10 * pow(10, (len - 2) as nat));
        }
    }
}

} // verus!
