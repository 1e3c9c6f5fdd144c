//! The identity that the relay assigns to a device.
use vstd::arithmetic::power::{lemma_pow_increases, pow};
use vstd::prelude::*;
use vstd::string::*;

use crate::random::draw_between;
use crate::text::{
    decimal, decimal_has_no_leading_zeros, decimal_value, digits_are_the_ten, digits_of,
    digits_of_each_character, is_digit, lemma_decimal_is_digits, lemma_decimal_len,
    lemma_decimal_of_value, lemma_decimal_round_trip, lemma_decimal_value_bounds,
    lemma_digits_of_digits, lemma_digits_of_space, lemma_leading_zero, push_decimal, written,
};

verus! {

/// A 9-digit device identity assigned by the relay, e.g. `482913056`
/// (shown to users grouped as `482 913 056`).
#[derive(Clone, Copy, PartialEq, Eq, Hash, Structural)]
pub struct DeviceId(pub u32);

/// Whether `n` has nine digits.
pub open spec fn in_range(n: int) -> bool {
    DeviceId::MIN <= n <= DeviceId::MAX
}

/// How the number of an identity is shown to users: in three groups of three
/// digits, or, for a number that is no identity, plainly in decimal.
pub open spec fn grouped_text(n: u32) -> Seq<char> {
    let digits = decimal(n as nat);
    if in_range(n as int) {
        let (a, b, c) = (digits.subrange(0, 3), digits.subrange(3, 6), digits.subrange(6, 9));
        a + seq![' '] + b + seq![' '] + c
    } else {
        digits
    }
}

/// What the `Debug` form of an identity shows: the grouped form and what it is of.
pub open spec fn labelled_text(n: u32) -> Seq<char> {
    "DeviceId("@ + grouped_text(n) + ")"@
}

/// The identity that a text stands for: its ASCII digits, read as one number,
/// where that number has nine digits.
pub open spec fn parsed(s: Seq<char>) -> Option<DeviceId> {
    let n = decimal_value(digits_of(s));
    if in_range(n as int) {
        Some(DeviceId(n as u32))
    } else {
        None
    }
}

/// Whether a draw from `low` to `high`, with `rng` before and after it, gave `n`.
pub closed spec fn drawn_between(
    rng: &mut rand::rngs::ThreadRng,
    low: u32,
    high: u32,
    n: u32,
) -> bool {
    call_ensures(draw_between, (rng, low, high), n)
}

impl DeviceId {
    /// The smallest identity.
    pub const MIN: u32 = 100_000_000;

    /// The largest identity.
    pub const MAX: u32 = 999_999_999;

    /// Whether the number is in the 9-digit range. An identity that came off the
    /// wire need not be.
    pub open spec fn valid(self) -> bool {
        in_range(self.0 as int)
    }

    /// Constructs an identity from a raw number, if it is in the 9-digit range.
    pub fn new(n: u32) -> (r: Option<Self>)
        ensures
            r == if in_range(n as int) {
                Some(DeviceId(n))
            } else {
                None
            },
            r matches Some(id) ==> id.valid(),
    {
        if Self::MIN <= n && n <= Self::MAX {
            Some(Self(n))
        } else {
            None
        }
    }

    /// A random valid identity: what one draw of the generator from the whole range
    /// gives. The generator draws uniformly, which is not stated. The call panics
    /// where the operating system has no entropy to reseed the generator with.
    pub fn random(rng: &mut rand::rngs::ThreadRng) -> (id: Self)
        ensures
            id.valid(),
            exists|r: &mut rand::rngs::ThreadRng|
                #[trigger] drawn_between(r, 100_000_000, 999_999_999, id.0) && *r == *old(rng)
                    && *final(r) == *final(rng),
    {
        let n: u32 = draw_between(rng, Self::MIN, Self::MAX);
        proof {
            let r = choose|r: &mut rand::rngs::ThreadRng| #[trigger]
                call_ensures(draw_between, (r, Self::MIN, Self::MAX), n) && *r == *old(rng)
                    && *final(r) == *rng;
            assert(drawn_between(r, Self::MIN, Self::MAX, n));
        }
        Self(n)
    }

    /// Grouped display form: `482 913 056`. An identity off the wire may be out of
    /// range; it is shown as the plain number.
    pub fn grouped(&self) -> (text: String)
        ensures
            text@ == grouped_text(self.0),
    {
        let mut digits = String::new();
        push_decimal(&mut digits, self.0);
        assert(digits@ =~= decimal(self.0 as nat));
        if !(Self::MIN <= self.0 && self.0 <= Self::MAX) {
            return digits;
        }
        proof {
            lemma_decimal_len(self.0 as nat);
        }
        let mut text = String::new();
        text.append(digits.as_str().substring_char(0, 3));
        text.push(' ');
        text.append(digits.as_str().substring_char(3, 6));
        text.push(' ');
        text.append(digits.as_str().substring_char(6, 9));
        assert(text@ =~= grouped_text(self.0));
        text
    }

    /// Parses either grouped (`482 913 056`) or plain (`482913056`) text. All
    /// characters but the ASCII digits are ignored.
    pub fn parse(s: &str) -> (r: Option<Self>)
        ensures
            r == parsed(s@),
    {
        let mut n: u64 = 0;
        assert(digits_of(s@.take(0)) =~= seq![]) by {
            reveal(Seq::filter);
        }
        for c in chars: s.chars()
            invariant
                chars.seq() == s@,
                n <= 10 * Self::MAX + 9,
                n <= Self::MAX ==> n == decimal_value(digits_of(s@.take(chars.index()))),
                n > Self::MAX ==> decimal_value(digits_of(s@.take(chars.index()))) > Self::MAX,
        {
            proof {
                reveal(Seq::filter);
                let before = s@.take(chars.index());
                let after = s@.take(chars.index() + 1);
                assert(after.drop_last() =~= before);
                assert(after.last() == c);
                if is_digit(c) {
                    assert(digits_of(after).drop_last() =~= digits_of(before));
                }
            }
            if '0' <= c && c <= '9' && n <= Self::MAX as u64 {
                n = 10 * n + (c as u64 - '0' as u64);
            }
        }
        assert(s@.take(s@.len() as int) =~= s@);
        if n <= Self::MAX as u64 {
            Self::new(n as u32)
        } else {
            None
        }
    }

    /// The text of the `Debug` form: `DeviceId(482 913 056)`.
    pub fn debug_text(&self) -> (text: String)
        ensures
            text@ == labelled_text(self.0),
    {
        let mut text = String::new();
        text.append("DeviceId(");
        text.append(self.grouped().as_str());
        text.append(")");
        assert(text@ =~= labelled_text(self.0));
        text
    }

    /// The text of the `Display` form: the plain number.
    pub fn display_text(&self) -> (text: String)
        ensures
            text@ == decimal(self.0 as nat),
    {
        let mut text = String::new();
        push_decimal(&mut text, self.0);
        assert(text@ =~= decimal(self.0 as nat));
        text
    }
}

impl core::fmt::Display for DeviceId {
    /// Writes the plain number.
    fn fmt(&self, f: &mut core::fmt::Formatter<'_>) -> (r: core::fmt::Result)
        ensures
            r is Ok ==> written(*final(f)) == written(*old(f)) + decimal(self.0 as nat),
    {
        f.write_str(self.display_text().as_str())
    }
}

impl core::fmt::Debug for DeviceId {
    /// Writes the grouped form: `DeviceId(482 913 056)`.
    fn fmt(&self, f: &mut core::fmt::Formatter<'_>) -> (r: core::fmt::Result)
        ensures
            r is Ok ==> written(*final(f)) == written(*old(f)) + labelled_text(self.0),
    {
        f.write_str(self.debug_text().as_str())
    }
}

/// A valid identity is written with exactly nine digits, and with eleven
/// characters in the grouped form.
pub proof fn valid_id_has_nine_digits(id: DeviceId)
    requires
        id.valid(),
    ensures
        decimal(id.0 as nat).len() == 9,
        grouped_text(id.0).len() == 11,
{
    lemma_decimal_len(id.0 as nat);
}

/// The plain form of a valid identity parses back to it.
pub proof fn parse_of_display(id: DeviceId)
    requires
        id.valid(),
    ensures
        parsed(decimal(id.0 as nat)) == Some(id),
{
    lemma_decimal_is_digits(id.0 as nat);
    lemma_digits_of_digits(decimal(id.0 as nat));
    lemma_decimal_round_trip(id.0 as nat);
}

/// The grouped form of a valid identity parses back to it.
pub proof fn parse_of_grouped(id: DeviceId)
    requires
        id.valid(),
    ensures
        parsed(grouped_text(id.0)) == Some(id),
{
    let d = decimal(id.0 as nat);
    let pred = |c: char| is_digit(c);
    let (a, b, c) = (d.subrange(0, 3), d.subrange(3, 6), d.subrange(6, 9));
    let sp = seq![' '];
    lemma_decimal_len(id.0 as nat);
    lemma_decimal_is_digits(id.0 as nat);
    lemma_decimal_round_trip(id.0 as nat);
    lemma_digits_of_digits(a);
    lemma_digits_of_digits(b);
    lemma_digits_of_digits(c);
    lemma_digits_of_space();
    Seq::filter_distributes_over_add(a + sp + b + sp, c, pred);
    Seq::filter_distributes_over_add(a + sp + b, sp, pred);
    Seq::filter_distributes_over_add(a + sp, b, pred);
    Seq::filter_distributes_over_add(a, sp, pred);
    assert(digits_of(grouped_text(id.0)) =~= d);
}

/// Only the digits of a text decide what it parses to.
pub proof fn parse_ignores_other_characters(s: Seq<char>, t: Seq<char>)
    requires
        digits_of(s) == digits_of(t),
    ensures
        parsed(s) == parsed(t),
{
}

/// What was drawn came out of one call of the generator, on exactly that range.
proof fn lemma_drawn_in_one_call(
    rng: &mut rand::rngs::ThreadRng,
    low: u32,
    high: u32,
    n: u32,
)
    requires
        drawn_between(rng, low, high, n),
    ensures
        call_ensures(draw_between, (rng, low, high), n),
{
}

/// What was drawn lies in the range.
pub proof fn draws_lie_in_the_range(
    rng: &mut rand::rngs::ThreadRng,
    low: u32,
    high: u32,
    n: u32,
)
    requires
        drawn_between(rng, low, high, n),
    ensures
        low <= n <= high,
{
    lemma_drawn_in_one_call(rng, low, high, n);
}

/// The identities are the numbers with nine digits.
pub proof fn valid_ids_are_the_nine_digit_numbers(id: DeviceId)
    ensures
        id.valid() <==> decimal(id.0 as nat).len() == 9,
        id.valid() <==> 100_000_000 <= id.0 <= 999_999_999,
{
    let len = decimal(id.0 as nat).len();
    lemma_powers_of_ten();
    decimal_has_no_leading_zeros(id.0 as nat);
    if len < 9 {
        lemma_pow_increases(10, len, 8);
    } else if len > 9 {
        lemma_pow_increases(10, 9, (len - 1) as nat);
    }
}

/// A character that is none of the ten digits makes no difference to parsing,
/// wherever it stands.
pub proof fn parse_skips_other_characters(a: Seq<char>, c: char, b: Seq<char>)
    requires
        !"0123456789"@.contains(c),
    ensures
        parsed(a + seq![c] + b) == parsed(a + b),
{
    digits_of_each_character(a, c, b);
}

/// Leading zeros make no difference to parsing.
pub proof fn parse_skips_leading_zeros(s: Seq<char>)
    ensures
        parsed(seq!['0'] + s) == parsed(s),
{
    digits_of_each_character(Seq::empty(), '0', s);
    digits_are_the_ten('0');
    assert(Seq::<char>::empty() + seq!['0'] + s =~= seq!['0'] + s);
    assert(Seq::<char>::empty() + seq!['0'] + digits_of(s) =~= seq!['0'] + digits_of(s));
    lemma_leading_zero(digits_of(s));
}

/// A number that starts with another digit than zero is an identity if it has nine
/// digits: the one that is written so. With more or fewer digits it is none.
pub proof fn parse_reads_nine_digits(s: Seq<char>)
    requires
        forall|i: int| 0 <= i < s.len() ==> "0123456789"@.contains(#[trigger] s[i]),
        s.len() > 0 ==> s[0] != '0',
    ensures
        s.len() == 9 ==> (parsed(s) matches Some(id) && decimal(id.0 as nat) == s),
        s.len() != 9 ==> parsed(s) is None,
{
    assert forall|i: int| 0 <= i < s.len() implies is_digit(#[trigger] s[i]) by {
        digits_are_the_ten(s[i]);
    }
    lemma_digits_of_digits(s);
    lemma_decimal_value_bounds(s);
    lemma_powers_of_ten();
    let len = s.len();
    if len < 9 {
        lemma_pow_increases(10, len, 8);
    } else if len > 9 {
        lemma_pow_increases(10, 9, (len - 1) as nat);
    } else {
        lemma_decimal_of_value(s);
    }
}

proof fn lemma_powers_of_ten()
    ensures
        pow(10, 8) == 100_000_000,
        pow(10, 9) == 1_000_000_000,
{
    reveal(pow);
    reveal_with_fuel(pow, 10);
}

/// The grouped form of a nine-digit number has its digits in three groups, with
/// spaces between them. Any other number is shown as it is.
pub proof fn grouped_form(n: u32)
    ensures
        ({
            let d = decimal(n as nat);
            let g = grouped_text(n);
            if d.len() == 9 {
                &&& g.len() == 11
                &&& g[3] == ' ' && g[7] == ' '
                &&& forall|i: int| 0 <= i < 3 ==> #[trigger] g[i] == d[i]
                &&& forall|i: int| 4 <= i < 7 ==> #[trigger] g[i] == d[i - 1]
                &&& forall|i: int| 8 <= i < 11 ==> #[trigger] g[i] == d[i - 2]
            } else {
                g == d
            }
        }),
{
    valid_ids_are_the_nine_digit_numbers(DeviceId(n));
}

/// The `Debug` form names the type and has the grouped form in brackets.
pub proof fn debug_form(n: u32)
    ensures
        labelled_text(n) == seq!['D', 'e', 'v', 'i', 'c', 'e', 'I', 'd', '('] + grouped_text(n)
            + seq![')'],
{
    reveal_strlit("DeviceId(");
    reveal_strlit(")");
    assert("DeviceId("@ =~= seq!['D', 'e', 'v', 'i', 'c', 'e', 'I', 'd', '(']);
    assert(")"@ =~= seq![')']);
}

} // verus!
