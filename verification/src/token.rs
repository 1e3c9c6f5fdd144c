//! The token by which the relay recognises a registered client.
use vstd::prelude::*;
use vstd::string::*;

use crate::random::fill_bytes;
use crate::text::{digit_char, hex, hex_shows_digits, push_hex, written};

verus! {

/// Opaque per-registration auth token (random 16 bytes). The client must echo it
/// back on every subsequent message so the relay can authenticate the sender.
#[derive(Clone, Copy, PartialEq, Eq)]
pub struct Token(pub [u8; 16]);

/// What the `Debug` form of a token shows: the first eight of its hexadecimal
/// digits, so that a log does not give the whole token away.
pub open spec fn redacted_text(bytes: Seq<u8>) -> Seq<char> {
    "Token("@ + hex(bytes).take(8) + seq!['…', ')']
}

/// Whether `rng` filled `block`, both as they were before and after it.
pub closed spec fn filled_by(rng: &mut rand::rngs::ThreadRng, block: &mut [u8; 16]) -> bool {
    call_ensures(fill_bytes, (rng, block), ())
}

impl Token {
    /// A fresh token of 16 random bytes: those that the generator fills a block with.
    /// Which they are is up to the generator, and not stated. The call panics where
    /// the operating system has no entropy to reseed the generator with.
    pub fn random(rng: &mut rand::rngs::ThreadRng) -> (token: Self)
        ensures
            token.0@.len() == 16,
            exists|r: &mut rand::rngs::ThreadRng, block: &mut [u8; 16]|
                #[trigger] filled_by(r, block) && *r == *old(rng) && *final(r) == *final(rng)
                    && *final(block) == token.0,
    {
        let mut b = [0u8; 16];
        fill_bytes(rng, &mut b);
        proof {
            let (r, block) = choose|r: &mut rand::rngs::ThreadRng, block: &mut [u8; 16]| #[trigger]
                call_ensures(fill_bytes, (r, block), ()) && *r == *old(rng) && *final(r) == *rng
                    && *final(block) == b;
            assert(filled_by(r, block));
        }
        Self::from_bytes(b)
    }

    /// The token that consists of the given bytes, in their order.
    pub fn from_bytes(b: [u8; 16]) -> (token: Self)
        ensures
            token.0 == b,
    {
        Self(b)
    }

    /// The token as 32 lower-case hexadecimal digits.
    pub fn to_hex(self) -> (text: String)
        ensures
            text@ == hex(self.0@),
            text@.len() == 32,
    {
        let mut text = String::new();
        push_hex(&mut text, self.0.as_slice());
        assert(text@ =~= hex(self.0@));
        text
    }

    /// Constant-time equality. Unlike the derived `PartialEq` (a byte-wise
    /// compare that short-circuits at the first mismatch), this examines every
    /// byte regardless of where they differ, so the time taken does not leak how
    /// many leading bytes matched. Use this — not `==` — for authentication
    /// checks where an attacker can observe reply timing.
    pub fn ct_eq(&self, other: &Token) -> (equal: bool)
        ensures
            equal == (self.0@ == other.0@),
    {
        let mut diff: u8 = 0;
        for i in 0..16
            invariant
                diff == 0 <==> (forall|j: int| 0 <= j < i ==> self.0@[j] == other.0@[j]),
        {
            let (before, a, b) = (diff, self.0[i], other.0[i]);
            diff = before | (a ^ b);
            assert((before | (a ^ b)) == 0 <==> (before == 0 && a == b)) by (bit_vector);
            assert(a == self.0@[i as int] && b == other.0@[i as int]);
        }
        assert(diff == 0 ==> self.0@ =~= other.0@);
        diff == 0
    }

    /// The text of the `Debug` form, e.g. `Token(0a1b2c3d…)`.
    pub fn debug_text(&self) -> (text: String)
        ensures
            text@ == redacted_text(self.0@),
    {
        let mut text = String::new();
        text.append("Token(");
        text.append(self.to_hex().as_str().substring_char(0, 8));
        text.push('…');
        text.push(')');
        assert(text@ =~= redacted_text(self.0@));
        text
    }
}

impl core::fmt::Debug for Token {
    /// Writes the redacted form, e.g. `Token(0a1b2c3d…)`.
    fn fmt(&self, f: &mut core::fmt::Formatter<'_>) -> (r: core::fmt::Result)
        ensures
            r is Ok ==> written(*final(f)) == written(*old(f)) + redacted_text(self.0@),
    {
        f.write_str(self.debug_text().as_str())
    }
}

/// The hexadecimal form tells tokens apart.
pub proof fn hex_is_injective(a: Token, b: Token)
    requires
        hex(a.0@) == hex(b.0@),
    ensures
        a.0@ == b.0@,
{
    assert forall|i: int| 0 <= i < 16 implies a.0@[i] == b.0@[i] by {
        let (x, y) = (a.0@[i], b.0@[i]);
        assert(hex(a.0@)[2 * i] == digit_char(x as int / 16));
        assert(hex(b.0@)[2 * i] == digit_char(y as int / 16));
        assert(hex(a.0@)[2 * i + 1] == digit_char(x as int % 16));
        assert(hex(b.0@)[2 * i + 1] == digit_char(y as int % 16));
    }
    assert(a.0@ =~= b.0@);
}

/// The `Debug` form depends on the first four bytes of a token only: it says
/// nothing of the other twelve.
pub proof fn debug_text_hides_the_rest(a: Token, b: Token)
    requires
        a.0@.take(4) == b.0@.take(4),
    ensures
        redacted_text(a.0@) == redacted_text(b.0@),
{
    let (x, y) = (a.0@, b.0@);
    assert forall|i: int| 0 <= i < 4 implies x[i] == y[i] by {
        assert(x.take(4)[i] == x[i]);
        assert(y.take(4)[i] == y[i]);
    }
    assert(hex(x).take(8) =~= hex(y).take(8));
}

/// What was filled was filled by one call of the generator.
proof fn lemma_filled_in_one_call(rng: &mut rand::rngs::ThreadRng, block: &mut [u8; 16])
    requires
        filled_by(rng, block),
    ensures
        call_ensures(fill_bytes, (rng, block), ()),
{
}

/// The hexadecimal form has two digits for each byte, and the `Debug` form has those
/// of the first four bytes, an ellipsis, and nothing of the others.
pub proof fn text_forms(token: Token)
    ensures
        ({
            let (h, t) = (hex(token.0@), redacted_text(token.0@));
            &&& h.len() == 32
            &&& forall|i: int|
                #![trigger token.0@[i]]
                0 <= i < 16 ==> h[2 * i] == "0123456789abcdef"@[token.0@[i] as int / 16] && h[2 * i
                    + 1] == "0123456789abcdef"@[token.0@[i] as int % 16]
            &&& t.len() == 16
            &&& t.take(6) == seq!['T', 'o', 'k', 'e', 'n', '(']
            &&& forall|i: int| 0 <= i < 8 ==> #[trigger] t[6 + i] == h[i]
            &&& t[14] == '…' && t[15] == ')'
        }),
{
    let (h, t) = (hex(token.0@), redacted_text(token.0@));
    assert forall|i: int| #![trigger token.0@[i]] 0 <= i < 16 implies h[2 * i]
        == "0123456789abcdef"@[token.0@[i] as int / 16] && h[2 * i + 1]
        == "0123456789abcdef"@[token.0@[i] as int % 16] by {
        hex_shows_digits(token.0@, i);
    }
    reveal_strlit("Token(");
    assert(t.take(6) =~= seq!['T', 'o', 'k', 'e', 'n', '(']);
}

} // verus!
