//! The wire format: how each part of a message is spelled as bytes and read back.
//!
//! Every value that travels has a spelling, [`Wire::bytes`], and a reader,
//! [`Wire::read`], which looks at the front of a byte sequence and says what
//! value stands there and how many bytes it takes. Values follow one another
//! without separators, so a reader never needs to see what comes after it.
use vstd::prelude::*;
use vstd::slice::{slice_subrange, slice_to_vec};
use vstd::utf8::*;

use crate::codec::{
    byte_string, deserialize_string, deserialize_u16, deserialize_u32, deserialize_u64,
    has_byte_string, serialize_u16, serialize_u32, serialize_u64,
};
use crate::le::{
    le_bytes, le_limit, le_value, lemma_le_bytes_len, lemma_le_bytes_of_value, lemma_le_limits,
    lemma_le_value_of_bytes,
};

verus! {

/// Why a datagram is not a message.
#[derive(Clone, Copy, Debug, PartialEq, Eq, Structural)]
pub enum DecodeError {
    /// The bytes ran out before the message was complete.
    UnexpectedEnd,
    /// A text field does not hold UTF-8.
    InvalidUtf8,
    /// An optional field is marked neither absent (0) nor present (1).
    InvalidTag(u8),
    /// An enum index beyond the variants that are known.
    UnknownVariant(u32),
}

/// What a reader finds at the front of a byte sequence: a value and the number
/// of bytes that it takes, or the first thing that is wrong.
pub type ReadResult<V> = Result<(V, nat), DecodeError>;

/// A value with a place in the wire format.
pub trait Wire: Sized {
    /// The value as the contracts speak of it.
    type Model;

    /// What this value stands for.
    spec fn model(&self) -> Self::Model;

    /// Whether a value has no part that is left out when it is sent.
    open spec fn whole(v: Self::Model) -> bool {
        true
    }

    /// Whether a value survives the wire: it is whole, and its lengths fit the
    /// places that they have there.
    spec fn sendable(v: Self::Model) -> bool;

    /// The bytes of a value.
    spec fn bytes(v: Self::Model) -> Seq<u8>;

    /// The value at the front of `s`.
    spec fn read(s: Seq<u8>) -> ReadResult<Self::Model>;

    /// What was spelled is read back, whatever follows it.
    proof fn read_of_bytes(v: Self::Model, tail: Seq<u8>)
        requires
            Self::sendable(v),
        ensures
            Self::read(Self::bytes(v) + tail) == Ok::<(Self::Model, nat), DecodeError>(
                (v, Self::bytes(v).len()),
            ),
    ;

    /// What is read is spelled by exactly the bytes that it was read from.
    proof fn bytes_of_read(s: Seq<u8>)
        ensures
            Self::read(s) matches Ok((v, n)) ==> n <= s.len() && Self::sendable(v)
                && Self::bytes(v) == s.take(n as int),
    ;

    /// A spelling that is cut short anywhere is recognised as incomplete.
    proof fn read_of_cut(v: Self::Model, len: nat)
        requires
            Self::sendable(v),
        ensures
            len < Self::bytes(v).len() ==> Self::read(Self::bytes(v).take(len as int)) == Err::<
                (Self::Model, nat),
                DecodeError,
            >(DecodeError::UnexpectedEnd),
    ;

    /// Appends the value's bytes to `out`. The lengths of a value that is in
    /// memory always fit.
    fn put(&self, out: &mut Vec<u8>)
        ensures
            final(out)@ == old(out)@ + Self::bytes(self.model()),
            Self::whole(self.model()) ==> Self::sendable(self.model()),
    ;

    /// Reads the value at the front of `buf`, and how many bytes it takes.
    fn get(buf: &[u8]) -> (r: Result<(Self, usize), DecodeError>)
        ensures
            r matches Ok((m, n)) ==> n <= buf@.len() && Self::read(buf@) == Ok::<
                (Self::Model, nat),
                DecodeError,
            >((m.model(), n as nat)),
            r matches Err(e) ==> Self::read(buf@) == Err::<(Self::Model, nat), DecodeError>(e),
    ;
}

/// Encodes a message: the datagram is the message's bytes and nothing else, and
/// decoding it gives the message back.
pub fn encode<T: Wire>(msg: &T) -> (datagram: Vec<u8>)
    ensures
        datagram@ == T::bytes(msg.model()),
        T::whole(msg.model()) ==> T::read(datagram@) == Ok::<(T::Model, nat), DecodeError>(
            (msg.model(), datagram@.len()),
        ),
{
    let mut out: Vec<u8> = Vec::new();
    msg.put(&mut out);
    assert(Seq::<u8>::empty() + T::bytes(msg.model()) =~= T::bytes(msg.model()));
    proof {
        if T::whole(msg.model()) {
            T::read_of_bytes(msg.model(), Seq::empty());
            assert(out@ + Seq::<u8>::empty() =~= out@);
        }
    }
    out
}

/// Decodes the message at the front of a datagram. Bytes after it are ignored.
pub fn decode<T: Wire>(buf: &[u8]) -> (r: Result<T, DecodeError>)
    ensures
        r matches Ok(msg) ==> (T::read(buf@) matches Ok((v, _)) && v == msg.model()),
        r matches Ok(msg) ==> T::bytes(msg.model()).is_prefix_of(buf@),
        r matches Err(e) ==> T::read(buf@) == Err::<(T::Model, nat), DecodeError>(e),
{
    proof {
        T::bytes_of_read(buf@);
    }
    match T::get(buf) {
        Ok((msg, _)) => Ok(msg),
        Err(e) => Err(e),
    }
}

// ---- integers ----

/// The number in the first `width` bytes of `s`.
pub open spec fn read_int(s: Seq<u8>, width: nat) -> ReadResult<nat> {
    if s.len() < width {
        Err(DecodeError::UnexpectedEnd)
    } else {
        Ok((le_value(s.take(width as int)), width))
    }
}

proof fn lemma_read_int(n: nat, width: nat, tail: Seq<u8>)
    requires
        n < le_limit(width),
    ensures
        le_bytes(n, width).len() == width,
        read_int(le_bytes(n, width) + tail, width) == Ok::<(nat, nat), DecodeError>((n, width)),
{
    lemma_le_bytes_len(n, width);
    lemma_le_value_of_bytes(n, width);
    assert((le_bytes(n, width) + tail).take(width as int) =~= le_bytes(n, width));
}

impl Wire for u16 {
    type Model = u16;

    open spec fn model(&self) -> u16 {
        *self
    }

    open spec fn sendable(v: u16) -> bool {
        true
    }

    open spec fn bytes(v: u16) -> Seq<u8> {
        le_bytes(v as nat, 2)
    }

    open spec fn read(s: Seq<u8>) -> ReadResult<u16> {
        match read_int(s, 2) {
            Ok((n, len)) => Ok((n as u16, len)),
            Err(e) => Err(e),
        }
    }

    proof fn read_of_bytes(v: u16, tail: Seq<u8>) {
        lemma_le_limits();
        lemma_read_int(v as nat, 2, tail);
    }

    proof fn bytes_of_read(s: Seq<u8>) {
        lemma_le_limits();
        lemma_le_bytes_of_value(s.take(2));
    }

    proof fn read_of_cut(v: u16, len: nat) {
        lemma_le_bytes_len(v as nat, 2);
    }

    fn put(&self, out: &mut Vec<u8>) {
        let mut bytes = serialize_u16(*self);
        out.append(&mut bytes);
        assert(out@ == old(out)@ + Self::bytes(self.model()) && Self::sendable(self.model()));
    }

    fn get(buf: &[u8]) -> (r: Result<(u16, usize), DecodeError>) {
        match deserialize_u16(buf) {
            Ok(value) => Ok((value, 2)),
            Err(_) => Err(DecodeError::UnexpectedEnd),
        }
    }
}

impl Wire for u32 {
    type Model = u32;

    open spec fn model(&self) -> u32 {
        *self
    }

    open spec fn sendable(v: u32) -> bool {
        true
    }

    open spec fn bytes(v: u32) -> Seq<u8> {
        le_bytes(v as nat, 4)
    }

    open spec fn read(s: Seq<u8>) -> ReadResult<u32> {
        match read_int(s, 4) {
            Ok((n, len)) => Ok((n as u32, len)),
            Err(e) => Err(e),
        }
    }

    proof fn read_of_bytes(v: u32, tail: Seq<u8>) {
        lemma_le_limits();
        lemma_read_int(v as nat, 4, tail);
    }

    proof fn bytes_of_read(s: Seq<u8>) {
        lemma_le_limits();
        lemma_le_bytes_of_value(s.take(4));
    }

    proof fn read_of_cut(v: u32, len: nat) {
        lemma_le_bytes_len(v as nat, 4);
    }

    fn put(&self, out: &mut Vec<u8>) {
        let mut bytes = serialize_u32(*self);
        out.append(&mut bytes);
        assert(out@ == old(out)@ + Self::bytes(self.model()) && Self::sendable(self.model()));
    }

    fn get(buf: &[u8]) -> (r: Result<(u32, usize), DecodeError>) {
        match deserialize_u32(buf) {
            Ok(value) => Ok((value, 4)),
            Err(_) => Err(DecodeError::UnexpectedEnd),
        }
    }
}

impl Wire for u64 {
    type Model = u64;

    open spec fn model(&self) -> u64 {
        *self
    }

    open spec fn sendable(v: u64) -> bool {
        true
    }

    open spec fn bytes(v: u64) -> Seq<u8> {
        le_bytes(v as nat, 8)
    }

    open spec fn read(s: Seq<u8>) -> ReadResult<u64> {
        match read_int(s, 8) {
            Ok((n, len)) => Ok((n as u64, len)),
            Err(e) => Err(e),
        }
    }

    proof fn read_of_bytes(v: u64, tail: Seq<u8>) {
        lemma_le_limits();
        lemma_read_int(v as nat, 8, tail);
    }

    proof fn bytes_of_read(s: Seq<u8>) {
        lemma_le_limits();
        lemma_le_bytes_of_value(s.take(8));
    }

    proof fn read_of_cut(v: u64, len: nat) {
        lemma_le_bytes_len(v as nat, 8);
    }

    fn put(&self, out: &mut Vec<u8>) {
        let mut bytes = serialize_u64(*self);
        out.append(&mut bytes);
        assert(out@ == old(out)@ + Self::bytes(self.model()) && Self::sendable(self.model()));
    }

    fn get(buf: &[u8]) -> (r: Result<(u64, usize), DecodeError>) {
        match deserialize_u64(buf) {
            Ok(value) => Ok((value, 8)),
            Err(_) => Err(DecodeError::UnexpectedEnd),
        }
    }
}

// ---- byte arrays, byte strings and text ----

/// A byte array is sent as it is: both ends know its length.
impl<const N: usize> Wire for [u8; N] {
    type Model = Seq<u8>;

    open spec fn model(&self) -> Seq<u8> {
        self@
    }

    open spec fn sendable(v: Seq<u8>) -> bool {
        v.len() == N
    }

    open spec fn bytes(v: Seq<u8>) -> Seq<u8> {
        v
    }

    open spec fn read(s: Seq<u8>) -> ReadResult<Seq<u8>> {
        if s.len() < N {
            Err(DecodeError::UnexpectedEnd)
        } else {
            Ok((s.take(N as int), N as nat))
        }
    }

    proof fn read_of_bytes(v: Seq<u8>, tail: Seq<u8>) {
        assert((v + tail).take(N as int) =~= v);
    }

    proof fn bytes_of_read(s: Seq<u8>) {
    }

    proof fn read_of_cut(v: Seq<u8>, len: nat) {
    }

    fn put(&self, out: &mut Vec<u8>) {
        out.extend_from_slice(self.as_slice());
        assert(out@ =~= old(out)@ + self@);
    }

    fn get(buf: &[u8]) -> (r: Result<([u8; N], usize), DecodeError>) {
        if buf.len() < N {
            return Err(DecodeError::UnexpectedEnd);
        }
        let mut array: [u8; N] = [0u8; N];
        for i in 0..N
            invariant
                N <= buf@.len(),
                forall|j: int| 0 <= j < i ==> array@[j] == buf@[j],
        {
            array[i] = buf[i];
        }
        assert(array@ =~= buf@.take(N as int));
        Ok((array, N))
    }
}

/// A byte string is sent with its length in front, as eight bytes.
impl Wire for Vec<u8> {
    type Model = Seq<u8>;

    open spec fn model(&self) -> Seq<u8> {
        self@
    }

    open spec fn sendable(v: Seq<u8>) -> bool {
        v.len() <= u64::MAX
    }

    open spec fn bytes(v: Seq<u8>) -> Seq<u8> {
        le_bytes(v.len(), 8) + v
    }

    open spec fn read(s: Seq<u8>) -> ReadResult<Seq<u8>> {
        if has_byte_string(s) {
            Ok((byte_string(s), 8 + byte_string(s).len()))
        } else {
            Err(DecodeError::UnexpectedEnd)
        }
    }

    proof fn read_of_bytes(v: Seq<u8>, tail: Seq<u8>) {
        assert(Self::sendable(v));
        lemma_le_limits();
        lemma_read_int(v.len(), 8, v + tail);
        let s = Self::bytes(v) + tail;
        assert(s =~= le_bytes(v.len(), 8) + (v + tail));
        assert(byte_string(s) =~= v);
        assert(Self::read(s) is Ok);
    }

    proof fn bytes_of_read(s: Seq<u8>) {
        if has_byte_string(s) {
            lemma_le_limits();
            lemma_le_bytes_of_value(s.take(8));
            assert(Self::bytes(byte_string(s)) =~= s.take(8 + byte_string(s).len() as int));
        }
    }

    proof fn read_of_cut(v: Seq<u8>, len: nat) {
        lemma_le_limits();
        lemma_le_bytes_len(v.len(), 8);
        lemma_le_value_of_bytes(v.len(), 8);
        let s = Self::bytes(v).take(len as int);
        if 8 <= len < Self::bytes(v).len() {
            assert(s.take(8) =~= le_bytes(v.len(), 8));
        }
    }

    fn put(&self, out: &mut Vec<u8>) {
        (self.len() as u64).put(out);
        out.extend_from_slice(self.as_slice());
        assert(out@ =~= old(out)@ + Self::bytes(self.model()));
    }

    fn get(buf: &[u8]) -> (r: Result<(Vec<u8>, usize), DecodeError>) {
        let len: u64 = match deserialize_u64(buf) {
            Ok(len) => len,
            Err(_) => return Err(DecodeError::UnexpectedEnd),
        };
        if len > (buf.len() - 8) as u64 {
            return Err(DecodeError::UnexpectedEnd);
        }
        let end: usize = 8 + len as usize;
        Ok((slice_to_vec(slice_subrange(buf, 8, end)), end))
    }
}

/// Text is sent as the byte string of its UTF-8 form.
impl Wire for String {
    type Model = Seq<char>;

    open spec fn model(&self) -> Seq<char> {
        self@
    }

    open spec fn sendable(v: Seq<char>) -> bool {
        encode_utf8(v).len() <= u64::MAX
    }

    open spec fn bytes(v: Seq<char>) -> Seq<u8> {
        le_bytes(encode_utf8(v).len(), 8) + encode_utf8(v)
    }

    open spec fn read(s: Seq<u8>) -> ReadResult<Seq<char>> {
        if !has_byte_string(s) {
            Err(DecodeError::UnexpectedEnd)
        } else if !valid_utf8(byte_string(s)) {
            Err(DecodeError::InvalidUtf8)
        } else {
            Ok((decode_utf8(byte_string(s)), 8 + byte_string(s).len()))
        }
    }

    proof fn read_of_bytes(v: Seq<char>, tail: Seq<u8>) {
        Vec::<u8>::read_of_bytes(encode_utf8(v), tail);
        encode_utf8_valid_utf8(v);
        encode_utf8_decode_utf8(v);
    }

    proof fn bytes_of_read(s: Seq<u8>) {
        Vec::<u8>::bytes_of_read(s);
        if has_byte_string(s) && valid_utf8(byte_string(s)) {
            decode_utf8_encode_utf8(byte_string(s));
        }
    }

    proof fn read_of_cut(v: Seq<char>, len: nat) {
        Vec::<u8>::read_of_cut(encode_utf8(v), len);
    }

    fn put(&self, out: &mut Vec<u8>) {
        let utf8 = self.as_str().as_bytes();
        (utf8.len() as u64).put(out);
        out.extend_from_slice(utf8);
        assert(out@ =~= old(out)@ + Self::bytes(self.model()));
    }

    fn get(buf: &[u8]) -> (r: Result<(String, usize), DecodeError>) {
        let len: u64 = match deserialize_u64(buf) {
            Ok(len) => len,
            Err(_) => return Err(DecodeError::UnexpectedEnd),
        };
        if len > (buf.len() - 8) as u64 {
            return Err(DecodeError::UnexpectedEnd);
        }
        match deserialize_string(buf) {
            Ok(text) => Ok((text, 8 + len as usize)),
            Err(_) => Err(DecodeError::InvalidUtf8),
        }
    }
}

// ---- composition ----

/// An optional value is sent as 0, or as 1 and the value.
impl<T: Wire> Wire for Option<T> {
    type Model = Option<T::Model>;

    open spec fn model(&self) -> Option<T::Model> {
        match self {
            None => None,
            Some(inner) => Some(inner.model()),
        }
    }

    open spec fn whole(v: Option<T::Model>) -> bool {
        v matches Some(inner) ==> T::whole(inner)
    }

    open spec fn sendable(v: Option<T::Model>) -> bool {
        v matches Some(inner) ==> T::sendable(inner)
    }

    open spec fn bytes(v: Option<T::Model>) -> Seq<u8> {
        match v {
            None => seq![0u8],
            Some(inner) => seq![1u8] + T::bytes(inner),
        }
    }

    open spec fn read(s: Seq<u8>) -> ReadResult<Option<T::Model>> {
        if s.len() == 0 {
            Err(DecodeError::UnexpectedEnd)
        } else if s[0] == 0 {
            Ok((None, 1))
        } else if s[0] == 1 {
            match T::read(s.skip(1)) {
                Ok((inner, n)) => Ok((Some(inner), 1 + n)),
                Err(e) => Err(e),
            }
        } else {
            Err(DecodeError::InvalidTag(s[0]))
        }
    }

    proof fn read_of_bytes(v: Option<T::Model>, tail: Seq<u8>) {
        if let Some(inner) = v {
            T::read_of_bytes(inner, tail);
            assert((Self::bytes(v) + tail).skip(1) =~= T::bytes(inner) + tail);
        }
    }

    proof fn bytes_of_read(s: Seq<u8>) {
        if s.len() > 0 {
            T::bytes_of_read(s.skip(1));
            if let Ok((v, n)) = Self::read(s) {
                assert(Self::bytes(v) =~= s.take(n as int));
            }
        }
    }

    proof fn read_of_cut(v: Option<T::Model>, len: nat) {
        if let Some(inner) = v {
            if 0 < len < Self::bytes(v).len() {
                T::read_of_cut(inner, (len - 1) as nat);
                assert(Self::bytes(v).take(len as int).skip(1) =~= T::bytes(inner).take(len - 1));
            }
        }
    }

    fn put(&self, out: &mut Vec<u8>) {
        match self {
            None => {
                out.push(0);
                assert(out@ =~= old(out)@ + Self::bytes(self.model()));
            },
            Some(inner) => {
                out.push(1);
                inner.put(out);
                assert(out@ =~= old(out)@ + Self::bytes(self.model()));
            },
        }
    }

    fn get(buf: &[u8]) -> (r: Result<(Option<T>, usize), DecodeError>) {
        if buf.len() == 0 {
            return Err(DecodeError::UnexpectedEnd);
        }
        match buf[0] {
            0 => Ok((None, 1)),
            1 => {
                let rest = slice_subrange(buf, 1, buf.len());
                assert(rest@ =~= buf@.skip(1));
                match T::get(rest) {
                    Ok((inner, n)) => Ok((Some(inner), 1 + n)),
                    Err(e) => Err(e),
                }
            },
            tag => Err(DecodeError::InvalidTag(tag)),
        }
    }
}

/// Two values are sent one after the other.
impl<A: Wire, B: Wire> Wire for (A, B) {
    type Model = (A::Model, B::Model);

    open spec fn model(&self) -> (A::Model, B::Model) {
        (self.0.model(), self.1.model())
    }

    open spec fn whole(v: (A::Model, B::Model)) -> bool {
        A::whole(v.0) && B::whole(v.1)
    }

    open spec fn sendable(v: (A::Model, B::Model)) -> bool {
        A::sendable(v.0) && B::sendable(v.1)
    }

    open spec fn bytes(v: (A::Model, B::Model)) -> Seq<u8> {
        A::bytes(v.0) + B::bytes(v.1)
    }

    open spec fn read(s: Seq<u8>) -> ReadResult<(A::Model, B::Model)> {
        match A::read(s) {
            Ok((a, n)) => match B::read(s.skip(n as int)) {
                Ok((b, m)) => Ok(((a, b), n + m)),
                Err(e) => Err(e),
            },
            Err(e) => Err(e),
        }
    }

    proof fn read_of_bytes(v: (A::Model, B::Model), tail: Seq<u8>) {
        A::read_of_bytes(v.0, B::bytes(v.1) + tail);
        B::read_of_bytes(v.1, tail);
        let s = Self::bytes(v) + tail;
        assert(s =~= A::bytes(v.0) + (B::bytes(v.1) + tail));
        assert(s.skip(A::bytes(v.0).len() as int) =~= B::bytes(v.1) + tail);
    }

    proof fn bytes_of_read(s: Seq<u8>) {
        A::bytes_of_read(s);
        if let Ok((a, n)) = A::read(s) {
            B::bytes_of_read(s.skip(n as int));
            if let Ok((b, m)) = B::read(s.skip(n as int)) {
                assert(Self::bytes((a, b)) =~= s.take((n + m) as int));
            }
        }
    }

    proof fn read_of_cut(v: (A::Model, B::Model), len: nat) {
        let a = A::bytes(v.0);
        let b = B::bytes(v.1);
        let s = Self::bytes(v).take(len as int);
        if len < a.len() {
            A::read_of_cut(v.0, len);
            assert(s =~= a.take(len as int));
        } else if len < Self::bytes(v).len() {
            let cut = b.take(len - a.len());
            A::read_of_bytes(v.0, cut);
            B::read_of_cut(v.1, (len - a.len()) as nat);
            assert(s =~= a + cut);
            assert(s.skip(a.len() as int) =~= cut);
        }
    }

    fn put(&self, out: &mut Vec<u8>) {
        self.0.put(out);
        self.1.put(out);
        assert(out@ =~= old(out)@ + Self::bytes(self.model()));
    }

    fn get(buf: &[u8]) -> (r: Result<((A, B), usize), DecodeError>) {
        match A::get(buf) {
            Ok((a, n)) => {
                let rest = slice_subrange(buf, n, buf.len());
                assert(rest@ =~= buf@.skip(n as int));
                match B::get(rest) {
                    Ok((b, m)) => Ok(((a, b), n + m)),
                    Err(e) => Err(e),
                }
            },
            Err(e) => Err(e),
        }
    }
}

/// Nothing is sent as no bytes.
impl Wire for () {
    type Model = ();

    open spec fn model(&self) -> () {
        ()
    }

    open spec fn sendable(v: ()) -> bool {
        true
    }

    open spec fn bytes(v: ()) -> Seq<u8> {
        Seq::empty()
    }

    open spec fn read(s: Seq<u8>) -> ReadResult<()> {
        Ok(((), 0))
    }

    proof fn read_of_bytes(v: (), tail: Seq<u8>) {
    }

    proof fn bytes_of_read(s: Seq<u8>) {
        assert(s.take(0) =~= Seq::empty());
    }

    proof fn read_of_cut(v: (), len: nat) {
    }

    fn put(&self, out: &mut Vec<u8>) {
        assert(out@ =~= old(out)@ + Self::bytes(self.model()));
    }

    fn get(buf: &[u8]) -> (r: Result<((), usize), DecodeError>) {
        Ok(((), 0))
    }
}

// ---- a payload behind an index ----

/// An index and the payload behind it are read back, whatever follows them.
pub(crate) proof fn lemma_tagged_read<P: Wire>(index: u32, payload: P::Model, tail: Seq<u8>)
    requires
        P::sendable(payload),
    ensures
        ({
            let s = u32::bytes(index) + P::bytes(payload) + tail;
            &&& u32::bytes(index).len() == 4
            &&& u32::read(s) == Ok::<(u32, nat), DecodeError>((index, 4))
            &&& P::read(s.skip(4)) == Ok::<(P::Model, nat), DecodeError>(
                (payload, P::bytes(payload).len()),
            )
        }),
{
    let s = u32::bytes(index) + P::bytes(payload) + tail;
    u32::read_of_bytes(index, P::bytes(payload) + tail);
    P::read_of_bytes(payload, tail);
    lemma_le_bytes_len(index as nat, 4);
    assert(s =~= u32::bytes(index) + (P::bytes(payload) + tail));
    assert(s.skip(4) =~= P::bytes(payload) + tail);
}

/// An index and the payload behind it are spelled by the bytes they were read from.
pub(crate) proof fn lemma_tagged_bytes<P: Wire>(s: Seq<u8>)
    ensures
        u32::read(s) matches Ok((index, _)) ==> P::read(s.skip(4)) matches Ok((payload, n)) ==> {
            &&& 4 + n <= s.len()
            &&& P::sendable(payload)
            &&& u32::bytes(index) + P::bytes(payload) == s.take(4 + n as int)
        },
{
    u32::bytes_of_read(s);
    P::bytes_of_read(s.skip(4));
    if let Ok((index, _)) = u32::read(s) {
        if let Ok((payload, n)) = P::read(s.skip(4)) {
            assert(u32::bytes(index) + P::bytes(payload) =~= s.take(4 + n as int));
        }
    }
}

/// An index and the payload behind it, cut short, are incomplete: in the index,
/// or in the payload.
pub(crate) proof fn lemma_tagged_cut<P: Wire>(index: u32, payload: P::Model, len: nat)
    requires
        P::sendable(payload),
    ensures
        len < (u32::bytes(index) + P::bytes(payload)).len() ==> ({
            let s = (u32::bytes(index) + P::bytes(payload)).take(len as int);
            let end = DecodeError::UnexpectedEnd;
            ||| u32::read(s) == Err::<(u32, nat), DecodeError>(end)
            ||| u32::read(s) == Ok::<(u32, nat), DecodeError>((index, 4)) && P::read(s.skip(4))
                == Err::<(P::Model, nat), DecodeError>(end)
        }),
{
    let s = (u32::bytes(index) + P::bytes(payload)).take(len as int);
    lemma_le_bytes_len(index as nat, 4);
    if len < 4 {
        u32::read_of_cut(index, len);
        assert(s =~= u32::bytes(index).take(len as int));
    } else if len < 4 + P::bytes(payload).len() {
        let cut = P::bytes(payload).take(len - 4);
        u32::read_of_bytes(index, cut);
        P::read_of_cut(payload, (len - 4) as nat);
        assert(s =~= u32::bytes(index) + cut);
        assert(s.skip(4) =~= cut);
    }
}

} // verus!
