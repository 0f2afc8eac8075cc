//! The codec contracts: type identity, serialization, deserialization, the
//! const-size specialization, and the two-layer error model that separates
//! transport failures from structural parse failures.
//!
//! Every codec is a stateless value. Its behaviour is pinned down by two
//! spec-level functions: `spec_encode`, the exact byte sequence a value
//! serializes to, and `spec_decode`, the value (and consumed byte count) that
//! a byte sequence parses to, or `None` when no value can be parsed from it.

use vstd::prelude::*;

use crate::io::{ByteCounter, ByteRead, ByteWrite, CounterOverflowError};

verus! {

/// A failure during deserialization: exactly one of a structural parse
/// failure `P` (the bytes were delivered but do not encode a valid value) or
/// a transport failure `I` (the byte source could not deliver the bytes).
#[derive(Debug, Copy, Clone, PartialEq, Eq)]
pub enum ParseOrIOError<P, I> {
    Parse(P),
    IO(I),
}

impl<P, I> ParseOrIOError<P, I> {
    /// Transform only the structural variant, passing a transport failure
    /// through untouched.
    pub fn map_parse<NewP, F: FnOnce(P) -> NewP>(self, op: F) -> (r: ParseOrIOError<NewP, I>)
        requires
            self matches ParseOrIOError::Parse(p) ==> call_requires(op, (p,)),
        ensures
            self matches ParseOrIOError::IO(i) ==> r == ParseOrIOError::<NewP, I>::IO(i),
            self matches ParseOrIOError::Parse(p) ==> (r matches ParseOrIOError::Parse(q)
                && call_ensures(op, (p,), q)),
    {
        match self {
            ParseOrIOError::Parse(p) => ParseOrIOError::Parse(op(p)),
            ParseOrIOError::IO(i) => ParseOrIOError::IO(i),
        }
    }

    /// Transform only the transport variant, passing a structural failure
    /// through untouched.
    pub fn map_io<NewI, F: FnOnce(I) -> NewI>(self, op: F) -> (r: ParseOrIOError<P, NewI>)
        requires
            self matches ParseOrIOError::IO(i) ==> call_requires(op, (i,)),
        ensures
            self matches ParseOrIOError::Parse(p) ==> r == ParseOrIOError::<P, NewI>::Parse(p),
            self matches ParseOrIOError::IO(i) ==> (r matches ParseOrIOError::IO(q)
                && call_ensures(op, (i,), q)),
    {
        match self {
            ParseOrIOError::Parse(p) => ParseOrIOError::Parse(p),
            ParseOrIOError::IO(i) => ParseOrIOError::IO(op(i)),
        }
    }
}

/// Structural type identity of one encoding strategy for one value type.
///
/// The identity is an ordered sequence of string tokens. It is pure: a codec
/// value always reports the same tokens. Two codecs are interchangeable on
/// the wire only when their token sequences are equal; the tokens are never
/// themselves transmitted.
pub trait ByteTypeId<T: DeepView> {
    /// The token sequence identifying this encoding of `T`.
    spec fn spec_type_id(&self) -> Seq<Seq<char>>;

    /// Report the token sequence.
    fn byte_type_id(&self) -> (r: Vec<String>)
        ensures
            r.deep_view() == self.spec_type_id(),
    ;
}

/// Serialization of values of type `T`.
pub trait ByteSerialize<T: DeepView>: ByteTypeId<T> {
    /// The exact bytes that the abstract value `v` serializes to.
    spec fn spec_encode(&self, v: T::V) -> Seq<u8>;

    /// Which abstract values this codec encodes faithfully (decoding the
    /// encoding yields the value back). Serialization itself is defined for
    /// every value.
    spec fn spec_wf(&self, v: T::V) -> bool;

    /// Write the encoding of `item` to `io`. On failure of the sink, some
    /// prefix of the encoding may have been written.
    fn byte_serialize<W: ByteWrite>(&self, item: &T, io: &mut W) -> (r: Result<(), W::Err>)
        ensures
            r is Ok ==> final(io).spec_written() == old(io).spec_written()
                + self.spec_encode(item.deep_view()),
            W::spec_infallible() ==> r is Ok,
            old(io).spec_written().is_prefix_of(final(io).spec_written()),
    ;

    /// The number of bytes `byte_serialize` writes for `item`, computed
    /// without performing any I/O.
    fn size(&self, item: &T) -> (r: u64)
        requires
            self.spec_encode(item.deep_view()).len() <= u64::MAX,
        ensures
            r == self.spec_encode(item.deep_view()).len(),
    ;
}

/// Deserialization of values of type `T`.
pub trait ByteDeserialize<T: DeepView>: ByteTypeId<T> {
    /// The structural parse failure this codec can report.
    type ParseErr;

    /// The abstract value parsed from the front of `bytes`, together with how
    /// many bytes it occupies; `None` when no value can be parsed, whether
    /// because the bytes are malformed or because too few are present.
    spec fn spec_decode(&self, bytes: Seq<u8>) -> Option<(int, T::V)>;

    /// Read one value from `io`. Exactly the bytes of the parsed value are
    /// consumed on success; an error is returned exactly when no value can be
    /// parsed from the remaining bytes.
    fn byte_deserialize<R: ByteRead>(&self, io: &mut R) -> (r: Result<
        T,
        ParseOrIOError<Self::ParseErr, R::Err>,
    >)
        ensures
            final(io).spec_remaining().len() <= old(io).spec_remaining().len(),
            final(io).spec_remaining() == old(io).spec_remaining().skip(
                old(io).spec_remaining().len() - final(io).spec_remaining().len(),
            ),
            match r {
                Ok(v) => self.spec_decode(old(io).spec_remaining()) == Some(
                    (
                        old(io).spec_remaining().len() - final(io).spec_remaining().len(),
                        v.deep_view(),
                    ),
                ),
                Err(_) => self.spec_decode(old(io).spec_remaining()) is None,
            },
    ;

    /// A non-binding allocation hint: the encoded width, where it is known
    /// without looking at any value.
    fn guess_size(&self) -> (r: Option<u64>);
}

/// A codec that both serializes and deserializes `T`, with the proof that the
/// two directions agree: decoding an encoding yields the encoded value back
/// and consumes exactly its bytes, whatever follows them.
pub trait ByteSerde<T: DeepView>: ByteSerialize<T> + ByteDeserialize<T> {
    /// The round-trip law for this codec.
    proof fn lemma_round_trip(&self, v: T::V, rest: Seq<u8>)
        requires
            self.spec_wf(v),
        ensures
            self.spec_decode(self.spec_encode(v) + rest) == Some(
                (self.spec_encode(v).len() as int, v),
            ),
    ;
}

/// A codec whose encodings all have one fixed byte width.
pub trait ByteConstSize<T: DeepView>: ByteTypeId<T> {
    /// The fixed width in bytes.
    spec fn spec_byte_size(&self) -> nat;

    /// Report the fixed width.
    fn byte_size(&self) -> (r: usize)
        ensures
            r == self.spec_byte_size(),
    ;
}

/// A const-size codec that serializes by producing its fixed-width byte
/// buffer directly. The generic [`ByteSerialize`] contract is derived from
/// this one through [`const_byte_serialize`] and [`const_byte_size`].
pub trait ByteConstSerialize<T: DeepView>: ByteConstSize<T> {
    /// The exact fixed-width buffer the abstract value `v` serializes to.
    spec fn spec_const_encode(&self, v: T::V) -> Seq<u8>;

    /// Every encoding of this codec has the fixed width.
    proof fn lemma_const_encode_size(&self, v: T::V)
        ensures
            self.spec_const_encode(v).len() == self.spec_byte_size(),
    ;

    /// Produce the encoding of `item` as one fixed-width buffer.
    fn byte_const_serialize(&self, item: &T) -> (r: Vec<u8>)
        ensures
            r@ == self.spec_const_encode(item.deep_view()),
    ;
}

/// A const-size codec that deserializes from exactly its fixed-width byte
/// buffer. The generic [`ByteDeserialize`] contract is derived from this one
/// through [`const_byte_deserialize`].
pub trait ByteConstDeserialize<T: DeepView>: ByteConstSize<T> {
    /// The structural parse failure this codec can report.
    type ParseErr;

    /// The abstract value a fixed-width buffer parses to, or `None` when it
    /// is structurally invalid.
    spec fn spec_const_decode(&self, buf: Seq<u8>) -> Option<T::V>;

    /// Parse a value out of exactly one fixed-width buffer.
    fn byte_const_deserialize(&self, buf: &[u8]) -> (r: Result<T, Self::ParseErr>)
        requires
            buf@.len() == self.spec_byte_size(),
        ensures
            match r {
                Ok(v) => self.spec_const_decode(buf@) == Some(v.deep_view()),
                Err(_) => self.spec_const_decode(buf@) is None,
            },
    ;
}

/// What a const-size codec's general decoding is: take the fixed-width
/// prefix and parse it; too few bytes never parse.
pub open spec fn spec_decode_of_const<E: ByteConstDeserialize<T>, T: DeepView>(
    codec: E,
    bytes: Seq<u8>,
) -> Option<(int, T::V)> {
    if bytes.len() >= codec.spec_byte_size() {
        match codec.spec_const_decode(bytes.take(codec.spec_byte_size() as int)) {
            Some(v) => Some((codec.spec_byte_size() as int, v)),
            None => None,
        }
    } else {
        None
    }
}

/// The generic bridge from a const-size codec to the general serialization
/// contract: build the fixed-width buffer and hand it to the sink in one
/// bulk write.
pub fn const_byte_serialize<E, T, W>(codec: &E, item: &T, io: &mut W) -> (r: Result<(), W::Err>)
    where E: ByteConstSerialize<T>, T: DeepView, W: ByteWrite,
    ensures
        r is Ok ==> final(io).spec_written() == old(io).spec_written()
            + codec.spec_const_encode(item.deep_view()),
        W::spec_infallible() ==> r is Ok,
        old(io).spec_written().is_prefix_of(final(io).spec_written()),
{
    let buf = codec.byte_const_serialize(item);
    io.write_buf(buf.as_slice())
}

/// The generic bridge from a const-size codec to the general size contract:
/// the fixed width, with no computation on the value.
pub fn const_byte_size<E, T>(codec: &E, item: &T) -> (r: u64)
    where E: ByteConstSerialize<T>, T: DeepView,
    ensures
        r == codec.spec_const_encode(item.deep_view()).len(),
{
    proof {
        codec.lemma_const_encode_size(item.deep_view());
    }
    codec.byte_size() as u64
}

/// The generic bridge from a const-size codec to the general deserialization
/// contract: read the fixed-width buffer in one bulk transport call, then
/// parse it. A transport shortfall surfaces as the source's own error; a
/// structural failure of the fixed-width parse surfaces as a parse error.
pub fn const_byte_deserialize<E, T, R>(codec: &E, io: &mut R) -> (r: Result<
    T,
    ParseOrIOError<E::ParseErr, R::Err>,
>)
    where E: ByteConstDeserialize<T>, T: DeepView, R: ByteRead,
    ensures
        final(io).spec_remaining().len() <= old(io).spec_remaining().len(),
        final(io).spec_remaining() == old(io).spec_remaining().skip(
            old(io).spec_remaining().len() - final(io).spec_remaining().len(),
        ),
        match r {
            Ok(v) => spec_decode_of_const(*codec, old(io).spec_remaining()) == Some(
                (
                    old(io).spec_remaining().len() - final(io).spec_remaining().len(),
                    v.deep_view(),
                ),
            ),
            Err(_) => spec_decode_of_const(*codec, old(io).spec_remaining()) is None,
        },
        r matches Err(ParseOrIOError::Parse(p)) ==> old(io).spec_remaining().len()
            >= codec.spec_byte_size() && codec.spec_const_decode(
            old(io).spec_remaining().take(codec.spec_byte_size() as int),
        ) is None,
        r matches Err(ParseOrIOError::IO(_)) ==> old(io).spec_remaining().len()
            < codec.spec_byte_size(),
{
    let size = codec.byte_size();
    match io.read_buf(size as u64) {
        Err(e) => {
            proof {
                assert(old(io).spec_remaining().skip(0) =~= old(io).spec_remaining());
            }
            Err(ParseOrIOError::IO(e))
        },
        Ok(buf) => {
            match codec.byte_const_deserialize(buf.as_slice()) {
                Ok(v) => Ok(v),
                Err(p) => Err(ParseOrIOError::Parse(p)),
            }
        },
    }
}

/// Compute a codec's encoded size the slow, definitional way: run the
/// serializer against a counting sink and report the count. On success the
/// result equals what the codec's own `size` reports, since both equal the
/// length of the spec-level encoding.
pub fn size_by_counting<E, T>(codec: &E, item: &T) -> (r: Result<u64, CounterOverflowError>)
    where E: ByteSerialize<T>, T: DeepView,
    ensures
        r matches Ok(n) ==> n == codec.spec_encode(item.deep_view()).len(),
{
    let mut counter = ByteCounter::new();
    match codec.byte_serialize(item, &mut counter) {
        Ok(()) => Ok(counter.count()),
        Err(e) => Err(e),
    }
}

/// Structural value equality for the value types the codecs handle: two
/// values are equal exactly when their abstract views are.
pub trait ValueEq: DeepView + Sized {
    /// Decide `self.deep_view() == other.deep_view()`.
    fn value_eq(&self, other: &Self) -> (r: bool)
        ensures
            r <==> self.deep_view() == other.deep_view(),
    ;
}

/// Append every token of `src` to `dst`.
pub fn append_tokens(dst: &mut Vec<String>, src: &Vec<String>)
    ensures
        final(dst).deep_view() == old(dst).deep_view() + src.deep_view(),
{
    let mut i: usize = 0;
    while i < src.len()
        invariant
            i <= src.len(),
            dst.deep_view() == old(dst).deep_view() + src.deep_view().take(i as int),
        decreases src.len() - i,
    {
        let ghost before = dst.deep_view();
        let tok = src[i].clone();
        proof {
            assert(tok.deep_view() == src.deep_view()[i as int]);
        }
        dst.push(tok);
        i = i + 1;
        proof {
            assert(dst.deep_view() =~~= before + seq![src.deep_view()[i as int - 1]]);
            assert(dst.deep_view() =~~= old(dst).deep_view() + src.deep_view().take(i as int));
        }
    }
    proof {
        assert(dst.deep_view() =~~= old(dst).deep_view() + src.deep_view());
    }
}

/// Skipping `a` bytes and then `b` more is skipping `a + b`.
pub proof fn lemma_skip_skip<A>(s: Seq<A>, a: int, b: int)
    requires
        0 <= a,
        0 <= b,
        a + b <= s.len(),
    ensures
        s.skip(a).skip(b) == s.skip(a + b),
{
    assert(s.skip(a).skip(b) =~= s.skip(a + b));
}

/// The character for one decimal digit.
pub open spec fn spec_digit_char(d: nat) -> char {
    if d == 0 {
        '0'
    } else if d == 1 {
        '1'
    } else if d == 2 {
        '2'
    } else if d == 3 {
        '3'
    } else if d == 4 {
        '4'
    } else if d == 5 {
        '5'
    } else if d == 6 {
        '6'
    } else if d == 7 {
        '7'
    } else if d == 8 {
        '8'
    } else {
        '9'
    }
}

/// The decimal digits of `n`, most significant first, with no leading
/// zeroes.
pub open spec fn spec_decimal_digits(n: nat) -> Seq<char>
    decreases n,
{
    if n < 10 {
        seq![spec_digit_char(n)]
    } else {
        spec_decimal_digits(n / 10) + seq![spec_digit_char(n % 10)]
    }
}

/// One decimal digit as a string.
fn digit_str(d: u64) -> (r: String)
    requires
        d < 10,
    ensures
        r@ == seq![spec_digit_char(d as nat)],
{
    proof {
        reveal_strlit("0");
        reveal_strlit("1");
        reveal_strlit("2");
        reveal_strlit("3");
        reveal_strlit("4");
        reveal_strlit("5");
        reveal_strlit("6");
        reveal_strlit("7");
        reveal_strlit("8");
        reveal_strlit("9");
    }
    let r = if d == 0 {
        "0"
    } else if d == 1 {
        "1"
    } else if d == 2 {
        "2"
    } else if d == 3 {
        "3"
    } else if d == 4 {
        "4"
    } else if d == 5 {
        "5"
    } else if d == 6 {
        "6"
    } else if d == 7 {
        "7"
    } else if d == 8 {
        "8"
    } else {
        "9"
    };
    proof {
        assert(r@ =~= seq![spec_digit_char(d as nat)]);
    }
    r.to_owned()
}

/// Write `n` in decimal.
pub fn u64_to_decimal(n: u64) -> (r: String)
    ensures
        r@ == spec_decimal_digits(n as nat),
    decreases n,
{
    if n < 10 {
        digit_str(n)
    } else {
        let high = u64_to_decimal(n / 10);
        let low = digit_str(n % 10);
        let r = high.concat(low.as_str());
        proof {
            assert(r@ =~= spec_decimal_digits(n as nat));
        }
        r
    }
}

impl ValueEq for u8 {
    fn value_eq(&self, other: &Self) -> (r: bool) {
        *self == *other
    }
}

impl ValueEq for i8 {
    fn value_eq(&self, other: &Self) -> (r: bool) {
        *self == *other
    }
}

impl ValueEq for u16 {
    fn value_eq(&self, other: &Self) -> (r: bool) {
        *self == *other
    }
}

impl ValueEq for i16 {
    fn value_eq(&self, other: &Self) -> (r: bool) {
        *self == *other
    }
}

impl ValueEq for u32 {
    fn value_eq(&self, other: &Self) -> (r: bool) {
        *self == *other
    }
}

impl ValueEq for i32 {
    fn value_eq(&self, other: &Self) -> (r: bool) {
        *self == *other
    }
}

impl ValueEq for u64 {
    fn value_eq(&self, other: &Self) -> (r: bool) {
        *self == *other
    }
}

impl ValueEq for i64 {
    fn value_eq(&self, other: &Self) -> (r: bool) {
        *self == *other
    }
}

impl ValueEq for u128 {
    fn value_eq(&self, other: &Self) -> (r: bool) {
        *self == *other
    }
}

impl ValueEq for i128 {
    fn value_eq(&self, other: &Self) -> (r: bool) {
        *self == *other
    }
}

impl ValueEq for () {
    fn value_eq(&self, other: &Self) -> (r: bool) {
        true
    }
}

impl ValueEq for String {
    fn value_eq(&self, other: &Self) -> (r: bool) {
        self.eq(other)
    }
}

impl<T: ValueEq> ValueEq for Vec<T> {
    fn value_eq(&self, other: &Self) -> (r: bool) {
        if self.len() != other.len() {
            proof {
                assert(self.deep_view().len() == self@.len());
                assert(other.deep_view().len() == other@.len());
            }
            return false;
        }
        let n = self.len();
        let mut i: usize = 0;
        while i < n
            invariant
                i <= n,
                n == self@.len(),
                n == other@.len(),
                forall|j: int| 0 <= j < i ==> self.deep_view()[j] == other.deep_view()[j],
            decreases n - i,
        {
            if !self[i].value_eq(&other[i]) {
                proof {
                    assert(self.deep_view()[i as int] != other.deep_view()[i as int]);
                }
                return false;
            }
            i = i + 1;
        }
        proof {
            assert(self.deep_view() =~= other.deep_view());
        }
        true
    }
}

/// Decide whether two token sequences are identical.
pub fn type_ids_equal(a: &Vec<String>, b: &Vec<String>) -> (r: bool)
    ensures
        r <==> a.deep_view() == b.deep_view(),
{
    if a.len() != b.len() {
        proof {
            assert(a.deep_view().len() == a@.len());
            assert(b.deep_view().len() == b@.len());
        }
        return false;
    }
    let n = a.len();
    let mut i: usize = 0;
    while i < n
        invariant
            i <= n,
            n == a@.len(),
            n == b@.len(),
            forall|j: int| 0 <= j < i ==> a.deep_view()[j] == b.deep_view()[j],
        decreases n - i,
    {
        if !(a[i] == b[i]) {
            proof {
                assert(a.deep_view()[i as int] != b.deep_view()[i as int]);
            }
            return false;
        }
        i = i + 1;
    }
    proof {
        assert(a.deep_view() =~= b.deep_view());
    }
    true
}

} // verus!
