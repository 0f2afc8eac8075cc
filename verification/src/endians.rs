//! Fixed-width integer codecs: little-endian and big-endian encodings for
//! every standard integer width, plus the degenerate single-byte codec for
//! which byte order does not matter.
//!
//! The byte-level model is base-256: `le_bytes_of` lays a value out least
//! significant byte first, `le_val_of` reads it back, and the big-endian
//! forms are the reverse of the little-endian ones.

use vstd::prelude::*;
use vstd::arithmetic::div_mod::{lemma_fundamental_div_mod, lemma_multiply_divide_lt};
use vstd::arithmetic::mul::lemma_mul_inequality;
use vstd::arithmetic::power2::{
    lemma2_to64, lemma2_to64_rest, lemma_pow2_adds, lemma_pow2_strictly_increases, pow2,
};

use crate::io::{ByteRead, ByteWrite};
use crate::serde::{
    const_byte_deserialize, const_byte_serialize, const_byte_size, spec_decode_of_const,
    ByteConstDeserialize, ByteConstSerialize, ByteConstSize, ByteDeserialize, ByteSerde,
    ByteSerialize, ByteTypeId, ParseOrIOError,
};

verus! {

/// The little-endian base-256 digits of `v`, exactly `width` bytes long;
/// digits beyond the width are cut off.
pub open spec fn le_bytes_of(v: nat, width: nat) -> Seq<u8>
    decreases width,
{
    if width == 0 {
        Seq::empty()
    } else {
        seq![(v % 256) as u8] + le_bytes_of(v / 256, (width - 1) as nat)
    }
}

/// The value of a little-endian base-256 digit sequence.
pub open spec fn le_val_of(bytes: Seq<u8>) -> nat
    decreases bytes.len(),
{
    if bytes.len() == 0 {
        0
    } else {
        (bytes[0] + 256 * le_val_of(bytes.drop_first())) as nat
    }
}

pub proof fn lemma_le_bytes_len(v: nat, width: nat)
    ensures
        le_bytes_of(v, width).len() == width,
    decreases width,
{
    if width > 0 {
        lemma_le_bytes_len(v / 256, (width - 1) as nat);
    }
}

pub proof fn lemma_le_val_bound(bytes: Seq<u8>)
    ensures
        le_val_of(bytes) < pow2(8 * bytes.len()),
    decreases bytes.len(),
{
    lemma2_to64();
    if bytes.len() == 0 {
    } else {
        lemma_le_val_bound(bytes.drop_first());
        lemma_pow2_adds(8, 8 * (bytes.len() - 1) as nat);
        let rest = le_val_of(bytes.drop_first());
        let bound = pow2(8 * (bytes.len() - 1) as nat);
        assert(256 * rest <= 256 * (bound - 1)) by (nonlinear_arith)
            requires rest <= bound - 1;
    }
}

pub proof fn lemma_le_val_of_le_bytes(v: nat, width: nat)
    requires
        v < pow2(8 * width),
    ensures
        le_val_of(le_bytes_of(v, width)) == v,
    decreases width,
{
    lemma2_to64();
    if width == 0 {
    } else {
        let rest = le_bytes_of(v / 256, (width - 1) as nat);
        assert(le_bytes_of(v, width).drop_first() =~= rest);
        lemma_pow2_adds(8, 8 * (width - 1) as nat);
        lemma_multiply_divide_lt(v as int, 256, pow2(8 * (width - 1) as nat) as int);
        lemma_le_val_of_le_bytes(v / 256, (width - 1) as nat);
        lemma_fundamental_div_mod(v as int, 256);
    }
}

/// Write the little-endian digits of `v`, truncated or zero-padded to
/// exactly `width` bytes.
fn u128_to_le_vec(v: u128, width: usize) -> (r: Vec<u8>)
    ensures
        r@ == le_bytes_of(v as nat, width as nat),
{
    let mut r: Vec<u8> = Vec::new();
    let mut cur: u128 = v;
    let mut i: usize = 0;
    while i < width
        invariant
            i <= width,
            r@.len() == i,
            r@ + le_bytes_of(cur as nat, (width - i) as nat) == le_bytes_of(
                v as nat,
                width as nat,
            ),
        decreases width - i,
    {
        let b: u8 = (cur % 256) as u8;
        r.push(b);
        cur = cur / 256;
        i = i + 1;
        proof {
            assert(r@ + le_bytes_of(cur as nat, (width - i) as nat) =~= le_bytes_of(
                v as nat,
                width as nat,
            ));
        }
    }
    proof {
        assert(r@ =~= le_bytes_of(v as nat, width as nat));
    }
    r
}

/// Read a little-endian digit sequence of at most 16 bytes back into a
/// value.
fn le_vec_to_u128(buf: &[u8]) -> (r: u128)
    requires
        buf@.len() <= 16,
    ensures
        r as nat == le_val_of(buf@),
{
    let n = buf.len();
    let mut acc: u128 = 0;
    let mut i: usize = n;
    proof {
        assert(buf@.skip(n as int) =~= Seq::<u8>::empty());
    }
    while i > 0
        invariant
            i <= n,
            n == buf@.len(),
            n <= 16,
            acc as nat == le_val_of(buf@.skip(i as int)),
        decreases i,
    {
        i = i - 1;
        proof {
            lemma_le_val_bound(buf@.skip(i as int + 1));
            lemma2_to64();
            lemma2_to64_rest();
            lemma_pow2_adds(64, 56);
            lemma_pow2_adds(8, 120);
            let k = 8 * ((n - i - 1) as nat);
            if k < 120 {
                lemma_pow2_strictly_increases(k, 120);
            }
            lemma_mul_inequality(acc as int, pow2(120) as int - 1, 256);
            assert(buf@.skip(i as int).drop_first() =~= buf@.skip(i as int + 1));
        }
        acc = acc * 256 + buf[i] as u128;
    }
    proof {
        assert(buf@.skip(0) =~= buf@);
    }
    acc
}

/// Copy a byte slice in reverse order.
fn reverse_slice(v: &[u8]) -> (r: Vec<u8>)
    ensures
        r@ == v@.reverse(),
{
    let mut r: Vec<u8> = Vec::new();
    let n = v.len();
    let mut i: usize = n;
    while i > 0
        invariant
            i <= n,
            n == v@.len(),
            r@.len() == n - i,
            forall|j: int| 0 <= j < r@.len() ==> r@[j] == v@[n - 1 - j],
        decreases i,
    {
        i = i - 1;
        let b = v[i];
        r.push(b);
    }
    proof {
        assert(r@ =~= v@.reverse());
    }
    r
}

/// One standard integer type as the fixed-width codecs see it: its width in
/// bytes, its two's-complement unsigned value, and its type-identity tokens.
pub trait FixedWidthInt: DeepView<V = Self> + Copy + Sized {
    /// Width in bytes: the bit width divided by eight.
    spec fn spec_width() -> nat;

    /// The unsigned value of the two's-complement representation.
    spec fn spec_to_unsigned(self) -> nat;

    /// The value whose two's-complement representation has unsigned value
    /// `n`.
    spec fn spec_from_unsigned(n: nat) -> Self;

    /// Identity token under the little-endian codec.
    spec fn spec_le_token() -> Seq<char>;

    /// Identity token under the big-endian codec.
    spec fn spec_be_token() -> Seq<char>;

    proof fn lemma_width()
        ensures
            1 <= Self::spec_width() <= 16,
    ;

    proof fn lemma_value(v: Self)
        ensures
            v.spec_to_unsigned() < pow2(8 * Self::spec_width()),
            Self::spec_from_unsigned(v.spec_to_unsigned()) == v,
            v.deep_view() == v,
    ;

    fn exec_width() -> (r: usize)
        ensures
            r == Self::spec_width(),
    ;

    fn to_u128(self) -> (r: u128)
        ensures
            r as nat == self.spec_to_unsigned(),
    ;

    fn from_u128(n: u128) -> (r: Self)
        requires
            (n as nat) < pow2(8 * Self::spec_width()),
        ensures
            r == Self::spec_from_unsigned(n as nat),
    ;

    fn le_token() -> (r: String)
        ensures
            r@ == Self::spec_le_token(),
    ;

    fn be_token() -> (r: String)
        ensures
            r@ == Self::spec_be_token(),
    ;
}

/// An integer type one byte wide, for which byte order is a no-op and the
/// single-byte codec applies.
pub trait SingleByteInt: FixedWidthInt {
    proof fn lemma_single_byte()
        ensures
            Self::spec_width() == 1,
            Self::spec_le_token() == Self::spec_be_token(),
    ;
}

/// Structural parse failure of the fixed-width integer codecs: every
/// fixed-width buffer decodes, so this error is never produced.
#[derive(Debug, Clone, Copy, PartialEq, Eq, Structural)]
pub struct NoParseError;

/// The little-endian fixed-width codec.
#[derive(Debug, Default, Copy, Clone)]
pub struct NumberEncodingLE;

/// The big-endian fixed-width codec.
#[derive(Debug, Default, Copy, Clone)]
pub struct NumberEncodingBE;

/// The codec for one-byte integers, where endianness does not exist.
#[derive(Debug, Default, Copy, Clone)]
pub struct NumberEncodingSingleByte;

impl<T: FixedWidthInt> ByteTypeId<T> for NumberEncodingLE {
    open spec fn spec_type_id(&self) -> Seq<Seq<char>> {
        seq![T::spec_le_token()]
    }

    fn byte_type_id(&self) -> (r: Vec<String>) {
        let mut r: Vec<String> = Vec::new();
        r.push(T::le_token());
        proof {
            assert(r.deep_view() =~= seq![T::spec_le_token()]);
        }
        r
    }
}

impl<T: FixedWidthInt> ByteSerialize<T> for NumberEncodingLE {
    open spec fn spec_encode(&self, v: T) -> Seq<u8> {
        le_bytes_of(v.spec_to_unsigned(), T::spec_width())
    }

    open spec fn spec_wf(&self, v: T) -> bool {
        true
    }

    fn byte_serialize<W: ByteWrite>(&self, item: &T, io: &mut W) -> (r: Result<(), W::Err>) {
        const_byte_serialize(self, item, io)
    }

    fn size(&self, item: &T) -> (r: u64) {
        const_byte_size(self, item)
    }
}

impl<T: FixedWidthInt> ByteConstSize<T> for NumberEncodingLE {
    open spec fn spec_byte_size(&self) -> nat {
        T::spec_width()
    }

    fn byte_size(&self) -> (r: usize) {
        T::exec_width()
    }
}

impl<T: FixedWidthInt> ByteConstSerialize<T> for NumberEncodingLE {
    open spec fn spec_const_encode(&self, v: T) -> Seq<u8> {
        le_bytes_of(v.spec_to_unsigned(), T::spec_width())
    }

    proof fn lemma_const_encode_size(&self, v: T) {
        lemma_le_bytes_len(v.spec_to_unsigned(), T::spec_width());
    }

    fn byte_const_serialize(&self, item: &T) -> (r: Vec<u8>) {
        proof {
            T::lemma_value(*item);
        }
        u128_to_le_vec(item.to_u128(), T::exec_width())
    }
}

impl<T: FixedWidthInt> ByteDeserialize<T> for NumberEncodingLE {
    type ParseErr = NoParseError;

    open spec fn spec_decode(&self, bytes: Seq<u8>) -> Option<(int, T)> {
        spec_decode_of_const::<Self, T>(*self, bytes)
    }

    fn byte_deserialize<R: ByteRead>(&self, io: &mut R) -> (r: Result<
        T,
        ParseOrIOError<Self::ParseErr, R::Err>,
    >) {
        const_byte_deserialize(self, io)
    }

    fn guess_size(&self) -> (r: Option<u64>) {
        Some(T::exec_width() as u64)
    }
}

impl<T: FixedWidthInt> ByteConstDeserialize<T> for NumberEncodingLE {
    type ParseErr = NoParseError;

    open spec fn spec_const_decode(&self, buf: Seq<u8>) -> Option<T> {
        Some(T::spec_from_unsigned(le_val_of(buf)))
    }

    fn byte_const_deserialize(&self, buf: &[u8]) -> (r: Result<T, Self::ParseErr>) {
        proof {
            T::lemma_width();
            lemma_le_val_bound(buf@);
        }
        let n = le_vec_to_u128(buf);
        let v = T::from_u128(n);
        proof {
            T::lemma_value(v);
        }
        Ok(v)
    }
}

impl<T: FixedWidthInt> ByteSerde<T> for NumberEncodingLE {
    proof fn lemma_round_trip(&self, v: T, rest: Seq<u8>) {
        T::lemma_value(v);
        T::lemma_width();
        let enc = le_bytes_of(v.spec_to_unsigned(), T::spec_width());
        lemma_le_bytes_len(v.spec_to_unsigned(), T::spec_width());
        assert((enc + rest).take(T::spec_width() as int) =~= enc);
        lemma_le_val_of_le_bytes(v.spec_to_unsigned(), T::spec_width());
    }
}

impl<T: FixedWidthInt> ByteTypeId<T> for NumberEncodingBE {
    open spec fn spec_type_id(&self) -> Seq<Seq<char>> {
        seq![T::spec_be_token()]
    }

    fn byte_type_id(&self) -> (r: Vec<String>) {
        let mut r: Vec<String> = Vec::new();
        r.push(T::be_token());
        proof {
            assert(r.deep_view() =~= seq![T::spec_be_token()]);
        }
        r
    }
}

impl<T: FixedWidthInt> ByteSerialize<T> for NumberEncodingBE {
    open spec fn spec_encode(&self, v: T) -> Seq<u8> {
        le_bytes_of(v.spec_to_unsigned(), T::spec_width()).reverse()
    }

    open spec fn spec_wf(&self, v: T) -> bool {
        true
    }

    fn byte_serialize<W: ByteWrite>(&self, item: &T, io: &mut W) -> (r: Result<(), W::Err>) {
        const_byte_serialize(self, item, io)
    }

    fn size(&self, item: &T) -> (r: u64) {
        const_byte_size(self, item)
    }
}

impl<T: FixedWidthInt> ByteConstSize<T> for NumberEncodingBE {
    open spec fn spec_byte_size(&self) -> nat {
        T::spec_width()
    }

    fn byte_size(&self) -> (r: usize) {
        T::exec_width()
    }
}

impl<T: FixedWidthInt> ByteConstSerialize<T> for NumberEncodingBE {
    open spec fn spec_const_encode(&self, v: T) -> Seq<u8> {
        le_bytes_of(v.spec_to_unsigned(), T::spec_width()).reverse()
    }

    proof fn lemma_const_encode_size(&self, v: T) {
        lemma_le_bytes_len(v.spec_to_unsigned(), T::spec_width());
    }

    fn byte_const_serialize(&self, item: &T) -> (r: Vec<u8>) {
        proof {
            T::lemma_value(*item);
        }
        let le = u128_to_le_vec(item.to_u128(), T::exec_width());
        reverse_slice(le.as_slice())
    }
}

impl<T: FixedWidthInt> ByteDeserialize<T> for NumberEncodingBE {
    type ParseErr = NoParseError;

    open spec fn spec_decode(&self, bytes: Seq<u8>) -> Option<(int, T)> {
        spec_decode_of_const::<Self, T>(*self, bytes)
    }

    fn byte_deserialize<R: ByteRead>(&self, io: &mut R) -> (r: Result<
        T,
        ParseOrIOError<Self::ParseErr, R::Err>,
    >) {
        const_byte_deserialize(self, io)
    }

    fn guess_size(&self) -> (r: Option<u64>) {
        Some(T::exec_width() as u64)
    }
}

impl<T: FixedWidthInt> ByteConstDeserialize<T> for NumberEncodingBE {
    type ParseErr = NoParseError;

    open spec fn spec_const_decode(&self, buf: Seq<u8>) -> Option<T> {
        Some(T::spec_from_unsigned(le_val_of(buf.reverse())))
    }

    fn byte_const_deserialize(&self, buf: &[u8]) -> (r: Result<T, Self::ParseErr>) {
        proof {
            T::lemma_width();
            lemma_le_val_bound(buf@.reverse());
        }
        let rev = reverse_slice(buf);
        let n = le_vec_to_u128(rev.as_slice());
        let v = T::from_u128(n);
        proof {
            T::lemma_value(v);
        }
        Ok(v)
    }
}

impl<T: FixedWidthInt> ByteSerde<T> for NumberEncodingBE {
    proof fn lemma_round_trip(&self, v: T, rest: Seq<u8>) {
        T::lemma_value(v);
        T::lemma_width();
        let le = le_bytes_of(v.spec_to_unsigned(), T::spec_width());
        let enc = le.reverse();
        lemma_le_bytes_len(v.spec_to_unsigned(), T::spec_width());
        assert((enc + rest).take(T::spec_width() as int) =~= enc);
        assert(enc.reverse() =~= le);
        lemma_le_val_of_le_bytes(v.spec_to_unsigned(), T::spec_width());
    }
}

impl<T: SingleByteInt> ByteTypeId<T> for NumberEncodingSingleByte {
    open spec fn spec_type_id(&self) -> Seq<Seq<char>> {
        seq![T::spec_le_token()]
    }

    fn byte_type_id(&self) -> (r: Vec<String>) {
        let mut r: Vec<String> = Vec::new();
        r.push(T::le_token());
        proof {
            assert(r.deep_view() =~= seq![T::spec_le_token()]);
        }
        r
    }
}

impl<T: SingleByteInt> ByteSerialize<T> for NumberEncodingSingleByte {
    open spec fn spec_encode(&self, v: T) -> Seq<u8> {
        le_bytes_of(v.spec_to_unsigned(), T::spec_width())
    }

    open spec fn spec_wf(&self, v: T) -> bool {
        true
    }

    fn byte_serialize<W: ByteWrite>(&self, item: &T, io: &mut W) -> (r: Result<(), W::Err>) {
        const_byte_serialize(self, item, io)
    }

    fn size(&self, item: &T) -> (r: u64) {
        const_byte_size(self, item)
    }
}

impl<T: SingleByteInt> ByteConstSize<T> for NumberEncodingSingleByte {
    open spec fn spec_byte_size(&self) -> nat {
        T::spec_width()
    }

    fn byte_size(&self) -> (r: usize) {
        T::exec_width()
    }
}

impl<T: SingleByteInt> ByteConstSerialize<T> for NumberEncodingSingleByte {
    open spec fn spec_const_encode(&self, v: T) -> Seq<u8> {
        le_bytes_of(v.spec_to_unsigned(), T::spec_width())
    }

    proof fn lemma_const_encode_size(&self, v: T) {
        lemma_le_bytes_len(v.spec_to_unsigned(), T::spec_width());
    }

    fn byte_const_serialize(&self, item: &T) -> (r: Vec<u8>) {
        proof {
            T::lemma_value(*item);
        }
        u128_to_le_vec(item.to_u128(), T::exec_width())
    }
}

impl<T: SingleByteInt> ByteDeserialize<T> for NumberEncodingSingleByte {
    type ParseErr = NoParseError;

    open spec fn spec_decode(&self, bytes: Seq<u8>) -> Option<(int, T)> {
        spec_decode_of_const::<Self, T>(*self, bytes)
    }

    fn byte_deserialize<R: ByteRead>(&self, io: &mut R) -> (r: Result<
        T,
        ParseOrIOError<Self::ParseErr, R::Err>,
    >) {
        const_byte_deserialize(self, io)
    }

    fn guess_size(&self) -> (r: Option<u64>) {
        Some(T::exec_width() as u64)
    }
}

impl<T: SingleByteInt> ByteConstDeserialize<T> for NumberEncodingSingleByte {
    type ParseErr = NoParseError;

    open spec fn spec_const_decode(&self, buf: Seq<u8>) -> Option<T> {
        Some(T::spec_from_unsigned(le_val_of(buf)))
    }

    fn byte_const_deserialize(&self, buf: &[u8]) -> (r: Result<T, Self::ParseErr>) {
        proof {
            T::lemma_width();
            lemma_le_val_bound(buf@);
        }
        let n = le_vec_to_u128(buf);
        let v = T::from_u128(n);
        proof {
            T::lemma_value(v);
        }
        Ok(v)
    }
}

impl<T: SingleByteInt> ByteSerde<T> for NumberEncodingSingleByte {
    proof fn lemma_round_trip(&self, v: T, rest: Seq<u8>) {
        T::lemma_value(v);
        T::lemma_width();
        let enc = le_bytes_of(v.spec_to_unsigned(), T::spec_width());
        lemma_le_bytes_len(v.spec_to_unsigned(), T::spec_width());
        assert((enc + rest).take(T::spec_width() as int) =~= enc);
        lemma_le_val_of_le_bytes(v.spec_to_unsigned(), T::spec_width());
    }
}

impl FixedWidthInt for u8 {
    open spec fn spec_width() -> nat {
        1
    }

    open spec fn spec_to_unsigned(self) -> nat {
        self as nat
    }

    open spec fn spec_from_unsigned(n: nat) -> Self {
        n as u8
    }

    open spec fn spec_le_token() -> Seq<char> {
        "twee::SingleByteUnsigned"@
    }

    open spec fn spec_be_token() -> Seq<char> {
        "twee::SingleByteUnsigned"@
    }

    proof fn lemma_width() {
    }

    proof fn lemma_value(v: Self) {
        lemma2_to64();
    }

    fn exec_width() -> (r: usize) {
        1
    }

    fn to_u128(self) -> (r: u128) {
        self as u128
    }

    fn from_u128(n: u128) -> (r: Self) {
        n as u8
    }

    fn le_token() -> (r: String) {
        "twee::SingleByteUnsigned".to_owned()
    }

    fn be_token() -> (r: String) {
        "twee::SingleByteUnsigned".to_owned()
    }
}

impl FixedWidthInt for i8 {
    open spec fn spec_width() -> nat {
        1
    }

    open spec fn spec_to_unsigned(self) -> nat {
        (self as u8) as nat
    }

    open spec fn spec_from_unsigned(n: nat) -> Self {
        (n as u8) as i8
    }

    open spec fn spec_le_token() -> Seq<char> {
        "twee::SingleByteSigned"@
    }

    open spec fn spec_be_token() -> Seq<char> {
        "twee::SingleByteSigned"@
    }

    proof fn lemma_width() {
    }

    proof fn lemma_value(v: Self) {
        lemma2_to64();
        assert(((v as u8) as i8) == v) by (bit_vector);
    }

    fn exec_width() -> (r: usize) {
        1
    }

    fn to_u128(self) -> (r: u128) {
        (self as u8) as u128
    }

    fn from_u128(n: u128) -> (r: Self) {
        (n as u8) as i8
    }

    fn le_token() -> (r: String) {
        "twee::SingleByteSigned".to_owned()
    }

    fn be_token() -> (r: String) {
        "twee::SingleByteSigned".to_owned()
    }
}

impl FixedWidthInt for u16 {
    open spec fn spec_width() -> nat {
        2
    }

    open spec fn spec_to_unsigned(self) -> nat {
        self as nat
    }

    open spec fn spec_from_unsigned(n: nat) -> Self {
        n as u16
    }

    open spec fn spec_le_token() -> Seq<char> {
        "twee::LE<u16>"@
    }

    open spec fn spec_be_token() -> Seq<char> {
        "twee::BE<u16>"@
    }

    proof fn lemma_width() {
    }

    proof fn lemma_value(v: Self) {
        lemma2_to64();
    }

    fn exec_width() -> (r: usize) {
        2
    }

    fn to_u128(self) -> (r: u128) {
        self as u128
    }

    fn from_u128(n: u128) -> (r: Self) {
        n as u16
    }

    fn le_token() -> (r: String) {
        "twee::LE<u16>".to_owned()
    }

    fn be_token() -> (r: String) {
        "twee::BE<u16>".to_owned()
    }
}

impl FixedWidthInt for u32 {
    open spec fn spec_width() -> nat {
        4
    }

    open spec fn spec_to_unsigned(self) -> nat {
        self as nat
    }

    open spec fn spec_from_unsigned(n: nat) -> Self {
        n as u32
    }

    open spec fn spec_le_token() -> Seq<char> {
        "twee::LE<u32>"@
    }

    open spec fn spec_be_token() -> Seq<char> {
        "twee::BE<u32>"@
    }

    proof fn lemma_width() {
    }

    proof fn lemma_value(v: Self) {
        lemma2_to64();
    }

    fn exec_width() -> (r: usize) {
        4
    }

    fn to_u128(self) -> (r: u128) {
        self as u128
    }

    fn from_u128(n: u128) -> (r: Self) {
        n as u32
    }

    fn le_token() -> (r: String) {
        "twee::LE<u32>".to_owned()
    }

    fn be_token() -> (r: String) {
        "twee::BE<u32>".to_owned()
    }
}

impl FixedWidthInt for u64 {
    open spec fn spec_width() -> nat {
        8
    }

    open spec fn spec_to_unsigned(self) -> nat {
        self as nat
    }

    open spec fn spec_from_unsigned(n: nat) -> Self {
        n as u64
    }

    open spec fn spec_le_token() -> Seq<char> {
        "twee::LE<u64>"@
    }

    open spec fn spec_be_token() -> Seq<char> {
        "twee::BE<u64>"@
    }

    proof fn lemma_width() {
    }

    proof fn lemma_value(v: Self) {
        lemma2_to64();
    }

    fn exec_width() -> (r: usize) {
        8
    }

    fn to_u128(self) -> (r: u128) {
        self as u128
    }

    fn from_u128(n: u128) -> (r: Self) {
        n as u64
    }

    fn le_token() -> (r: String) {
        "twee::LE<u64>".to_owned()
    }

    fn be_token() -> (r: String) {
        "twee::BE<u64>".to_owned()
    }
}

impl FixedWidthInt for u128 {
    open spec fn spec_width() -> nat {
        16
    }

    open spec fn spec_to_unsigned(self) -> nat {
        self as nat
    }

    open spec fn spec_from_unsigned(n: nat) -> Self {
        n as u128
    }

    open spec fn spec_le_token() -> Seq<char> {
        "twee::LE<u128>"@
    }

    open spec fn spec_be_token() -> Seq<char> {
        "twee::BE<u128>"@
    }

    proof fn lemma_width() {
    }

    proof fn lemma_value(v: Self) {
        lemma2_to64();
        lemma2_to64_rest();
        lemma_pow2_adds(64, 64);
    }

    fn exec_width() -> (r: usize) {
        16
    }

    fn to_u128(self) -> (r: u128) {
        self as u128
    }

    fn from_u128(n: u128) -> (r: Self) {
        n as u128
    }

    fn le_token() -> (r: String) {
        "twee::LE<u128>".to_owned()
    }

    fn be_token() -> (r: String) {
        "twee::BE<u128>".to_owned()
    }
}

impl FixedWidthInt for i16 {
    open spec fn spec_width() -> nat {
        2
    }

    open spec fn spec_to_unsigned(self) -> nat {
        (self as u16) as nat
    }

    open spec fn spec_from_unsigned(n: nat) -> Self {
        (n as u16) as i16
    }

    open spec fn spec_le_token() -> Seq<char> {
        "twee::LE<i16>"@
    }

    open spec fn spec_be_token() -> Seq<char> {
        "twee::BE<i16>"@
    }

    proof fn lemma_width() {
    }

    proof fn lemma_value(v: Self) {
        lemma2_to64();
        assert(((v as u16) as i16) == v) by (bit_vector);
    }

    fn exec_width() -> (r: usize) {
        2
    }

    fn to_u128(self) -> (r: u128) {
        (self as u16) as u128
    }

    fn from_u128(n: u128) -> (r: Self) {
        (n as u16) as i16
    }

    fn le_token() -> (r: String) {
        "twee::LE<i16>".to_owned()
    }

    fn be_token() -> (r: String) {
        "twee::BE<i16>".to_owned()
    }
}

impl FixedWidthInt for i32 {
    open spec fn spec_width() -> nat {
        4
    }

    open spec fn spec_to_unsigned(self) -> nat {
        (self as u32) as nat
    }

    open spec fn spec_from_unsigned(n: nat) -> Self {
        (n as u32) as i32
    }

    open spec fn spec_le_token() -> Seq<char> {
        "twee::LE<i32>"@
    }

    open spec fn spec_be_token() -> Seq<char> {
        "twee::BE<i32>"@
    }

    proof fn lemma_width() {
    }

    proof fn lemma_value(v: Self) {
        lemma2_to64();
        assert(((v as u32) as i32) == v) by (bit_vector);
    }

    fn exec_width() -> (r: usize) {
        4
    }

    fn to_u128(self) -> (r: u128) {
        (self as u32) as u128
    }

    fn from_u128(n: u128) -> (r: Self) {
        (n as u32) as i32
    }

    fn le_token() -> (r: String) {
        "twee::LE<i32>".to_owned()
    }

    fn be_token() -> (r: String) {
        "twee::BE<i32>".to_owned()
    }
}

impl FixedWidthInt for i64 {
    open spec fn spec_width() -> nat {
        8
    }

    open spec fn spec_to_unsigned(self) -> nat {
        (self as u64) as nat
    }

    open spec fn spec_from_unsigned(n: nat) -> Self {
        (n as u64) as i64
    }

    open spec fn spec_le_token() -> Seq<char> {
        "twee::LE<i64>"@
    }

    open spec fn spec_be_token() -> Seq<char> {
        "twee::BE<i64>"@
    }

    proof fn lemma_width() {
    }

    proof fn lemma_value(v: Self) {
        lemma2_to64();
        assert(((v as u64) as i64) == v) by (bit_vector);
    }

    fn exec_width() -> (r: usize) {
        8
    }

    fn to_u128(self) -> (r: u128) {
        (self as u64) as u128
    }

    fn from_u128(n: u128) -> (r: Self) {
        (n as u64) as i64
    }

    fn le_token() -> (r: String) {
        "twee::LE<i64>".to_owned()
    }

    fn be_token() -> (r: String) {
        "twee::BE<i64>".to_owned()
    }
}

impl FixedWidthInt for i128 {
    open spec fn spec_width() -> nat {
        16
    }

    open spec fn spec_to_unsigned(self) -> nat {
        (self as u128) as nat
    }

    open spec fn spec_from_unsigned(n: nat) -> Self {
        (n as u128) as i128
    }

    open spec fn spec_le_token() -> Seq<char> {
        "twee::LE<i128>"@
    }

    open spec fn spec_be_token() -> Seq<char> {
        "twee::BE<i128>"@
    }

    proof fn lemma_width() {
    }

    proof fn lemma_value(v: Self) {
        lemma2_to64();
        lemma2_to64_rest();
        lemma_pow2_adds(64, 64);
        assert(((v as u128) as i128) == v) by (bit_vector);
    }

    fn exec_width() -> (r: usize) {
        16
    }

    fn to_u128(self) -> (r: u128) {
        (self as u128) as u128
    }

    fn from_u128(n: u128) -> (r: Self) {
        (n as u128) as i128
    }

    fn le_token() -> (r: String) {
        "twee::LE<i128>".to_owned()
    }

    fn be_token() -> (r: String) {
        "twee::BE<i128>".to_owned()
    }
}

impl SingleByteInt for u8 {
    proof fn lemma_single_byte() {
    }
}

impl SingleByteInt for i8 {
    proof fn lemma_single_byte() {
    }
}

/// Deliberately mismatched fixed-width codecs are never structurally
/// interchangeable: the two endiannesses of one width claim distinct type
/// identities, and so do two widths under one endianness, so the
/// cross-codec compatibility check refuses such pairings.
pub proof fn lemma_mismatched_type_ids()
    ensures
        <NumberEncodingLE as ByteTypeId<u32>>::spec_type_id(&NumberEncodingLE)
            != <NumberEncodingBE as ByteTypeId<u32>>::spec_type_id(&NumberEncodingBE),
        <NumberEncodingLE as ByteTypeId<u16>>::spec_type_id(&NumberEncodingLE)
            != <NumberEncodingLE as ByteTypeId<u32>>::spec_type_id(&NumberEncodingLE),
{
    reveal_strlit("twee::LE<u32>");
    reveal_strlit("twee::BE<u32>");
    reveal_strlit("twee::LE<u16>");
    let le32 = <NumberEncodingLE as ByteTypeId<u32>>::spec_type_id(&NumberEncodingLE);
    let be32 = <NumberEncodingBE as ByteTypeId<u32>>::spec_type_id(&NumberEncodingBE);
    let le16 = <NumberEncodingLE as ByteTypeId<u16>>::spec_type_id(&NumberEncodingLE);
    assert(le32[0] == "twee::LE<u32>"@);
    assert(be32[0] == "twee::BE<u32>"@);
    assert(le16[0] == "twee::LE<u16>"@);
    assert("twee::LE<u32>"@[6] == 'L');
    assert("twee::BE<u32>"@[6] == 'B');
    assert("twee::LE<u16>"@[10] == '1');
    assert("twee::LE<u32>"@[10] == '3');
}

} // verus!
