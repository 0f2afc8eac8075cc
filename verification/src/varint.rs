//! Variable-length integer codecs: the base-128 unsigned varint, whose
//! encoded length is a step function of the value's magnitude, and the
//! zig-zag signed variant built on top of it.
//!
//! Each encoded byte carries seven value bits; its top bit says whether more
//! bytes follow. Sixty-four bits need at most ten bytes, and the tenth byte
//! may carry only the single residual bit: a tenth byte above `1` means the
//! value would not fit in sixty-four bits and is rejected as [`VarIntTooBig`].

use vstd::prelude::*;
use vstd::arithmetic::div_mod::{lemma_fundamental_div_mod, lemma_multiply_divide_lt};
use vstd::arithmetic::mul::lemma_mul_inequality;
use vstd::arithmetic::power2::{
    lemma2_to64, lemma2_to64_rest, lemma_pow2_adds, lemma_pow2_strictly_increases, pow2,
};

use crate::io::{ByteRead, ByteWrite};
use crate::serde::{
    ByteDeserialize, ByteSerde, ByteSerialize, ByteTypeId, ParseOrIOError,
};

verus! {

/// Structural parse failure of the varint codecs: the encoding continued
/// past what sixty-four bits can hold.
#[derive(Debug, PartialEq, Eq, Clone, Copy, Hash, Structural)]
pub struct VarIntTooBig;

/// The base-128 encoding of `v`: seven bits per byte, least significant
/// group first, top bit set on every byte but the last.
pub open spec fn uvarint_bytes_of(v: nat) -> Seq<u8>
    decreases v,
{
    if v < 128 {
        seq![v as u8]
    } else {
        seq![((v % 128) + 128) as u8] + uvarint_bytes_of(v / 128)
    }
}

/// Parse a base-128 encoding from the front of `bytes`, with `cnt` the
/// one-based index of the byte about to be read. Returns the consumed byte
/// count and the value, or `None` when the bytes run out or the tenth byte
/// carries more than the residual bit.
pub open spec fn uvarint_decode_rec(bytes: Seq<u8>, cnt: nat) -> Option<(int, nat)>
    recommends
        1 <= cnt <= 10,
    decreases 10 - cnt,
{
    if bytes.len() == 0 || cnt > 10 {
        None
    } else {
        let b = bytes[0];
        if cnt == 10 && b > 1 {
            None
        } else {
            let c = ((b as nat) % 128) * pow2(7 * ((cnt - 1) as nat));
            if b < 128 {
                Some((1, c))
            } else {
                match uvarint_decode_rec(bytes.drop_first(), (cnt + 1) as nat) {
                    None => None,
                    Some((n, rest)) => Some((n + 1, c + rest)),
                }
            }
        }
    }
}

/// Every parsed varint value fits in sixty-four bits: from byte position
/// `cnt` on, the value contributed is at most `2^64 - 2^(7 (cnt - 1))`.
pub proof fn lemma_uvarint_decode_bound(bytes: Seq<u8>, cnt: nat)
    requires
        1 <= cnt <= 10,
    ensures
        uvarint_decode_rec(bytes, cnt) matches Some((n, v)) ==> v + pow2(7 * ((cnt - 1) as nat))
            <= pow2(64),
    decreases 10 - cnt,
{
    lemma2_to64();
    lemma2_to64_rest();
    if bytes.len() > 0 && cnt <= 10 {
        let b = bytes[0];
        let w = pow2(7 * ((cnt - 1) as nat));
        if cnt == 10 {
            if b <= 1 {
                lemma_mul_inequality(((b as nat) % 128) as int, 1, w as int);
            }
        } else {
            lemma_pow2_adds(7, 7 * ((cnt - 1) as nat));
            if b >= 128 {
                lemma_uvarint_decode_bound(bytes.drop_first(), (cnt + 1) as nat);
                lemma_mul_inequality(((b as nat) % 128) as int, 127, w as int);
            } else {
                lemma_mul_inequality(((b as nat) % 128) as int, 127, w as int);
                lemma_pow2_strictly_increases(7 * (cnt as nat), 64);
            }
        }
    }
}

/// A ten-byte encoding whose tenth byte carries more than the residual bit
/// is structurally rejected: no value at or above `2^64` parses.
pub proof fn lemma_uvarint_tenth_byte_rejected(bytes: Seq<u8>)
    requires
        bytes.len() >= 10,
        forall|i: int| 0 <= i < 9 ==> bytes[i] >= 128,
        bytes[9] > 1,
    ensures
        spec_uvarint_decode(bytes) is None,
{
    lemma_uvarint_reject_rec(bytes, 1);
}

proof fn lemma_uvarint_reject_rec(bytes: Seq<u8>, cnt: nat)
    requires
        1 <= cnt <= 10,
        bytes.len() >= 11 - cnt,
        forall|i: int| 0 <= i < 10 - cnt ==> bytes[i] >= 128,
        bytes[10 - cnt] > 1,
    ensures
        uvarint_decode_rec(bytes, cnt) is None,
    decreases 10 - cnt,
{
    if cnt == 10 {
    } else {
        let rest = bytes.drop_first();
        assert(forall|i: int| 0 <= i < 10 - (cnt + 1) ==> rest[i] >= 128);
        assert(rest[10 - (cnt + 1)] == bytes[10 - cnt]);
        lemma_uvarint_reject_rec(rest, (cnt + 1) as nat);
    }
}

/// The value parsed from the front of `bytes` by the unsigned varint codec.
pub open spec fn spec_uvarint_decode(bytes: Seq<u8>) -> Option<(int, u64)> {
    match uvarint_decode_rec(bytes, 1) {
        None => None,
        Some((n, v)) => Some((n, v as u64)),
    }
}

/// The unsigned base-128 varint codec for 64-bit values.
#[derive(Debug, Default, Copy, Clone)]
pub struct UVarInt;

/// The zig-zag signed varint codec for 64-bit values.
#[derive(Debug, Default, Copy, Clone)]
pub struct SVarInt;

impl ByteTypeId<u64> for UVarInt {
    open spec fn spec_type_id(&self) -> Seq<Seq<char>> {
        seq!["twee::UVarInt"@]
    }

    fn byte_type_id(&self) -> (r: Vec<String>) {
        let mut r: Vec<String> = Vec::new();
        r.push("twee::UVarInt".to_owned());
        proof {
            assert(r.deep_view() =~= seq!["twee::UVarInt"@]);
        }
        r
    }
}

impl ByteSerialize<u64> for UVarInt {
    open spec fn spec_encode(&self, v: u64) -> Seq<u8> {
        uvarint_bytes_of(v as nat)
    }

    open spec fn spec_wf(&self, v: u64) -> bool {
        true
    }

    fn byte_serialize<W: ByteWrite>(&self, item: &u64, io: &mut W) -> (r: Result<(), W::Err>) {
        let mut val: u64 = *item;
        let ghost mut prefix: Seq<u8> = Seq::empty();
        loop
            invariant
                io.spec_written() == old(io).spec_written() + prefix,
                prefix + uvarint_bytes_of(val as nat) == uvarint_bytes_of(*item as nat),
                old(io).spec_written().is_prefix_of(io.spec_written()),
            decreases val,
        {
            if val < 128 {
                let res = io.write_byte(val as u8);
                proof {
                    if res is Ok {
                        assert(io.spec_written() =~= old(io).spec_written() + uvarint_bytes_of(
                            *item as nat,
                        ));
                    }
                }
                return res;
            }
            let b: u8 = ((val % 128) + 128) as u8;
            match io.write_byte(b) {
                Ok(()) => {},
                Err(e) => {
                    return Err(e);
                },
            }
            proof {
                prefix = prefix.push(b);
                assert(prefix + uvarint_bytes_of((val / 128) as nat) =~= uvarint_bytes_of(
                    *item as nat,
                ));
                assert(io.spec_written() =~= old(io).spec_written() + prefix);
            }
            val = val / 128;
        }
    }

    fn size(&self, item: &u64) -> (r: u64) {
        proof {
            lemma_uvarint_size_breakpoints(*item);
            lemma2_to64();
        }
        let v: u64 = *item;
        if v < 128 {
            1
        } else if v < 16384 {
            2
        } else if v < 2097152 {
            3
        } else if v < 268435456 {
            4
        } else if v < 34359738368 {
            5
        } else if v < 4398046511104 {
            6
        } else if v < 562949953421312 {
            7
        } else if v < 72057594037927936 {
            8
        } else if v < 9223372036854775808 {
            9
        } else {
            10
        }
    }
}

/// The encoded length of an unsigned varint follows exact breakpoints: one
/// byte through `2^7 - 1`, two through `2^14 - 1`, and so on, with ten bytes
/// from `2^63` up.
pub proof fn lemma_uvarint_size_breakpoints(v: u64)
    ensures
        v < pow2(7) ==> uvarint_bytes_of(v as nat).len() == 1,
        pow2(7) <= v < pow2(14) ==> uvarint_bytes_of(v as nat).len() == 2,
        pow2(14) <= v < pow2(21) ==> uvarint_bytes_of(v as nat).len() == 3,
        pow2(21) <= v < pow2(28) ==> uvarint_bytes_of(v as nat).len() == 4,
        pow2(28) <= v < pow2(35) ==> uvarint_bytes_of(v as nat).len() == 5,
        pow2(35) <= v < pow2(42) ==> uvarint_bytes_of(v as nat).len() == 6,
        pow2(42) <= v < pow2(49) ==> uvarint_bytes_of(v as nat).len() == 7,
        pow2(49) <= v < pow2(56) ==> uvarint_bytes_of(v as nat).len() == 8,
        pow2(56) <= v < pow2(63) ==> uvarint_bytes_of(v as nat).len() == 9,
        pow2(63) <= v ==> uvarint_bytes_of(v as nat).len() == 10,
        pow2(7) == 128 && pow2(14) == 16384 && pow2(21) == 2097152 && pow2(28) == 268435456,
        pow2(35) == 34359738368 && pow2(42) == 4398046511104 && pow2(49) == 562949953421312,
        pow2(56) == 72057594037927936 && pow2(63) == 9223372036854775808,
{
    lemma2_to64();
    lemma2_to64_rest();
    let n = v as nat;
    lemma_uvarint_len_rec(n, 0);
    lemma_uvarint_len_rec(n, 1);
    lemma_uvarint_len_rec(n, 2);
    lemma_uvarint_len_rec(n, 3);
    lemma_uvarint_len_rec(n, 4);
    lemma_uvarint_len_rec(n, 5);
    lemma_uvarint_len_rec(n, 6);
    lemma_uvarint_len_rec(n, 7);
    lemma_uvarint_len_rec(n, 8);
    lemma_uvarint_len_rec(n, 9);
    lemma_pow2_strictly_increases(64, 70);
}

/// Helper induction for the breakpoint table: a value below `2^(7 (k + 1))`
/// encodes in at most `k + 1` bytes, and one at or above `2^(7 k)` in at
/// least `k + 1`.
proof fn lemma_uvarint_len_rec(v: nat, k: nat)
    requires
        k <= 9,
    ensures
        v < pow2(7 * (k + 1)) ==> uvarint_bytes_of(v).len() <= k + 1,
        v >= pow2(7 * k) ==> uvarint_bytes_of(v).len() >= k + 1,
    decreases v,
{
    lemma2_to64();
    lemma2_to64_rest();
    if v < 128 {
        if k >= 2 {
            lemma_pow2_strictly_increases(7, 7 * k);
        }
    } else {
        if k >= 1 {
            lemma_fundamental_div_mod(v as int, 128);
            lemma_pow2_adds(7, 7 * k);
            lemma_pow2_adds(7, 7 * ((k - 1) as nat));
            lemma_uvarint_len_rec(v / 128, (k - 1) as nat);
            if v < pow2(7 * (k + 1)) {
                lemma_multiply_divide_lt(v as int, 128, pow2(7 * k) as int);
            }
            if v >= pow2(7 * k) {
                assert(v / 128 >= pow2(7 * ((k - 1) as nat))) by (nonlinear_arith)
                    requires
                        v >= 128 * pow2(7 * ((k - 1) as nat)),
                        v == 128 * (v / 128) + v % 128,
                        v % 128 < 128,
                ;
            }
        }
    }
}

impl ByteDeserialize<u64> for UVarInt {
    type ParseErr = VarIntTooBig;

    open spec fn spec_decode(&self, bytes: Seq<u8>) -> Option<(int, u64)> {
        spec_uvarint_decode(bytes)
    }

    /// A structural failure comes exactly from a tenth byte that carries
    /// more than the residual bit after nine continuation bytes; a
    /// transport failure comes exactly from the source running out while
    /// every byte it delivered was a continuation byte.
    fn byte_deserialize<R: ByteRead>(&self, io: &mut R) -> (r: Result<
        u64,
        ParseOrIOError<Self::ParseErr, R::Err>,
    >)
        ensures
            r matches Err(ParseOrIOError::Parse(e)) ==> {
                &&& e == VarIntTooBig
                &&& old(io).spec_remaining().len() >= 10
                &&& forall|j: int| 0 <= j < 9 ==> old(io).spec_remaining()[j] >= 128
                &&& old(io).spec_remaining()[9] > 1
            },
            r matches Err(ParseOrIOError::IO(_)) ==> {
                &&& old(io).spec_remaining().len() <= 9
                &&& forall|j: int| 0 <= j < old(io).spec_remaining().len() ==> old(
                    io,
                ).spec_remaining()[j] >= 128
            },
    {
        let mut val: u64 = 0;
        let mut cnt: u64 = 1;
        let mut mul: u64 = 1;
        proof {
            lemma2_to64();
            lemma2_to64_rest();
            assert(old(io).spec_remaining().skip(0) =~= old(io).spec_remaining());
        }
        loop
            invariant
                1 <= cnt <= 10,
                mul as nat == pow2(7 * ((cnt - 1) as nat)),
                (val as nat) < pow2(7 * ((cnt - 1) as nat)),
                old(io).spec_remaining().len() >= cnt - 1,
                io.spec_remaining() == old(io).spec_remaining().skip((cnt - 1) as int),
                forall|j: int| 0 <= j < cnt - 1 ==> old(io).spec_remaining()[j] >= 128,
                uvarint_decode_rec(old(io).spec_remaining(), 1) == (match uvarint_decode_rec(
                    io.spec_remaining(),
                    cnt as nat,
                ) {
                    None => None::<(int, nat)>,
                    Some((n, v)) => Some((n + cnt - 1, (val as nat) + v)),
                }),
            decreases 10 - cnt,
        {
            proof {
                lemma2_to64();
                lemma2_to64_rest();
            }
            let byte = match io.read_byte() {
                Ok(b) => b,
                Err(e) => {
                    return Err(ParseOrIOError::IO(e));
                },
            };
            if cnt == 10 && byte > 1 {
                proof {
                    assert(old(io).spec_remaining().skip((cnt - 1) as int).skip(1)
                        =~= old(io).spec_remaining().skip(cnt as int));
                }
                return Err(ParseOrIOError::Parse(VarIntTooBig));
            }
            proof {
                lemma_mul_inequality((byte % 128) as int, 127, mul as int);
                lemma_pow2_adds(7, 7 * ((cnt - 1) as nat));
                if cnt < 9 {
                    lemma_pow2_strictly_increases(7 * (cnt as nat), 63);
                }
                if cnt == 10 {
                    assert(byte % 128 <= 1);
                    lemma_mul_inequality((byte % 128) as int, 1, mul as int);
                }
            }
            let contribution: u64 = ((byte % 128) as u64) * mul;
            let new_val: u64 = val + contribution;
            if byte < 128 {
                proof {
                    assert(old(io).spec_remaining().skip((cnt - 1) as int).skip(1)
                        =~= old(io).spec_remaining().skip(cnt as int));
                    lemma_uvarint_decode_bound(old(io).spec_remaining(), 1);
                }
                return Ok(new_val);
            }
            proof {
                assert(old(io).spec_remaining().skip((cnt - 1) as int).skip(1)
                    =~= old(io).spec_remaining().skip(cnt as int));
            }
            val = new_val;
            cnt = cnt + 1;
            mul = mul * 128;
        }
    }

    fn guess_size(&self) -> (r: Option<u64>) {
        None
    }
}

impl ByteSerde<u64> for UVarInt {
    proof fn lemma_round_trip(&self, v: u64, rest: Seq<u8>) {
        lemma2_to64();
        lemma2_to64_rest();
        assert((v as nat) * pow2(7 * ((1 - 1) as nat)) == (v as nat) * 1);
        lemma_uvarint_round_trip_rec(v as nat, rest, 1);
    }
}

/// Round trip of the base-128 groups: parsing the encoding of `v` from byte
/// position `cnt` consumes exactly the encoding and yields `v` scaled into
/// position.
proof fn lemma_uvarint_round_trip_rec(v: nat, rest: Seq<u8>, cnt: nat)
    requires
        1 <= cnt <= 10,
        v * pow2(7 * ((cnt - 1) as nat)) < pow2(64),
    ensures
        uvarint_decode_rec(uvarint_bytes_of(v) + rest, cnt) == Some(
            (uvarint_bytes_of(v).len() as int, v * pow2(7 * ((cnt - 1) as nat))),
        ),
    decreases v,
{
    lemma2_to64();
    lemma2_to64_rest();
    let w = pow2(7 * ((cnt - 1) as nat));
    let bytes = uvarint_bytes_of(v) + rest;
    if v < 128 {
        assert(bytes[0] == v as u8);
        if cnt == 10 && v > 1 {
            assert(v * w >= 2 * w) by (nonlinear_arith)
                requires
                    v >= 2,
                    w > 0,
            ;
        }
        assert((v as u8) as nat % 128 == v);
    } else {
        let b = ((v % 128) + 128) as u8;
        assert(bytes[0] == b);
        assert(b as nat % 128 == v % 128);
        lemma_fundamental_div_mod(v as int, 128);
        assert(cnt < 10) by {
            if cnt == 10 {
                assert(v * w >= 128 * w) by (nonlinear_arith)
                    requires
                        v >= 128,
                        w > 0,
                ;
            }
        };
        assert(bytes.drop_first() =~= uvarint_bytes_of(v / 128) + rest);
        lemma_pow2_adds(7, 7 * ((cnt - 1) as nat));
        assert((v / 128) * (128 * w) <= v * w) by (nonlinear_arith)
            requires
                w > 0,
                v == 128 * (v / 128) + v % 128,
                v % 128 >= 0,
        ;
        lemma_uvarint_round_trip_rec(v / 128, rest, (cnt + 1) as nat);
        assert((v % 128) * w + (v / 128) * (128 * w) == v * w) by (nonlinear_arith)
            requires
                v == 128 * (v / 128) + v % 128,
        ;
    }
}

/// The zig-zag transform: small-magnitude values of either sign map to
/// small unsigned codes, with `0, -1, 1, -2, ...` mapping to `0, 1, 2, 3,
/// ...`.
pub open spec fn spec_zigzag(n: i64) -> u64 {
    if n >= 0 {
        (2 * n) as u64
    } else {
        (-2 * (n as int) - 1) as u64
    }
}

/// The inverse zig-zag transform.
pub open spec fn spec_unzigzag(z: u64) -> i64 {
    if z % 2 == 0 {
        (z / 2) as i64
    } else {
        (-((z / 2) as int) - 1) as i64
    }
}

/// The zig-zag transform loses nothing: decoding an encoded signed value
/// yields the value back, for every 64-bit signed `n`.
pub proof fn lemma_zigzag_round_trip(n: i64)
    ensures
        spec_unzigzag(spec_zigzag(n)) == n,
{
}

/// Map a signed value to its unsigned zig-zag code.
pub fn encode_svarint(n: i64) -> (r: u64)
    ensures
        r == spec_zigzag(n),
{
    if n >= 0 {
        (n as u64) * 2
    } else {
        ((-(n + 1)) as u64) * 2 + 1
    }
}

/// Map an unsigned zig-zag code back to its signed value.
pub fn decode_svarint(z: u64) -> (r: i64)
    ensures
        r == spec_unzigzag(z),
{
    let half = z / 2;
    if z % 2 == 0 {
        half as i64
    } else {
        -(half as i64) - 1
    }
}

impl ByteTypeId<i64> for SVarInt {
    open spec fn spec_type_id(&self) -> Seq<Seq<char>> {
        seq!["twee::SVarInt"@]
    }

    fn byte_type_id(&self) -> (r: Vec<String>) {
        let mut r: Vec<String> = Vec::new();
        r.push("twee::SVarInt".to_owned());
        proof {
            assert(r.deep_view() =~= seq!["twee::SVarInt"@]);
        }
        r
    }
}

impl ByteSerialize<i64> for SVarInt {
    open spec fn spec_encode(&self, v: i64) -> Seq<u8> {
        uvarint_bytes_of(spec_zigzag(v) as nat)
    }

    open spec fn spec_wf(&self, v: i64) -> bool {
        true
    }

    fn byte_serialize<W: ByteWrite>(&self, item: &i64, io: &mut W) -> (r: Result<(), W::Err>) {
        let z = encode_svarint(*item);
        UVarInt.byte_serialize(&z, io)
    }

    fn size(&self, item: &i64) -> (r: u64) {
        let z = encode_svarint(*item);
        UVarInt.size(&z)
    }
}

impl ByteDeserialize<i64> for SVarInt {
    type ParseErr = VarIntTooBig;

    open spec fn spec_decode(&self, bytes: Seq<u8>) -> Option<(int, i64)> {
        match spec_uvarint_decode(bytes) {
            None => None,
            Some((n, z)) => Some((n, spec_unzigzag(z))),
        }
    }

    fn byte_deserialize<R: ByteRead>(&self, io: &mut R) -> (r: Result<
        i64,
        ParseOrIOError<Self::ParseErr, R::Err>,
    >) {
        match UVarInt.byte_deserialize(io) {
            Ok(z) => Ok(decode_svarint(z)),
            Err(e) => Err(e),
        }
    }

    fn guess_size(&self) -> (r: Option<u64>) {
        None
    }
}

impl ByteSerde<i64> for SVarInt {
    proof fn lemma_round_trip(&self, v: i64, rest: Seq<u8>) {
        UVarInt.lemma_round_trip(spec_zigzag(v), rest);
        lemma_zigzag_round_trip(v);
    }
}

} // verus!
