//! The length-prefixed string codec: a pluggable length codec writes the
//! byte length of the string's UTF-8 encoding, then the raw UTF-8 bytes
//! follow. Decoding validates the bytes and surfaces invalid UTF-8 as a
//! structural failure distinct from a length or transport failure.

use vstd::prelude::*;
use vstd::string::{StrSliceExecFns, StringSliceAdditionalSpecFns};
use vstd::utf8::{decode_utf8, encode_utf8, encode_utf8_decode_utf8, encode_utf8_valid_utf8,
    valid_utf8};

use crate::io::{ByteRead, ByteWrite};
use crate::serde::{
    append_tokens, lemma_skip_skip, ByteDeserialize, ByteSerde, ByteSerialize, ByteTypeId,
    ParseOrIOError,
};

verus! {

/// Structural parse failure of the string codec: either the length prefix
/// failed to parse, or the counted bytes are not valid UTF-8.
#[derive(Debug, Clone, Copy, PartialEq, Eq)]
pub enum StringParseError<L> {
    LengthParseError(L),
    InvalidUtf8Error,
}

/// The length-prefixed string codec: `LE` encodes the UTF-8 byte length as
/// a 64-bit value, and the UTF-8 bytes follow unframed.
#[derive(Default, Copy, Clone)]
pub struct LengthPrefixString<LE> {
    pub length_encoder: LE,
}

impl<LE> LengthPrefixString<LE> {
    /// The string codec built from the given length codec.
    pub fn new(length_encoder: LE) -> (r: Self)
        ensures
            r == (LengthPrefixString { length_encoder }),
    {
        LengthPrefixString { length_encoder }
    }
}

/// Relies on `String::from_utf8`: it returns the string whose UTF-8
/// encoding is exactly the input when the input is valid UTF-8, and fails
/// exactly on invalid UTF-8.
#[verifier::external_body]
fn string_from_utf8(bytes: Vec<u8>) -> (r: Option<String>)
    ensures
        match r {
            Some(s) => valid_utf8(bytes@) && encode_utf8(s@) == bytes@,
            None => !valid_utf8(bytes@),
        },
{
    match String::from_utf8(bytes) {
        Ok(s) => Some(s),
        Err(_) => None,
    }
}

impl<LE> ByteTypeId<String> for LengthPrefixString<LE>
    where LE: ByteTypeId<u64>,
{
    open spec fn spec_type_id(&self) -> Seq<Seq<char>> {
        seq!["twee::LengthPrefixedString<"@] + self.length_encoder.spec_type_id() + seq![">"@]
    }

    fn byte_type_id(&self) -> (r: Vec<String>) {
        let mut r: Vec<String> = Vec::new();
        r.push("twee::LengthPrefixedString<".to_owned());
        proof {
            assert(r.deep_view() =~~= seq!["twee::LengthPrefixedString<"@]);
        }
        let le_id = self.length_encoder.byte_type_id();
        append_tokens(&mut r, &le_id);
        let ghost mid = r.deep_view();
        r.push(">".to_owned());
        proof {
            assert(r.deep_view() =~~= mid + seq![">"@]);
            assert(r.deep_view() =~~= self.spec_type_id());
        }
        r
    }
}

impl<LE> ByteSerialize<String> for LengthPrefixString<LE>
    where LE: ByteSerialize<u64>,
{
    open spec fn spec_encode(&self, s: Seq<char>) -> Seq<u8> {
        self.length_encoder.spec_encode(encode_utf8(s).len() as u64) + encode_utf8(s)
    }

    open spec fn spec_wf(&self, s: Seq<char>) -> bool {
        &&& encode_utf8(s).len() <= u64::MAX
        &&& self.length_encoder.spec_wf(encode_utf8(s).len() as u64)
    }

    fn byte_serialize<W: ByteWrite>(&self, item: &String, io: &mut W) -> (r: Result<(), W::Err>) {
        let bytes = item.as_str().as_bytes_vec();
        let length: u64 = bytes.len() as u64;
        match self.length_encoder.byte_serialize(&length, io) {
            Ok(()) => {},
            Err(e) => {
                return Err(e);
            },
        }
        let res = io.write_buf(bytes.as_slice());
        proof {
            if res is Ok {
                assert(io.spec_written() =~= old(io).spec_written() + self.spec_encode(
                    item.deep_view(),
                ));
            }
        }
        res
    }

    fn size(&self, item: &String) -> (r: u64) {
        let length: u64 = item.as_str().as_bytes().len() as u64;
        self.length_encoder.size(&length) + length
    }
}

impl<LE> ByteDeserialize<String> for LengthPrefixString<LE>
    where LE: ByteDeserialize<u64>,
{
    type ParseErr = StringParseError<LE::ParseErr>;

    open spec fn spec_decode(&self, bytes: Seq<u8>) -> Option<(int, Seq<char>)> {
        match self.length_encoder.spec_decode(bytes) {
            None => None,
            Some((n, len)) => {
                let rest = bytes.skip(n);
                if rest.len() >= len {
                    let chunk = rest.take(len as int);
                    if valid_utf8(chunk) {
                        Some((n + len, decode_utf8(chunk)))
                    } else {
                        None
                    }
                } else {
                    None
                }
            },
        }
    }

    /// A length-stage structural failure, an invalid-encoding failure and a
    /// transport failure are told apart exactly: the first comes when no
    /// length parses, the second when the counted bytes arrived but are not
    /// valid UTF-8, and the third only when a length could not parse or the
    /// counted bytes are not all present.
    fn byte_deserialize<R: ByteRead>(&self, io: &mut R) -> (r: Result<
        String,
        ParseOrIOError<Self::ParseErr, R::Err>,
    >)
        ensures
            r matches Err(ParseOrIOError::Parse(StringParseError::LengthParseError(p)))
                ==> self.length_encoder.spec_decode(old(io).spec_remaining()) is None,
            r matches Err(ParseOrIOError::Parse(StringParseError::InvalidUtf8Error)) ==> {
                let rem = old(io).spec_remaining();
                &&& self.length_encoder.spec_decode(rem) matches Some((n, len))
                    && rem.skip(n).len() >= len && !vstd::utf8::valid_utf8(
                    rem.skip(n).take(len as int),
                )
            },
            r matches Err(ParseOrIOError::IO(_)) ==> (self.length_encoder.spec_decode(
                old(io).spec_remaining(),
            ) matches Some((n, len)) ==> old(io).spec_remaining().skip(n).len() < len),
    {
        let ghost bytes0 = io.spec_remaining();
        let length: u64 = match self.length_encoder.byte_deserialize(io) {
            Ok(l) => l,
            Err(e) => {
                return Err(match e {
                    ParseOrIOError::Parse(p) => ParseOrIOError::Parse(
                        StringParseError::LengthParseError(p),
                    ),
                    ParseOrIOError::IO(i) => ParseOrIOError::IO(i),
                });
            },
        };
        let ghost n0 = bytes0.len() - io.spec_remaining().len();
        let ghost rem0 = io.spec_remaining();
        let buf = match io.read_buf(length) {
            Ok(b) => b,
            Err(e) => {
                return Err(ParseOrIOError::IO(e));
            },
        };
        proof {
            lemma_skip_skip(bytes0, n0, length as int);
        }
        match string_from_utf8(buf) {
            Some(s) => {
                proof {
                    encode_utf8_decode_utf8(s@);
                }
                Ok(s)
            },
            None => Err(ParseOrIOError::Parse(StringParseError::InvalidUtf8Error)),
        }
    }

    fn guess_size(&self) -> (r: Option<u64>) {
        None
    }
}

impl<LE> ByteSerde<String> for LengthPrefixString<LE>
    where LE: ByteSerde<u64>,
{
    proof fn lemma_round_trip(&self, s: Seq<char>, rest: Seq<u8>) {
        let utf8 = encode_utf8(s);
        let length: u64 = utf8.len() as u64;
        let len_enc = self.length_encoder.spec_encode(length);
        assert((len_enc + utf8) + rest =~= len_enc + (utf8 + rest));
        self.length_encoder.lemma_round_trip(length, utf8 + rest);
        assert((len_enc + (utf8 + rest)).skip(len_enc.len() as int) =~= utf8 + rest);
        assert((utf8 + rest).take(utf8.len() as int) =~= utf8);
        encode_utf8_valid_utf8(s);
        encode_utf8_decode_utf8(s);
    }
}

} // verus!
