//! The magic-byte codec: a fixed byte sequence used as a format tag. It
//! serializes by writing the constant sequence unconditionally and
//! deserializes by comparing the input against it; a mismatch reports both
//! the expected and the found bytes, not merely that they differ.

use vstd::prelude::*;
use vstd::slice::slice_to_vec;

use crate::io::{ByteRead, ByteWrite};
use crate::serde::{
    const_byte_serialize, const_byte_size, spec_decimal_digits, spec_decode_of_const,
    u64_to_decimal, ByteConstDeserialize, ByteConstSerialize, ByteConstSize, ByteDeserialize,
    ByteSerde, ByteSerialize, ByteTypeId, ParseOrIOError,
};

verus! {

/// Structural parse failure of the magic-byte codec: the input bytes did
/// not match the expected tag. Carries both sequences for diagnostics.
#[derive(Debug, Clone, PartialEq, Eq, Hash)]
pub struct MagicMismatch {
    pub expected: Vec<u8>,
    pub found: Vec<u8>,
}

/// The magic-byte codec: a byte sequence fixed when the codec is built,
/// with a zero-sized payload type.
#[derive(Debug, Clone, Default)]
pub struct MagicBytes {
    expected: Vec<u8>,
}

/// Decide whether two byte slices hold the same bytes.
fn bytes_equal(a: &[u8], b: &[u8]) -> (r: bool)
    ensures
        r <==> a@ == b@,
{
    if a.len() != b.len() {
        return false;
    }
    let n = a.len();
    let mut i: usize = 0;
    while i < n
        invariant
            i <= n,
            n == a@.len(),
            n == b@.len(),
            forall|j: int| 0 <= j < i ==> a@[j] == b@[j],
        decreases n - i,
    {
        if a[i] != b[i] {
            return false;
        }
        i = i + 1;
    }
    proof {
        assert(a@ =~= b@);
    }
    true
}

/// The decimal-and-comma body of the magic codec's identity token.
pub open spec fn spec_magic_token_body(bytes: Seq<u8>) -> Seq<char>
    decreases bytes.len(),
{
    if bytes.len() == 0 {
        Seq::empty()
    } else {
        spec_decimal_digits(bytes[0] as nat) + seq![','] + spec_magic_token_body(
            bytes.drop_first(),
        )
    }
}

proof fn lemma_magic_token_body_snoc(bytes: Seq<u8>, i: int)
    requires
        0 <= i < bytes.len(),
    ensures
        spec_magic_token_body(bytes.take(i + 1)) == spec_magic_token_body(bytes.take(i))
            + spec_decimal_digits(bytes[i] as nat) + seq![','],
    decreases i,
{
    if i == 0 {
        assert(bytes.take(1)[0] == bytes[0]);
        assert(bytes.take(1).drop_first() =~= Seq::<u8>::empty());
        assert(bytes.take(0) =~= Seq::<u8>::empty());
        assert(spec_magic_token_body(bytes.take(1)) =~= spec_magic_token_body(bytes.take(0))
            + spec_decimal_digits(bytes[0] as nat) + seq![',']);
    } else {
        let rest = bytes.drop_first();
        lemma_magic_token_body_snoc(rest, i - 1);
        assert(bytes.take(i + 1).drop_first() =~= rest.take(i));
        assert(bytes.take(i).drop_first() =~= rest.take(i - 1));
        assert(bytes.take(i + 1)[0] == bytes[0]);
        assert(bytes.take(i)[0] == bytes[0]);
        assert(rest[i - 1] == bytes[i]);
        assert(spec_magic_token_body(bytes.take(i + 1)) =~= spec_magic_token_body(bytes.take(i))
            + spec_decimal_digits(bytes[i] as nat) + seq![',']);
    }
}

impl MagicBytes {
    /// The codec that stamps and checks exactly the tag `expected`.
    pub fn new(expected: Vec<u8>) -> (r: Self)
        ensures
            r.spec_expected() == expected@,
    {
        MagicBytes { expected }
    }

    /// The tag this codec stamps and checks.
    pub closed spec fn spec_expected(&self) -> Seq<u8> {
        self.expected@
    }

    /// Report the tag.
    pub fn expected(&self) -> (r: &Vec<u8>)
        ensures
            r@ == self.spec_expected(),
    {
        &self.expected
    }
}

impl ByteTypeId<()> for MagicBytes {
    open spec fn spec_type_id(&self) -> Seq<Seq<char>> {
        seq!["MagicBytes<"@ + spec_magic_token_body(self.spec_expected()) + ">"@]
    }

    fn byte_type_id(&self) -> (r: Vec<String>) {
        let mut token: String = "MagicBytes<".to_owned();
        let n = self.expected.len();
        let mut i: usize = 0;
        proof {
            assert(self.spec_expected().take(0) =~= Seq::<u8>::empty());
        }
        while i < n
            invariant
                i <= n,
                n == self.spec_expected().len(),
                token@ == "MagicBytes<"@ + spec_magic_token_body(self.spec_expected().take(
                    i as int,
                )),
            decreases n - i,
        {
            let digits = u64_to_decimal(self.expected[i] as u64);
            token = token.concat(digits.as_str());
            token = token.concat(",");
            i = i + 1;
            proof {
                reveal_strlit(",");
                lemma_magic_token_body_snoc(self.spec_expected(), i - 1);
                assert(","@ =~= seq![',']);
                assert(token@ =~= "MagicBytes<"@ + spec_magic_token_body(
                    self.spec_expected().take(i as int),
                ));
            }
        }
        let token = token.concat(">");
        let mut r: Vec<String> = Vec::new();
        proof {
            assert(self.spec_expected().take(n as int) =~= self.spec_expected());
        }
        r.push(token);
        proof {
            assert(r.deep_view() =~~= self.spec_type_id());
        }
        r
    }
}

impl ByteSerialize<()> for MagicBytes {
    open spec fn spec_encode(&self, v: ()) -> Seq<u8> {
        self.spec_expected()
    }

    open spec fn spec_wf(&self, v: ()) -> bool {
        true
    }

    fn byte_serialize<W: ByteWrite>(&self, item: &(), io: &mut W) -> (r: Result<(), W::Err>) {
        const_byte_serialize(self, item, io)
    }

    fn size(&self, item: &()) -> (r: u64) {
        const_byte_size(self, item)
    }
}

impl ByteConstSize<()> for MagicBytes {
    open spec fn spec_byte_size(&self) -> nat {
        self.spec_expected().len()
    }

    fn byte_size(&self) -> (r: usize) {
        self.expected.len()
    }
}

impl ByteConstSerialize<()> for MagicBytes {
    open spec fn spec_const_encode(&self, v: ()) -> Seq<u8> {
        self.spec_expected()
    }

    proof fn lemma_const_encode_size(&self, v: ()) {
    }

    fn byte_const_serialize(&self, item: &()) -> (r: Vec<u8>) {
        slice_to_vec(self.expected.as_slice())
    }
}

impl ByteConstDeserialize<()> for MagicBytes {
    type ParseErr = MagicMismatch;

    open spec fn spec_const_decode(&self, buf: Seq<u8>) -> Option<()> {
        if buf == self.spec_expected() {
            Some(())
        } else {
            None
        }
    }

    fn byte_const_deserialize(&self, buf: &[u8]) -> (r: Result<(), Self::ParseErr>) {
        if bytes_equal(buf, self.expected.as_slice()) {
            Ok(())
        } else {
            Err(MagicMismatch {
                expected: slice_to_vec(self.expected.as_slice()),
                found: slice_to_vec(buf),
            })
        }
    }
}

impl ByteDeserialize<()> for MagicBytes {
    type ParseErr = MagicMismatch;

    open spec fn spec_decode(&self, bytes: Seq<u8>) -> Option<(int, ())> {
        spec_decode_of_const::<Self, ()>(*self, bytes)
    }

    /// A mismatch reports exactly the expected tag and the bytes actually
    /// found in its place; a transport failure comes only when fewer bytes
    /// remain than the tag is long.
    fn byte_deserialize<R: ByteRead>(&self, io: &mut R) -> (r: Result<
        (),
        ParseOrIOError<Self::ParseErr, R::Err>,
    >)
        ensures
            r matches Err(ParseOrIOError::Parse(m)) ==> {
                &&& m.expected@ == self.spec_expected()
                &&& m.found@ == old(io).spec_remaining().take(self.spec_expected().len() as int)
                &&& m.found@ != self.spec_expected()
            },
            r matches Err(ParseOrIOError::IO(_)) ==> old(io).spec_remaining().len()
                < self.spec_expected().len(),
    {
        let size = self.expected.len();
        match io.read_buf(size as u64) {
            Err(e) => {
                proof {
                    assert(old(io).spec_remaining().skip(0) =~= old(io).spec_remaining());
                }
                Err(ParseOrIOError::IO(e))
            },
            Ok(buf) => {
                if bytes_equal(buf.as_slice(), self.expected.as_slice()) {
                    Ok(())
                } else {
                    Err(ParseOrIOError::Parse(MagicMismatch {
                        expected: slice_to_vec(self.expected.as_slice()),
                        found: buf,
                    }))
                }
            },
        }
    }

    fn guess_size(&self) -> (r: Option<u64>) {
        Some(self.expected.len() as u64)
    }
}

impl ByteSerde<()> for MagicBytes {
    proof fn lemma_round_trip(&self, v: (), rest: Seq<u8>) {
        let enc = self.spec_expected();
        assert((enc + rest).take(enc.len() as int) =~= enc);
    }
}

} // verus!
