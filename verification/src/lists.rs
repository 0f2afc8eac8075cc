//! The length-prefixed list codec: a pluggable length codec writes the
//! element count, then the element codec writes each element in order.
//!
//! The spec helpers here describe an element sequence without any framing;
//! the fixed-count array codec reuses them.

use vstd::prelude::*;

use crate::io::{ByteRead, ByteWrite};
use crate::serde::{
    append_tokens, lemma_skip_skip, ByteDeserialize, ByteSerde, ByteSerialize, ByteTypeId,
    ParseOrIOError,
};

verus! {

/// The bytes of `s`'s elements encoded in index order with no framing.
pub open spec fn spec_encode_elems<VE: ByteSerialize<V>, V: DeepView>(
    ve: VE,
    s: Seq<V::V>,
) -> Seq<u8>
    decreases s.len(),
{
    if s.len() == 0 {
        Seq::empty()
    } else {
        ve.spec_encode(s[0]) + spec_encode_elems(ve, s.drop_first())
    }
}

/// Every element of `s` is one the element codec encodes faithfully.
pub open spec fn spec_elems_wf<VE: ByteSerialize<V>, V: DeepView>(ve: VE, s: Seq<V::V>) -> bool {
    forall|i: int| 0 <= i < s.len() ==> ve.spec_wf(#[trigger] s[i])
}

/// Parse exactly `count` elements from the front of `bytes`.
pub open spec fn spec_decode_elems<VE: ByteDeserialize<V>, V: DeepView>(
    ve: VE,
    bytes: Seq<u8>,
    count: nat,
) -> Option<(int, Seq<V::V>)>
    decreases count,
{
    if count == 0 {
        Some((0, Seq::empty()))
    } else {
        match ve.spec_decode(bytes) {
            None => None,
            Some((n, v)) => match spec_decode_elems(ve, bytes.skip(n), (count - 1) as nat) {
                None => None,
                Some((m, s)) => Some((n + m, seq![v] + s)),
            },
        }
    }
}

/// An element sequence's encoding splits at any index.
pub proof fn lemma_encode_elems_split<VE: ByteSerialize<V>, V: DeepView>(
    ve: VE,
    s: Seq<V::V>,
    i: int,
)
    requires
        0 <= i <= s.len(),
    ensures
        spec_encode_elems(ve, s) == spec_encode_elems(ve, s.take(i)) + spec_encode_elems(
            ve,
            s.skip(i),
        ),
    decreases i,
{
    if i == 0 {
        assert(s.take(0) =~= Seq::<V::V>::empty());
        assert(s.skip(0) =~= s);
        assert(spec_encode_elems(ve, s) =~= spec_encode_elems(ve, s.take(0)) + spec_encode_elems(
            ve,
            s.skip(0),
        ));
    } else {
        let rest = s.drop_first();
        lemma_encode_elems_split(ve, rest, i - 1);
        assert(s.take(i).drop_first() =~= rest.take(i - 1));
        assert(s.take(i)[0] == s[0]);
        assert(s.skip(i) =~= rest.skip(i - 1));
        assert(spec_encode_elems(ve, s) =~= spec_encode_elems(ve, s.take(i)) + spec_encode_elems(
            ve,
            s.skip(i),
        ));
    }
}

/// Decoding the encoding of `count == s.len()` well-formed elements consumes
/// exactly the encoding and yields the elements back.
pub proof fn lemma_decode_encode_elems<VE: ByteSerde<V>, V: DeepView>(
    ve: VE,
    s: Seq<V::V>,
    rest: Seq<u8>,
)
    requires
        spec_elems_wf(ve, s),
    ensures
        spec_decode_elems(ve, spec_encode_elems(ve, s) + rest, s.len()) == Some(
            (spec_encode_elems(ve, s).len() as int, s),
        ),
    decreases s.len(),
{
    if s.len() == 0 {
        assert(spec_encode_elems(ve, s) + rest =~= rest);
        assert(s =~= Seq::<V::V>::empty());
    } else {
        let e0 = ve.spec_encode(s[0]);
        let tail = s.drop_first();
        let etail = spec_encode_elems(ve, tail);
        assert((e0 + etail) + rest =~= e0 + (etail + rest));
        ve.lemma_round_trip(s[0], etail + rest);
        assert((e0 + (etail + rest)).skip(e0.len() as int) =~= etail + rest);
        assert(spec_elems_wf(ve, tail)) by {
            assert(forall|i: int| 0 <= i < tail.len() ==> tail[i] == s[i + 1]);
        }
        lemma_decode_encode_elems(ve, tail, rest);
        assert(seq![s[0]] + tail =~= s);
    }
}

/// Structural parse failure of the length-prefixed list codec: either the
/// length prefix failed to parse, or one element did, tagged with its
/// zero-based index.
#[derive(Debug, Copy, Clone, PartialEq)]
pub enum ListParseError<L, V> {
    LengthParseError(L),
    ItemParseError { idx: u64, error: V },
}

/// The length-prefixed list codec: `LE` encodes the element count as a
/// 64-bit value, `VE` encodes each element.
#[derive(Default, Debug, Clone, Copy)]
pub struct LengthPrefixList<LE, VE> {
    pub length_encoder: LE,
    pub value_encoder: VE,
}

impl<LE, VE> LengthPrefixList<LE, VE> {
    /// The list codec built from the given length and element codecs.
    pub fn new(length_encoder: LE, value_encoder: VE) -> (r: Self)
        ensures
            r == (LengthPrefixList { length_encoder, value_encoder }),
    {
        LengthPrefixList { length_encoder, value_encoder }
    }
}

impl<LE, VE, V> ByteTypeId<Vec<V>> for LengthPrefixList<LE, VE>
    where LE: ByteTypeId<u64>, VE: ByteTypeId<V>, V: DeepView,
{
    open spec fn spec_type_id(&self) -> Seq<Seq<char>> {
        seq!["twee::LengthPrefixedList<"@] + self.length_encoder.spec_type_id() + seq![","@]
            + self.value_encoder.spec_type_id() + seq![">"@]
    }

    fn byte_type_id(&self) -> (r: Vec<String>) {
        let mut r: Vec<String> = Vec::new();
        r.push("twee::LengthPrefixedList<".to_owned());
        proof {
            assert(r.deep_view() =~~= seq!["twee::LengthPrefixedList<"@]);
        }
        let le_id = self.length_encoder.byte_type_id();
        append_tokens(&mut r, &le_id);
        let ghost mid1 = r.deep_view();
        r.push(",".to_owned());
        proof {
            assert(r.deep_view() =~~= mid1 + seq![","@]);
        }
        let ve_id = self.value_encoder.byte_type_id();
        append_tokens(&mut r, &ve_id);
        let ghost mid2 = r.deep_view();
        r.push(">".to_owned());
        proof {
            assert(r.deep_view() =~~= mid2 + seq![">"@]);
            assert(r.deep_view() =~~= self.spec_type_id());
        }
        r
    }
}

impl<LE, VE, V> ByteSerialize<Vec<V>> for LengthPrefixList<LE, VE>
    where LE: ByteSerialize<u64>, VE: ByteSerialize<V>, V: DeepView,
{
    open spec fn spec_encode(&self, s: Seq<V::V>) -> Seq<u8> {
        self.length_encoder.spec_encode(s.len() as u64) + spec_encode_elems(self.value_encoder, s)
    }

    open spec fn spec_wf(&self, s: Seq<V::V>) -> bool {
        &&& s.len() <= u64::MAX
        &&& self.length_encoder.spec_wf(s.len() as u64)
        &&& spec_elems_wf(self.value_encoder, s)
    }

    fn byte_serialize<W: ByteWrite>(&self, item: &Vec<V>, io: &mut W) -> (r: Result<(), W::Err>) {
        let ghost s = item.deep_view();
        let length: u64 = item.len() as u64;
        match self.length_encoder.byte_serialize(&length, io) {
            Ok(()) => {},
            Err(e) => {
                return Err(e);
            },
        }
        let ghost len_enc = self.length_encoder.spec_encode(length);
        let mut i: usize = 0;
        while i < item.len()
            invariant
                i <= item.len(),
                s == item.deep_view(),
                length == item.len() as u64,
                len_enc == self.length_encoder.spec_encode(length),
                io.spec_written() == old(io).spec_written() + len_enc + spec_encode_elems(
                    self.value_encoder,
                    s.take(i as int),
                ),
                old(io).spec_written().is_prefix_of(io.spec_written()),
            decreases item.len() - i,
        {
            let ghost pre = io.spec_written();
            match self.value_encoder.byte_serialize(&item[i], io) {
                Ok(()) => {},
                Err(e) => {
                    return Err(e);
                },
            }
            i = i + 1;
            proof {
                assert(item.deep_view()[i - 1] == item@[i - 1].deep_view());
                lemma_encode_elems_split(self.value_encoder, s.take(i as int), i - 1);
                assert(s.take(i as int).take(i - 1) =~= s.take(i - 1));
                assert(s.take(i as int).skip(i - 1) =~= seq![s[i - 1]]);
                assert(seq![s[i - 1]].drop_first() =~= Seq::<V::V>::empty());
                assert(spec_encode_elems(self.value_encoder, seq![s[i - 1]].drop_first())
                    =~= Seq::<u8>::empty());
                assert(spec_encode_elems(self.value_encoder, seq![s[i - 1]])
                    =~= self.value_encoder.spec_encode(s[i - 1]));
                assert(io.spec_written() =~= old(io).spec_written() + len_enc + spec_encode_elems(
                    self.value_encoder,
                    s.take(i as int),
                ));
            }
        }
        proof {
            assert(s.take(item.len() as int) =~= s);
            assert(io.spec_written() =~= old(io).spec_written() + self.spec_encode(s));
        }
        Ok(())
    }

    fn size(&self, item: &Vec<V>) -> (r: u64) {
        let ghost s = item.deep_view();
        let ghost whole = self.spec_encode(s);
        let length: u64 = item.len() as u64;
        proof {
            lemma_encode_elems_split(self.value_encoder, s, 0);
        }
        let mut total: u64 = self.length_encoder.size(&length);
        let ghost len_enc = self.length_encoder.spec_encode(length);
        let mut i: usize = 0;
        while i < item.len()
            invariant
                i <= item.len(),
                s == item.deep_view(),
                length == item.len() as u64,
                whole == self.spec_encode(s),
                len_enc == self.length_encoder.spec_encode(length),
                whole.len() <= u64::MAX,
                total == len_enc.len() + spec_encode_elems(self.value_encoder, s.take(
                    i as int,
                )).len(),
            decreases item.len() - i,
        {
            proof {
                lemma_encode_elems_split(self.value_encoder, s, i as int);
                assert(s.skip(i as int)[0] == s[i as int]);
                assert(s.skip(i as int).drop_first() =~= s.skip(i as int + 1));
                assert(item.deep_view()[i as int] == item@[i as int].deep_view());
            }
            let elem_size = self.value_encoder.size(&item[i]);
            i = i + 1;
            proof {
                lemma_encode_elems_split(self.value_encoder, s, i as int);
                assert(s.take(i as int).take(i - 1) =~= s.take(i - 1));
                assert(s.take(i as int).skip(i - 1) =~= seq![s[i - 1]]);
                assert(seq![s[i - 1]].drop_first() =~= Seq::<V::V>::empty());
                assert(spec_encode_elems(self.value_encoder, seq![s[i - 1]].drop_first())
                    =~= Seq::<u8>::empty());
                assert(spec_encode_elems(self.value_encoder, seq![s[i - 1]])
                    =~= self.value_encoder.spec_encode(s[i - 1]));
                lemma_encode_elems_split(self.value_encoder, s.take(i as int), i - 1);
            }
            total = total + elem_size;
        }
        proof {
            assert(s.take(item.len() as int) =~= s);
        }
        total
    }
}

impl<LE, VE, V> ByteDeserialize<Vec<V>> for LengthPrefixList<LE, VE>
    where LE: ByteDeserialize<u64>, VE: ByteDeserialize<V>, V: DeepView,
{
    type ParseErr = ListParseError<LE::ParseErr, VE::ParseErr>;

    open spec fn spec_decode(&self, bytes: Seq<u8>) -> Option<(int, Seq<V::V>)> {
        match self.length_encoder.spec_decode(bytes) {
            None => None,
            Some((n, len)) => match spec_decode_elems(
                self.value_encoder,
                bytes.skip(n),
                len as nat,
            ) {
                None => None,
                Some((m, s)) => Some((n + m, s)),
            },
        }
    }

    /// The two stages of a structural failure are told apart exactly: a
    /// length-stage error comes when no length parses, and an element-stage
    /// error carries the first index at which the element decode fails, the
    /// elements before it decoding from the bytes that follow the length.
    fn byte_deserialize<R: ByteRead>(&self, io: &mut R) -> (r: Result<
        Vec<V>,
        ParseOrIOError<Self::ParseErr, R::Err>,
    >)
        ensures
            r matches Err(ParseOrIOError::Parse(ListParseError::LengthParseError(p)))
                ==> self.length_encoder.spec_decode(old(io).spec_remaining()) is None,
            r matches Err(ParseOrIOError::Parse(ListParseError::ItemParseError { idx, error }))
                ==> {
                let rem = old(io).spec_remaining();
                &&& self.length_encoder.spec_decode(rem) matches Some((n, len)) && idx < len && (
                spec_decode_elems(self.value_encoder, rem.skip(n), idx as nat) matches Some((
                    m,
                    s,
                )) && self.value_encoder.spec_decode(rem.skip(n).skip(m)) is None)
            },
    {
        let ghost bytes0 = io.spec_remaining();
        let length: u64 = match self.length_encoder.byte_deserialize(io) {
            Ok(l) => l,
            Err(e) => {
                return Err(match e {
                    ParseOrIOError::Parse(p) => ParseOrIOError::Parse(
                        ListParseError::LengthParseError(p),
                    ),
                    ParseOrIOError::IO(i) => ParseOrIOError::IO(i),
                });
            },
        };
        let ghost n0 = bytes0.len() - io.spec_remaining().len();
        let ghost rem0 = io.spec_remaining();
        let mut res: Vec<V> = Vec::new();
        let mut idx: u64 = 0;
        proof {
            assert forall|k: nat| idx <= k implies #[trigger] spec_decode_elems(
                self.value_encoder,
                rem0,
                k,
            ) == (match spec_decode_elems(
                self.value_encoder,
                io.spec_remaining(),
                (k - idx) as nat,
            ) {
                None => None::<(int, Seq<V::V>)>,
                Some((m, s)) => Some(
                    (m + (rem0.len() - io.spec_remaining().len()), res.deep_view() + s),
                ),
            }) by {
                assert(res.deep_view() =~= Seq::<V::V>::empty());
                match spec_decode_elems(self.value_encoder, rem0, k) {
                    None => {},
                    Some((m, s)) => {
                        assert(res.deep_view() + s =~= s);
                    },
                }
            }
        }
        while idx < length
            invariant
                idx <= length,
                res@.len() == idx,
                0 <= n0 <= bytes0.len(),
                bytes0 == old(io).spec_remaining(),
                rem0 == bytes0.skip(n0),
                self.length_encoder.spec_decode(bytes0) == Some((n0, length)),
                io.spec_remaining().len() <= rem0.len(),
                io.spec_remaining() == rem0.skip(rem0.len() - io.spec_remaining().len()),
                forall|k: nat| idx <= k ==> #[trigger] spec_decode_elems(
                    self.value_encoder,
                    rem0,
                    k,
                ) == (match spec_decode_elems(
                    self.value_encoder,
                    io.spec_remaining(),
                    (k - idx) as nat,
                ) {
                    None => None::<(int, Seq<V::V>)>,
                    Some((m, s)) => Some(
                        (m + (rem0.len() - io.spec_remaining().len()), res.deep_view() + s),
                    ),
                }),
            decreases length - idx,
        {
            let ghost cur = io.spec_remaining();
            let ghost prevres = res.deep_view();
            let ghost c0 = rem0.len() - cur.len();
            let elem = match self.value_encoder.byte_deserialize(io) {
                Ok(v) => v,
                Err(e) => {
                    proof {
                        lemma_skip_skip(
                            bytes0,
                            bytes0.len() - cur.len(),
                            cur.len() - io.spec_remaining().len(),
                        );
                        assert(spec_decode_elems(self.value_encoder, rem0, idx as nat) == (match
                            spec_decode_elems(self.value_encoder, cur, 0) {
                            None => None::<(int, Seq<V::V>)>,
                            Some((m, s)) => Some((m + c0, prevres + s)),
                        }));
                        assert(prevres + Seq::<V::V>::empty() =~= prevres);
                        assert(spec_decode_elems(self.value_encoder, rem0, length as nat) == (
                        match spec_decode_elems(
                            self.value_encoder,
                            cur,
                            (length - idx) as nat,
                        ) {
                            None => None::<(int, Seq<V::V>)>,
                            Some((m, s)) => Some((m + c0, prevres + s)),
                        }));
                    }
                    return Err(match e {
                        ParseOrIOError::Parse(p) => ParseOrIOError::Parse(
                            ListParseError::ItemParseError { idx, error: p },
                        ),
                        ParseOrIOError::IO(i) => ParseOrIOError::IO(i),
                    });
                },
            };
            res.push(elem);
            idx = idx + 1;
            proof {
                lemma_skip_skip(
                    rem0,
                    rem0.len() - cur.len(),
                    cur.len() - io.spec_remaining().len(),
                );
                let d = cur.len() - io.spec_remaining().len();
                assert(res.deep_view() =~= prevres + seq![elem.deep_view()]);
                assert forall|k: nat| idx <= k implies #[trigger] spec_decode_elems(
                    self.value_encoder,
                    rem0,
                    k,
                ) == (match spec_decode_elems(
                    self.value_encoder,
                    io.spec_remaining(),
                    (k - idx) as nat,
                ) {
                    None => None::<(int, Seq<V::V>)>,
                    Some((m, s)) => Some(
                        (m + (rem0.len() - io.spec_remaining().len()), res.deep_view() + s),
                    ),
                }) by {
                    assert(spec_decode_elems(self.value_encoder, rem0, k) == (match
                        spec_decode_elems(self.value_encoder, cur, (k - (idx - 1)) as nat) {
                        None => None::<(int, Seq<V::V>)>,
                        Some((m, s)) => Some((m + c0, prevres + s)),
                    }));
                    assert(cur.skip(d as int) == io.spec_remaining());
                    match spec_decode_elems(
                        self.value_encoder,
                        io.spec_remaining(),
                        (k - idx) as nat,
                    ) {
                        None => {},
                        Some((m2, s2)) => {
                            assert(prevres + (seq![elem.deep_view()] + s2) =~= res.deep_view()
                                + s2);
                        },
                    }
                }
            }
        }
        proof {
            lemma_skip_skip(bytes0, n0, rem0.len() - io.spec_remaining().len());
            assert(spec_decode_elems(self.value_encoder, rem0, length as nat) == (match
                spec_decode_elems(self.value_encoder, io.spec_remaining(), 0) {
                None => None::<(int, Seq<V::V>)>,
                Some((m, s)) => Some(
                    (m + (rem0.len() - io.spec_remaining().len()), res.deep_view() + s),
                ),
            }));
            assert(res.deep_view() + Seq::<V::V>::empty() =~= res.deep_view());
        }
        Ok(res)
    }

    fn guess_size(&self) -> (r: Option<u64>) {
        None
    }
}

impl<LE, VE, V> ByteSerde<Vec<V>> for LengthPrefixList<LE, VE>
    where LE: ByteSerde<u64>, VE: ByteSerde<V>, V: DeepView,
{
    proof fn lemma_round_trip(&self, s: Seq<V::V>, rest: Seq<u8>) {
        let length: u64 = s.len() as u64;
        let len_enc = self.length_encoder.spec_encode(length);
        let elems_enc = spec_encode_elems(self.value_encoder, s);
        assert((len_enc + elems_enc) + rest =~= len_enc + (elems_enc + rest));
        self.length_encoder.lemma_round_trip(length, elems_enc + rest);
        assert((len_enc + (elems_enc + rest)).skip(len_enc.len() as int) =~= elems_enc + rest);
        lemma_decode_encode_elems(self.value_encoder, s, rest);
    }
}

} // verus!
