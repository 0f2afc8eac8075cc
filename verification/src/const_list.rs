//! The fixed-count array codec: a known number of elements encoded in index
//! order with no framing at all, the count being part of the codec itself.
//!
//! Decoding builds the elements into a growable vector, so a mid-array
//! failure simply drops the elements already built by ordinary ownership;
//! the propagated error carries the failing index.

use vstd::prelude::*;

use crate::io::{ByteRead, ByteWrite};
use crate::lists::{
    lemma_encode_elems_split, lemma_decode_encode_elems, spec_decode_elems, spec_elems_wf,
    spec_encode_elems,
};
use crate::serde::{
    append_tokens, lemma_skip_skip, spec_decimal_digits, u64_to_decimal, ByteDeserialize,
    ByteSerde, ByteSerialize, ByteTypeId, ParseOrIOError,
};

verus! {

/// Structural parse failure of the fixed-count array codec: the element
/// parse failure, tagged with the zero-based index where it happened.
#[derive(Debug, Clone, Copy, PartialEq)]
pub struct ParseConstListError<E> {
    pub index: usize,
    pub error: E,
}

/// The fixed-count array codec: exactly `count` values encoded by `VE`, in
/// index order, with no framing.
#[derive(Debug, Default, Copy, Clone)]
pub struct ConstListEncoder<VE> {
    pub value_encoder: VE,
    pub count: usize,
}

impl<VE> ConstListEncoder<VE> {
    /// The array codec for exactly `count` elements encoded by
    /// `value_encoder`.
    pub fn new(value_encoder: VE, count: usize) -> (r: Self)
        ensures
            r == (ConstListEncoder { value_encoder, count }),
    {
        ConstListEncoder { value_encoder, count }
    }
}

impl<VE, V> ByteTypeId<Vec<V>> for ConstListEncoder<VE>
    where VE: ByteTypeId<V>, V: DeepView,
{
    open spec fn spec_type_id(&self) -> Seq<Seq<char>> {
        seq!["twee::ConstSizeList<"@] + self.value_encoder.spec_type_id() + seq![","@] + seq![
            spec_decimal_digits(self.count as nat),
        ] + seq![">"@]
    }

    fn byte_type_id(&self) -> (r: Vec<String>) {
        let mut r: Vec<String> = Vec::new();
        r.push("twee::ConstSizeList<".to_owned());
        proof {
            assert(r.deep_view() =~~= seq!["twee::ConstSizeList<"@]);
        }
        let ve_id = self.value_encoder.byte_type_id();
        append_tokens(&mut r, &ve_id);
        let ghost mid1 = r.deep_view();
        r.push(",".to_owned());
        proof {
            assert(r.deep_view() =~~= mid1 + seq![","@]);
        }
        let ghost mid2 = r.deep_view();
        r.push(u64_to_decimal(self.count as u64));
        proof {
            assert(r.deep_view() =~~= mid2 + seq![spec_decimal_digits(self.count as nat)]);
        }
        let ghost mid3 = r.deep_view();
        r.push(">".to_owned());
        proof {
            assert(r.deep_view() =~~= mid3 + seq![">"@]);
            assert(r.deep_view() =~~= self.spec_type_id());
        }
        r
    }
}

impl<VE, V> ByteSerialize<Vec<V>> for ConstListEncoder<VE>
    where VE: ByteSerialize<V>, V: DeepView,
{
    open spec fn spec_encode(&self, s: Seq<V::V>) -> Seq<u8> {
        spec_encode_elems(self.value_encoder, s)
    }

    open spec fn spec_wf(&self, s: Seq<V::V>) -> bool {
        &&& s.len() == self.count
        &&& spec_elems_wf(self.value_encoder, s)
    }

    fn byte_serialize<W: ByteWrite>(&self, item: &Vec<V>, io: &mut W) -> (r: Result<(), W::Err>) {
        let ghost s = item.deep_view();
        let mut i: usize = 0;
        while i < item.len()
            invariant
                i <= item.len(),
                s == item.deep_view(),
                io.spec_written() == old(io).spec_written() + spec_encode_elems(
                    self.value_encoder,
                    s.take(i as int),
                ),
                old(io).spec_written().is_prefix_of(io.spec_written()),
            decreases item.len() - i,
        {
            match self.value_encoder.byte_serialize(&item[i], io) {
                Ok(()) => {},
                Err(e) => {
                    return Err(e);
                },
            }
            i = i + 1;
            proof {
                assert(item.deep_view()[i - 1] == item@[i - 1].deep_view());
                lemma_encode_elems_split(self.value_encoder, s.take(i as int), i - 1);
                assert(s.take(i as int).take(i - 1) =~= s.take(i - 1));
                assert(s.take(i as int).skip(i - 1) =~= seq![s[i - 1]]);
                assert(seq![s[i - 1]].drop_first() =~= Seq::<V::V>::empty());
                assert(spec_encode_elems(self.value_encoder, seq![s[i - 1]].drop_first())
                    =~= Seq::<u8>::empty());
                assert(spec_encode_elems(self.value_encoder, seq![s[i - 1]])
                    =~= self.value_encoder.spec_encode(s[i - 1]));
                assert(io.spec_written() =~= old(io).spec_written() + spec_encode_elems(
                    self.value_encoder,
                    s.take(i as int),
                ));
            }
        }
        proof {
            assert(s.take(item.len() as int) =~= s);
        }
        Ok(())
    }

    fn size(&self, item: &Vec<V>) -> (r: u64) {
        let ghost s = item.deep_view();
        let ghost whole = self.spec_encode(s);
        let mut total: u64 = 0;
        let mut i: usize = 0;
        proof {
            assert(spec_encode_elems(self.value_encoder, s.take(0)) =~= Seq::<u8>::empty()) by {
                assert(s.take(0) =~= Seq::<V::V>::empty());
            }
        }
        while i < item.len()
            invariant
                i <= item.len(),
                s == item.deep_view(),
                whole == self.spec_encode(s),
                whole.len() <= u64::MAX,
                total == spec_encode_elems(self.value_encoder, s.take(i as int)).len(),
            decreases item.len() - i,
        {
            proof {
                lemma_encode_elems_split(self.value_encoder, s, i as int);
                assert(s.skip(i as int)[0] == s[i as int]);
                assert(s.skip(i as int).drop_first() =~= s.skip(i as int + 1));
                assert(item.deep_view()[i as int] == item@[i as int].deep_view());
            }
            let elem_size = self.value_encoder.size(&item[i]);
            i = i + 1;
            proof {
                lemma_encode_elems_split(self.value_encoder, s, i as int);
                assert(s.take(i as int).take(i - 1) =~= s.take(i - 1));
                assert(s.take(i as int).skip(i - 1) =~= seq![s[i - 1]]);
                assert(seq![s[i - 1]].drop_first() =~= Seq::<V::V>::empty());
                assert(spec_encode_elems(self.value_encoder, seq![s[i - 1]].drop_first())
                    =~= Seq::<u8>::empty());
                assert(spec_encode_elems(self.value_encoder, seq![s[i - 1]])
                    =~= self.value_encoder.spec_encode(s[i - 1]));
                lemma_encode_elems_split(self.value_encoder, s.take(i as int), i - 1);
            }
            total = total + elem_size;
        }
        proof {
            assert(s.take(item.len() as int) =~= s);
        }
        total
    }
}

impl<VE, V> ByteDeserialize<Vec<V>> for ConstListEncoder<VE>
    where VE: ByteDeserialize<V>, V: DeepView,
{
    type ParseErr = ParseConstListError<VE::ParseErr>;

    open spec fn spec_decode(&self, bytes: Seq<u8>) -> Option<(int, Seq<V::V>)> {
        spec_decode_elems(self.value_encoder, bytes, self.count as nat)
    }

    /// A parse failure carries the first index at which the element decode
    /// fails: the elements before that index decode from the bytes being
    /// read, and the element decode fails on what follows them.
    fn byte_deserialize<R: ByteRead>(&self, io: &mut R) -> (r: Result<
        Vec<V>,
        ParseOrIOError<Self::ParseErr, R::Err>,
    >)
        ensures
            r matches Err(ParseOrIOError::Parse(e)) ==> {
                let rem = old(io).spec_remaining();
                &&& e.index < self.count
                &&& (spec_decode_elems(self.value_encoder, rem, e.index as nat) matches Some((
                    m,
                    s,
                )) && self.value_encoder.spec_decode(rem.skip(m)) is None)
            },
    {
        let ghost bytes0 = io.spec_remaining();
        let mut res: Vec<V> = Vec::new();
        let mut index: usize = 0;
        proof {
            assert forall|k: nat| index <= k implies #[trigger] spec_decode_elems(
                self.value_encoder,
                bytes0,
                k,
            ) == (match spec_decode_elems(
                self.value_encoder,
                io.spec_remaining(),
                (k - index) as nat,
            ) {
                None => None::<(int, Seq<V::V>)>,
                Some((m, s)) => Some(
                    (m + (bytes0.len() - io.spec_remaining().len()), res.deep_view() + s),
                ),
            }) by {
                assert(res.deep_view() =~= Seq::<V::V>::empty());
                match spec_decode_elems(self.value_encoder, bytes0, k) {
                    None => {},
                    Some((m, s)) => {
                        assert(res.deep_view() + s =~= s);
                    },
                }
            }
        }
        while index < self.count
            invariant
                index <= self.count,
                res@.len() == index,
                bytes0 == old(io).spec_remaining(),
                io.spec_remaining().len() <= bytes0.len(),
                io.spec_remaining() == bytes0.skip(bytes0.len() - io.spec_remaining().len()),
                forall|k: nat| index <= k ==> #[trigger] spec_decode_elems(
                    self.value_encoder,
                    bytes0,
                    k,
                ) == (match spec_decode_elems(
                    self.value_encoder,
                    io.spec_remaining(),
                    (k - index) as nat,
                ) {
                    None => None::<(int, Seq<V::V>)>,
                    Some((m, s)) => Some(
                        (m + (bytes0.len() - io.spec_remaining().len()), res.deep_view() + s),
                    ),
                }),
            decreases self.count - index,
        {
            let ghost cur = io.spec_remaining();
            let ghost prevres = res.deep_view();
            let ghost c0 = bytes0.len() - cur.len();
            let elem = match self.value_encoder.byte_deserialize(io) {
                Ok(v) => v,
                Err(e) => {
                    proof {
                        lemma_skip_skip(
                            bytes0,
                            bytes0.len() - cur.len(),
                            cur.len() - io.spec_remaining().len(),
                        );
                        assert(spec_decode_elems(self.value_encoder, bytes0, index as nat)
                            == (match spec_decode_elems(self.value_encoder, cur, 0) {
                            None => None::<(int, Seq<V::V>)>,
                            Some((m, s)) => Some((m + c0, prevres + s)),
                        }));
                        assert(prevres + Seq::<V::V>::empty() =~= prevres);
                        assert(spec_decode_elems(self.value_encoder, bytes0, self.count as nat)
                            == (match spec_decode_elems(
                            self.value_encoder,
                            cur,
                            (self.count - index) as nat,
                        ) {
                            None => None::<(int, Seq<V::V>)>,
                            Some((m, s)) => Some((m + c0, prevres + s)),
                        }));
                    }
                    return Err(match e {
                        ParseOrIOError::Parse(p) => ParseOrIOError::Parse(
                            ParseConstListError { index, error: p },
                        ),
                        ParseOrIOError::IO(i) => ParseOrIOError::IO(i),
                    });
                },
            };
            res.push(elem);
            index = index + 1;
            proof {
                lemma_skip_skip(
                    bytes0,
                    bytes0.len() - cur.len(),
                    cur.len() - io.spec_remaining().len(),
                );
                let d = cur.len() - io.spec_remaining().len();
                assert(res.deep_view() =~= prevres + seq![elem.deep_view()]);
                assert forall|k: nat| index <= k implies #[trigger] spec_decode_elems(
                    self.value_encoder,
                    bytes0,
                    k,
                ) == (match spec_decode_elems(
                    self.value_encoder,
                    io.spec_remaining(),
                    (k - index) as nat,
                ) {
                    None => None::<(int, Seq<V::V>)>,
                    Some((m, s)) => Some(
                        (m + (bytes0.len() - io.spec_remaining().len()), res.deep_view() + s),
                    ),
                }) by {
                    assert(spec_decode_elems(self.value_encoder, bytes0, k) == (match
                        spec_decode_elems(self.value_encoder, cur, (k - (index - 1)) as nat) {
                        None => None::<(int, Seq<V::V>)>,
                        Some((m, s)) => Some((m + c0, prevres + s)),
                    }));
                    assert(cur.skip(d as int) == io.spec_remaining());
                    match spec_decode_elems(
                        self.value_encoder,
                        io.spec_remaining(),
                        (k - index) as nat,
                    ) {
                        None => {},
                        Some((m2, s2)) => {
                            assert(prevres + (seq![elem.deep_view()] + s2) =~= res.deep_view()
                                + s2);
                        },
                    }
                }
            }
        }
        proof {
            assert(spec_decode_elems(self.value_encoder, bytes0, self.count as nat) == (match
                spec_decode_elems(self.value_encoder, io.spec_remaining(), 0) {
                None => None::<(int, Seq<V::V>)>,
                Some((m, s)) => Some(
                    (m + (bytes0.len() - io.spec_remaining().len()), res.deep_view() + s),
                ),
            }));
            assert(res.deep_view() + Seq::<V::V>::empty() =~= res.deep_view());
        }
        Ok(res)
    }

    fn guess_size(&self) -> (r: Option<u64>) {
        match self.value_encoder.guess_size() {
            None => None,
            Some(elem_size) => {
                if self.count == 0 {
                    Some(0)
                } else if elem_size <= u64::MAX / (self.count as u64) {
                    proof {
                        let c = self.count as u64;
                        vstd::arithmetic::div_mod::lemma_fundamental_div_mod(
                            u64::MAX as int,
                            c as int,
                        );
                        assert(elem_size * c <= u64::MAX) by (nonlinear_arith)
                            requires
                                c > 0,
                                elem_size <= u64::MAX as int / c as int,
                                u64::MAX as int == c * (u64::MAX as int / c as int) + u64::MAX
                                    as int % c as int,
                                u64::MAX as int % c as int >= 0,
                        ;
                    }
                    Some(elem_size * (self.count as u64))
                } else {
                    None
                }
            },
        }
    }
}

impl<VE, V> ByteSerde<Vec<V>> for ConstListEncoder<VE>
    where VE: ByteSerde<V>, V: DeepView,
{
    proof fn lemma_round_trip(&self, s: Seq<V::V>, rest: Seq<u8>) {
        lemma_decode_encode_elems(self.value_encoder, s, rest);
    }
}

} // verus!
