//! A composable binary serialization library: codecs that turn typed values
//! into exact byte sequences and back, built from a small byte I/O contract,
//! a two-layer error model, and a hierarchy of codec traits whose contracts
//! pin the encoding of every value down to the byte.
//!
//! The functions at the crate root are the verification harness: each checks
//! one codec pairing on one value, by encoding it, holding the byte count
//! against the codec's declared size, decoding it back, and comparing. They
//! return whether every check passed, and their contracts say exactly when
//! that is.

pub mod io;
pub mod serde;
pub mod endians;
pub mod varint;
pub mod lists;
pub mod const_list;
pub mod string;
pub mod magic_bytes;

use vstd::prelude::*;

use vstd::pervasive::unreached;

use crate::io::ByteCursor;
use crate::serde::{type_ids_equal, ByteDeserialize, ByteSerde, ByteSerialize, ValueEq};

verus! {

/// Check one codec pairing on one value: the two codecs must claim the same
/// type identity, the writer's byte count must match its declared size, and
/// what the writer encoded the reader must decode back to an equal value.
pub fn assert_serde_across_through<Ein, Eout, T>(ein: &Ein, eout: &Eout, item: &T) -> (r: bool)
    where Ein: ByteSerialize<T>, Eout: ByteDeserialize<T>, T: ValueEq,
    requires
        ein.spec_encode(item.deep_view()).len() <= u64::MAX,
    ensures
        r <==> (ein.spec_type_id() == eout.spec_type_id() && (eout.spec_decode(
            ein.spec_encode(item.deep_view()),
        ) matches Some((n, w)) && w == item.deep_view())),
{
    let ein_id = ein.byte_type_id();
    let eout_id = eout.byte_type_id();
    if !type_ids_equal(&ein_id, &eout_id) {
        return false;
    }
    let est_size = ein.size(item);
    let mut buf: Vec<u8> = Vec::new();
    match ein.byte_serialize(item, &mut buf) {
        Ok(()) => {},
        Err(_) => {
            return unreached();
        },
    }
    let buf_len: u64 = buf.len() as u64;
    if buf_len != est_size {
        return false;
    }
    let mut cur = ByteCursor::new(buf.as_slice());
    match eout.byte_deserialize(&mut cur) {
        Ok(other) => item.value_eq(&other),
        Err(_) => false,
    }
}

/// Check that a value encoded by one codec decodes correctly through
/// another codec claiming the same type identity.
pub fn assert_serde_across<Ein, Eout, T>(ein: &Ein, eout: &Eout, item: &T) -> (r: bool)
    where Ein: ByteSerialize<T>, Eout: ByteDeserialize<T>, T: ValueEq,
    requires
        ein.spec_encode(item.deep_view()).len() <= u64::MAX,
    ensures
        r <==> (ein.spec_type_id() == eout.spec_type_id() && (eout.spec_decode(
            ein.spec_encode(item.deep_view()),
        ) matches Some((n, w)) && w == item.deep_view())),
{
    assert_serde_across_through(ein, eout, item)
}

/// Check one codec against itself on one value: its encoding of the value
/// must decode back to an equal value.
pub fn assert_serde_through<E, T>(codec: &E, item: &T) -> (r: bool)
    where E: ByteSerialize<T> + ByteDeserialize<T>, T: ValueEq,
    requires
        codec.spec_encode(item.deep_view()).len() <= u64::MAX,
    ensures
        r <==> (codec.spec_decode(codec.spec_encode(item.deep_view())) matches Some((n, w))
            && w == item.deep_view()),
{
    assert_serde_across_through(codec, codec, item)
}

/// Check one round-tripping codec against itself on one value. For a value
/// the codec encodes faithfully, this check is proven to pass.
pub fn assert_serde<E, T>(codec: &E, item: &T) -> (r: bool)
    where E: ByteSerde<T>, T: ValueEq,
    requires
        codec.spec_encode(item.deep_view()).len() <= u64::MAX,
    ensures
        r <==> (codec.spec_decode(codec.spec_encode(item.deep_view())) matches Some((n, w))
            && w == item.deep_view()),
        codec.spec_wf(item.deep_view()) ==> r,
{
    proof {
        if codec.spec_wf(item.deep_view()) {
            codec.lemma_round_trip(item.deep_view(), Seq::empty());
            assert(codec.spec_encode(item.deep_view()) + Seq::<u8>::empty() =~= codec.spec_encode(
                item.deep_view(),
            ));
        }
    }
    assert_serde_through(codec, item)
}

} // verus!
