use crate::codec::bad_response_detail;
use crate::error::{ErrorKind, CallError, FromServerFnError};
use crate::frame::fields_fit;
use crate::payload::{decode_payload, decoded, encode_payload, lemma_round_trip, wire_of, Payload};
use vstd::prelude::*;

verus! {

/// The items a client reads from a stream of chunks: each chunk decoded in order, up to the
/// first chunk that does not decode.
pub open spec fn stream_prefix<T: Payload>(chunks: Seq<Seq<u8>>) -> Seq<T::V>
    decreases chunks.len(),
{
    if chunks.len() == 0 {
        Seq::empty()
    } else {
        let p = stream_prefix::<T>(chunks.drop_last());
        if p.len() == chunks.len() - 1 && decoded::<T>(chunks.last()) is Some {
            p.push(decoded::<T>(chunks.last())->0)
        } else {
            p
        }
    }
}

/// The chunks of a stream of values.
pub open spec fn stream_chunks<T: Payload>(vs: Seq<T::V>) -> Seq<Seq<u8>> {
    vs.map_values(|v: T::V| wire_of::<T>(v))
}

/// The views of a vector's items.
pub open spec fn views<T: View>(xs: Seq<T>) -> Seq<T::V> {
    xs.map_values(|x: T| x@)
}

pub proof fn lemma_stream_prefix_len<T: Payload>(chunks: Seq<Seq<u8>>)
    ensures
        stream_prefix::<T>(chunks).len() <= chunks.len(),
    decreases chunks.len(),
{
    if chunks.len() > 0 {
        lemma_stream_prefix_len::<T>(chunks.drop_last());
    }
}

/// Once a chunk fails, no later chunk adds an item.
pub proof fn lemma_stream_stops<T: Payload>(chunks: Seq<Seq<u8>>, k: int)
    requires
        0 <= k <= chunks.len(),
        stream_prefix::<T>(chunks.take(k)).len() < k,
    ensures
        stream_prefix::<T>(chunks) == stream_prefix::<T>(chunks.take(k)),
    decreases chunks.len(),
{
    if chunks.len() == k {
        assert(chunks.take(k) =~= chunks);
    } else {
        assert(chunks.drop_last().take(k) =~= chunks.take(k));
        lemma_stream_stops::<T>(chunks.drop_last(), k);
    }
}

/// A stream of N encoded values reads back as exactly those N values, in order.
pub proof fn lemma_stream_all<T: Payload>(vs: Seq<T::V>)
    requires
        forall|i: int| 0 <= i < vs.len() ==> fields_fit(T::fields_of(#[trigger] vs[i])),
    ensures
        stream_prefix::<T>(stream_chunks::<T>(vs)) == vs,
    decreases vs.len(),
{
    if vs.len() > 0 {
        let c = stream_chunks::<T>(vs);
        assert(c.drop_last() =~= stream_chunks::<T>(vs.drop_last()));
        lemma_stream_all::<T>(vs.drop_last());
        lemma_round_trip::<T>(vs.last());
        assert(stream_prefix::<T>(c) =~= vs);
    }
}

/// A chunk that fails mid-stream ends the stream: the items before it are all read, and
/// nothing after it.
pub proof fn lemma_stream_failure<T: Payload>(good: Seq<T::V>, bad: Seq<u8>, rest: Seq<Seq<u8>>)
    requires
        forall|i: int| 0 <= i < good.len() ==> fields_fit(T::fields_of(#[trigger] good[i])),
        decoded::<T>(bad) is None,
    ensures
        stream_prefix::<T>(stream_chunks::<T>(good) + seq![bad] + rest) == good,
{
    let c = stream_chunks::<T>(good) + seq![bad] + rest;
    let n = good.len() as int;
    lemma_stream_all::<T>(good);
    assert(c.take(n) =~= stream_chunks::<T>(good));
    assert(c.take(n + 1).drop_last() =~= c.take(n));
    assert(c.take(n + 1).last() == bad);
    lemma_stream_stops::<T>(c, n + 1);
}

/// Server side: one chunk for each value, in order.
pub fn encode_stream<T: Payload>(items: &Vec<T>) -> (r: Vec<Vec<u8>>)
    ensures
        r.deep_view() == stream_chunks::<T>(views(items@)),
        forall|i: int| 0 <= i < items.len() ==> fields_fit(T::fields_of(#[trigger] items@[i]@)),
{
    let mut r: Vec<Vec<u8>> = Vec::new();
    let mut i: usize = 0;
    while i < items.len()
        invariant
            0 <= i <= items.len(),
            r.deep_view() == stream_chunks::<T>(views(items@.take(i as int))),
            forall|j: int| 0 <= j < i ==> fields_fit(T::fields_of(#[trigger] items@[j]@)),
        decreases items.len() - i,
    {
        let chunk = encode_payload(&items[i]);
        let ghost before = r.deep_view();
        let ghost cv = chunk.deep_view();
        proof {
            assert(cv =~= chunk@);
        }
        r.push(chunk);
        proof {
            assert(r.deep_view() =~= before.push(cv));
            assert(stream_chunks::<T>(views(items@.take(i + 1))) =~= before.push(cv));
        }
        i = i + 1;
    }
    proof {
        assert(items@.take(items.len() as int) =~= items@);
    }
    r
}

/// Client side: decodes the chunks of a streamed response in order. The first chunk that
/// does not decode ends the stream with a `Deserialization` failure; the items before it
/// are kept.
pub fn decode_stream<T: Payload, E: FromServerFnError>(chunks: &Vec<Vec<u8>>) -> (r: (Vec<T>, Option<E>))
    ensures
        views(r.0@) == stream_prefix::<T>(chunks.deep_view()),
        r.1 is Some <==> r.0.len() < chunks.len(),
        r.1 matches Some(e) ==> e@ == E::from_server_fn_error_spec((ErrorKind::Deserialization, bad_response_detail())),
{
    let mut items: Vec<T> = Vec::new();
    let mut i: usize = 0;
    while i < chunks.len()
        invariant
            0 <= i <= chunks.len(),
            items.len() == i,
            views(items@) == stream_prefix::<T>(chunks.deep_view().take(i as int)),
        decreases chunks.len() - i,
    {
        let ghost c = chunks.deep_view();
        proof {
            assert(c.take(i + 1).drop_last() =~= c.take(i as int));
            assert(c.take(i + 1).last() == chunks[i as int]@);
            assert(c[i as int] =~= chunks[i as int]@);
        }
        match decode_payload::<T>(chunks[i].as_slice()) {
            Some(x) => {
                let ghost before = items@;
                items.push(x);
                proof {
                    assert(views(items@) =~= views(before).push(items@[i as int]@));
                }
            },
            None => {
                proof {
                    lemma_stream_stops::<T>(c, i + 1);
                    lemma_stream_prefix_len::<T>(c.take(i as int));
                }
                let e = E::from_server_fn_error(CallError::new(ErrorKind::Deserialization, "could not decode the response".to_owned()));
                return (items, Some(e));
            },
        }
        i = i + 1;
    }
    proof {
        assert(chunks.deep_view().take(chunks.len() as int) =~= chunks.deep_view());
    }
    (items, None)
}

} // verus!
