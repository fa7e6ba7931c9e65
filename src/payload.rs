use crate::frame::{decode_fields, encode_fields, fields_fit, frame_fields, lemma_frame_fields_injective};
use vstd::bytes::*;
use vstd::prelude::*;
use vstd::slice::*;
use vstd::utf8::*;

verus! {

broadcast use {encode_utf8_valid_utf8, encode_utf8_decode_utf8};

/// A value that crosses the call boundary as a sequence of byte fields.
pub trait Payload: Sized + View {
    /// The fields that stand for a value on the wire.
    spec fn fields_of(v: Self::V) -> Seq<Seq<u8>>;

    /// Distinct values have distinct fields.
    proof fn lemma_fields_injective(a: Self::V, b: Self::V)
        requires
            Self::fields_of(a) == Self::fields_of(b),
        ensures
            a == b,
    ;

    fn to_fields(&self) -> (r: Vec<Vec<u8>>)
        ensures
            r.deep_view() == Self::fields_of(self@),
    ;

    /// Reads a value back from its fields; fails on fields that no value has.
    fn from_fields(fs: &Vec<Vec<u8>>) -> (r: Option<Self>)
        ensures
            r matches Some(x) ==> Self::fields_of(x@) == fs.deep_view(),
            r is None ==> forall|v: Self::V| Self::fields_of(v) != fs.deep_view(),
    ;
}

/// The bytes of a value on the wire.
pub open spec fn wire_of<T: Payload>(v: T::V) -> Seq<u8> {
    frame_fields(T::fields_of(v))
}

/// The value that a byte sequence stands for, if any.
pub open spec fn decoded<T: Payload>(b: Seq<u8>) -> Option<T::V> {
    if exists|v: T::V| fields_fit(T::fields_of(v)) && #[trigger] wire_of::<T>(v) == b {
        Some(choose|v: T::V| fields_fit(T::fields_of(v)) && #[trigger] wire_of::<T>(v) == b)
    } else {
        None
    }
}

/// Decoding what a value was encoded to gives that value back.
pub proof fn lemma_round_trip<T: Payload>(v: T::V)
    requires
        fields_fit(T::fields_of(v)),
    ensures
        decoded::<T>(wire_of::<T>(v)) == Some(v),
{
    let b = wire_of::<T>(v);
    assert(fields_fit(T::fields_of(v)) && wire_of::<T>(v) == b);
    let w = choose|w: T::V| fields_fit(T::fields_of(w)) && #[trigger] wire_of::<T>(w) == b;
    lemma_frame_fields_injective(T::fields_of(w), T::fields_of(v));
    T::lemma_fields_injective(w, v);
}

/// Encoding is a function of the value alone: equal values give identical bytes.
pub proof fn lemma_encode_deterministic<T: Payload>(a: T::V, b: T::V)
    requires
        a == b,
    ensures
        wire_of::<T>(a) == wire_of::<T>(b),
{
}

/// Encodes a value to its bytes on the wire.
pub fn encode_payload<T: Payload>(v: &T) -> (r: Vec<u8>)
    ensures
        r@ == wire_of::<T>(v@),
        fields_fit(T::fields_of(v@)),
{
    let fs = v.to_fields();
    encode_fields(&fs)
}

/// Decodes a value from its bytes on the wire.
pub fn decode_payload<T: Payload>(b: &[u8]) -> (r: Option<T>)
    ensures
        r matches Some(x) ==> decoded::<T>(b@) == Some(x@),
        r is None ==> decoded::<T>(b@) is None,
{
    match decode_fields(b) {
        None => {
            proof {
                assert forall|v: T::V| !(fields_fit(T::fields_of(v)) && #[trigger] wire_of::<T>(v)
                    == b@) by {}
            }
            None
        },
        Some(fs) => {
            let r = T::from_fields(&fs);
            proof {
                if r is Some {
                    lemma_round_trip::<T>(r->0@);
                } else {
                        assert forall|v: T::V| !(fields_fit(T::fields_of(v)) && #[trigger] wire_of::<
                            T,
                        >(v) == b@) by {
                            if fields_fit(T::fields_of(v)) && wire_of::<T>(v) == b@ {
                                lemma_frame_fields_injective(T::fields_of(v), fs.deep_view());
                            }
                        }
                }
            }
            r
        },
    }
}

/// A byte vector's deep view is its view.
pub proof fn lemma_bytes_deep_view(v: &Vec<u8>)
    ensures
        v.deep_view() == v@,
{
    assert(v.deep_view() =~= v@);
}

/// The UTF-8 bytes of a string.
pub fn string_bytes(s: &String) -> (r: Vec<u8>)
    ensures
        r@ == encode_utf8(s@),
{
    slice_to_vec(s.as_str().as_bytes())
}

/// Relies on `String::from_utf8`: it succeeds exactly on valid UTF-8 and keeps the characters
/// that the bytes encode.
#[verifier::external_body]
fn string_from_utf8(b: Vec<u8>) -> (r: Option<String>)
    ensures
        r is Some <==> valid_utf8(b@),
        r matches Some(s) ==> s@ == decode_utf8(b@),
{
    String::from_utf8(b).ok()
}

/// Reads a string from its UTF-8 bytes.
pub fn string_from_bytes(b: &Vec<u8>) -> (r: Option<String>)
    ensures
        r matches Some(s) ==> encode_utf8(s@) == b@,
        r is None ==> forall|c: Seq<char>| encode_utf8(c) != b@,
{
    let r = string_from_utf8(b.clone());
    proof {
        if valid_utf8(b@) {
            decode_utf8_encode_utf8(b@);
        }
    }
    r
}

impl Payload for String {
    open spec fn fields_of(v: Seq<char>) -> Seq<Seq<u8>> {
        seq![encode_utf8(v)]
    }

    proof fn lemma_fields_injective(a: Seq<char>, b: Seq<char>) {
        assert(Self::fields_of(a)[0] == Self::fields_of(b)[0]);
        encode_utf8_decode_utf8(a);
        encode_utf8_decode_utf8(b);
    }

    fn to_fields(&self) -> (r: Vec<Vec<u8>>) {
        let r = vec![string_bytes(self)];
        proof {
            lemma_bytes_deep_view(&r[0]);
            assert(r.deep_view() =~= Self::fields_of(self@));
        }
        r
    }

    fn from_fields(fs: &Vec<Vec<u8>>) -> (r: Option<String>) {
        if fs.len() != 1 {
            proof {
                assert forall|v: Self::V| Self::fields_of(v) != fs.deep_view() by {
                    assert(Self::fields_of(v).len() == 1);
                    assert(fs.deep_view().len() == fs.len());
                }
            }
            return None;
        }
        let r = string_from_bytes(&fs[0]);
        proof {
            lemma_bytes_deep_view(&fs[0]);
            assert(fs.deep_view()[0] == fs[0]@);
            if r is Some {
                    assert(Self::fields_of(r->0@) =~= fs.deep_view());
            } else {
                    assert forall|v: Seq<char>| Self::fields_of(v) != fs.deep_view() by {
                        if Self::fields_of(v) == fs.deep_view() {
                            assert(Self::fields_of(v)[0] == encode_utf8(v));
                        }
                    }
            }
        }
        r
    }
}

impl Payload for usize {
    open spec fn fields_of(v: usize) -> Seq<Seq<u8>> {
        seq![spec_u64_to_le_bytes(v as u64)]
    }

    proof fn lemma_fields_injective(a: usize, b: usize) {
        lemma_auto_spec_u64_to_from_le_bytes();
        assert(Self::fields_of(a)[0] == Self::fields_of(b)[0]);
        assert(spec_u64_from_le_bytes(spec_u64_to_le_bytes(a as u64)) == a as u64);
        assert(spec_u64_from_le_bytes(spec_u64_to_le_bytes(b as u64)) == b as u64);
    }

    fn to_fields(&self) -> (r: Vec<Vec<u8>>) {
        let r = vec![u64_to_le_bytes(*self as u64)];
        proof {
            lemma_bytes_deep_view(&r[0]);
            assert(r.deep_view() =~= Self::fields_of(*self));
        }
        r
    }

    fn from_fields(fs: &Vec<Vec<u8>>) -> (r: Option<usize>) {
        proof {
            lemma_auto_spec_u64_to_from_le_bytes();
        }
        if fs.len() != 1 {
            proof {
                assert forall|v: Self::V| Self::fields_of(v) != fs.deep_view() by {
                    assert(Self::fields_of(v).len() == 1);
                    assert(fs.deep_view().len() == fs.len());
                }
            }
            return None;
        }
        proof {
            lemma_bytes_deep_view(&fs[0]);
        }
        if fs[0].len() != 8 {
            proof {
                assert forall|v: usize| Self::fields_of(v) != fs.deep_view() by {
                    if Self::fields_of(v) == fs.deep_view() {
                        assert(fs.deep_view()[0] == fs[0]@);
                    }
                }
            }
            return None;
        }
        let n = u64_from_le_bytes(fs[0].as_slice());
        if n > usize::MAX as u64 {
            proof {
                assert forall|v: usize| Self::fields_of(v) != fs.deep_view() by {
                    if Self::fields_of(v) == fs.deep_view() {
                        assert(fs.deep_view()[0] == fs[0]@);
                        assert(spec_u64_from_le_bytes(spec_u64_to_le_bytes(v as u64)) == v as u64);
                    }
                }
            }
            return None;
        }
        proof {
            assert(Self::fields_of(n as usize) =~= fs.deep_view());
        }
        Some(n as usize)
    }
}

} // verus!
