use vstd::bytes::*;
use vstd::prelude::*;
use vstd::slice::*;

verus! {

/// One field on the wire: its length as eight little-endian bytes, then its bytes.
pub open spec fn frame_field(f: Seq<u8>) -> Seq<u8> {
    spec_u64_to_le_bytes(f.len() as u64) + f
}

/// A sequence of fields on the wire: each field framed, one after the other.
pub open spec fn frame_fields(fs: Seq<Seq<u8>>) -> Seq<u8>
    decreases fs.len(),
{
    if fs.len() == 0 {
        Seq::empty()
    } else {
        frame_field(fs[0]) + frame_fields(fs.drop_first())
    }
}

/// Every field is short enough for its length to be written in eight bytes.
pub open spec fn fields_fit(fs: Seq<Seq<u8>>) -> bool {
    forall|i: int| 0 <= i < fs.len() ==> #[trigger] fs[i].len() <= u64::MAX
}

/// Framing a sequence with one more field appends that field's frame.
pub proof fn lemma_frame_fields_push(fs: Seq<Seq<u8>>, f: Seq<u8>)
    ensures
        frame_fields(fs.push(f)) == frame_fields(fs) + frame_field(f),
    decreases fs.len(),
{
    if fs.len() == 0 {
        assert(fs.push(f).drop_first() =~= Seq::<Seq<u8>>::empty());
        assert(fs.push(f)[0] == f);
        assert(frame_fields(fs.push(f).drop_first()) == Seq::<u8>::empty());
        assert(frame_fields(fs.push(f)) =~= frame_fields(fs) + frame_field(f));
    } else {
        assert(fs.push(f).drop_first() =~= fs.drop_first().push(f));
        lemma_frame_fields_push(fs.drop_first(), f);
        assert(frame_fields(fs.push(f)) =~= frame_fields(fs) + frame_field(f));
    }
}

/// Writes each field framed, in order.
pub fn encode_fields(fs: &Vec<Vec<u8>>) -> (r: Vec<u8>)
    ensures
        r@ == frame_fields(fs.deep_view()),
        fields_fit(fs.deep_view()),
{
    let mut out: Vec<u8> = Vec::new();
    let mut i: usize = 0;
    while i < fs.len()
        invariant
            0 <= i <= fs.len(),
            out@ == frame_fields(fs.deep_view().take(i as int)),
            fields_fit(fs.deep_view().take(i as int)),
        decreases fs.len() - i,
    {
        let f = &fs[i];
        let mut head = u64_to_le_bytes(f.len() as u64);
        out.append(&mut head);
        let mut j: usize = 0;
        while j < f.len()
            invariant
                0 <= j <= f.len(),
                f@ == fs.deep_view()[i as int],
                out@ == frame_fields(fs.deep_view().take(i as int)) + spec_u64_to_le_bytes(
                    f.len() as u64,
                ) + f@.take(j as int),
            decreases f.len() - j,
        {
            out.push(f[j]);
            proof {
                assert(f@.take(j as int + 1) =~= f@.take(j as int).push(f@[j as int]));
            }
            j = j + 1;
        }
        proof {
            let dv = fs.deep_view();
            assert(f@.take(f.len() as int) =~= f@);
            assert(dv.take(i as int + 1) =~= dv.take(i as int).push(dv[i as int]));
            lemma_frame_fields_push(dv.take(i as int), dv[i as int]);
            assert(out@ =~= frame_fields(dv.take(i as int + 1)));
        }
        i = i + 1;
    }
    proof {
        assert(fs.deep_view().take(fs.len() as int) =~= fs.deep_view());
    }
    out
}

/// What the front of a framed sequence holds: the first field's length, then its bytes,
/// then the frames of the rest.
pub proof fn lemma_frame_fields_head(fs: Seq<Seq<u8>>)
    requires
        fs.len() > 0,
    ensures
        frame_fields(fs).len() == 8 + fs[0].len() + frame_fields(fs.drop_first()).len(),
        frame_fields(fs).take(8) == spec_u64_to_le_bytes(fs[0].len() as u64),
        frame_fields(fs).subrange(8, 8 + fs[0].len() as int) == fs[0],
        frame_fields(fs).skip(8 + fs[0].len() as int) == frame_fields(fs.drop_first()),
{
    lemma_auto_spec_u64_to_from_le_bytes();
    let w = frame_fields(fs);
    let h = spec_u64_to_le_bytes(fs[0].len() as u64);
    assert(h.len() == 8);
    assert(w =~= h + fs[0] + frame_fields(fs.drop_first()));
    assert(w.take(8) =~= h);
    assert(w.subrange(8, 8 + fs[0].len() as int) =~= fs[0]);
    assert(w.skip(8 + fs[0].len() as int) =~= frame_fields(fs.drop_first()));
}

/// Two sequences of fields with the same frames are the same sequence.
pub proof fn lemma_frame_fields_injective(a: Seq<Seq<u8>>, b: Seq<Seq<u8>>)
    requires
        fields_fit(a),
        fields_fit(b),
        frame_fields(a) == frame_fields(b),
    ensures
        a == b,
    decreases a.len(),
{
    lemma_auto_spec_u64_to_from_le_bytes();
    if a.len() == 0 {
        if b.len() > 0 {
            lemma_frame_fields_head(b);
        }
        assert(a =~= b);
    } else {
        lemma_frame_fields_head(a);
        if b.len() == 0 {
            assert(frame_fields(b).len() == 0);
        } else {
            lemma_frame_fields_head(b);
            let la = a[0].len() as u64;
            let lb = b[0].len() as u64;
            assert(spec_u64_from_le_bytes(spec_u64_to_le_bytes(la)) == la);
            assert(spec_u64_from_le_bytes(spec_u64_to_le_bytes(lb)) == lb);
            assert(a[0].len() == b[0].len());
            assert(fields_fit(a.drop_first()));
            assert(fields_fit(b.drop_first()));
            lemma_frame_fields_injective(a.drop_first(), b.drop_first());
            assert(a =~= seq![a[0]] + a.drop_first());
            assert(b =~= seq![b[0]] + b.drop_first());
        }
    }
}

/// Reads a framed sequence of fields back; fails when the bytes are not such a sequence.
pub fn decode_fields(b: &[u8]) -> (r: Option<Vec<Vec<u8>>>)
    ensures
        r matches Some(fs) ==> frame_fields(fs.deep_view()) == b@ && fields_fit(fs.deep_view()),
        forall|fs: Seq<Seq<u8>>|
            #[trigger] frame_fields(fs) == b@ && fields_fit(fs) ==> (r matches Some(x)
                && x.deep_view() == fs),
{
    proof {
        lemma_auto_spec_u64_to_from_le_bytes();
    }
    let mut acc: Vec<Vec<u8>> = Vec::new();
    let mut pos: usize = 0;
    proof {
        assert(acc.deep_view() =~= Seq::<Seq<u8>>::empty());
        assert(b@.take(0) =~= Seq::<u8>::empty());
        assert(b@.skip(0) =~= b@);
        assert forall|fs: Seq<Seq<u8>>|
            #[trigger] frame_fields(fs) == b@ && fields_fit(fs) implies fs.take(0)
            == acc.deep_view() && fs.skip(0) == fs by {
            assert(fs.take(0) =~= Seq::<Seq<u8>>::empty());
            assert(fs.skip(0) =~= fs);
        }
    }
    while pos < b.len()
        invariant
            pos <= b@.len(),
            b@.take(pos as int) == frame_fields(acc.deep_view()),
            fields_fit(acc.deep_view()),
            forall|fs: Seq<Seq<u8>>|
                #[trigger] frame_fields(fs) == b@ && fields_fit(fs) ==> {
                    &&& acc.len() <= fs.len()
                    &&& fs.take(acc.len() as int) == acc.deep_view()
                    &&& b@.skip(pos as int) == frame_fields(fs.skip(acc.len() as int))
                },
        decreases b@.len() - pos,
    {
        proof {
            lemma_auto_spec_u64_to_from_le_bytes();
        }
        let k = acc.len();
        if b.len() - pos < 8 {
            proof {
                assert forall|fs: Seq<Seq<u8>>|
                    #[trigger] frame_fields(fs) == b@ && fields_fit(fs) implies false by {
                    let rest = fs.skip(k as int);
                    if rest.len() > 0 {
                        lemma_frame_fields_head(rest);
                    }
                }
            }
            return None;
        }
        let n = u64_from_le_bytes(slice_subrange(b, pos, pos + 8));
        if ((b.len() - pos - 8) as u64) < n {
            proof {
                assert forall|fs: Seq<Seq<u8>>|
                    #[trigger] frame_fields(fs) == b@ && fields_fit(fs) implies false by {
                    let rest = fs.skip(k as int);
                    if rest.len() > 0 {
                        lemma_frame_fields_head(rest);
                        assert(rest[0] == fs[k as int]);
                        assert(b@.subrange(pos as int, pos + 8) =~= b@.skip(pos as int).take(8));
                        let l = rest[0].len() as u64;
                        assert(spec_u64_from_le_bytes(spec_u64_to_le_bytes(l)) == l);
                        assert(l == rest[0].len());
                    }
                }
            }
            return None;
        }
        let start = pos + 8;
        let end = start + n as usize;
        let field = slice_to_vec(slice_subrange(b, start, end));
        proof {
            let head = b@.subrange(pos as int, pos + 8);
            assert(head.len() == 8);
            assert(spec_u64_to_le_bytes(spec_u64_from_le_bytes(head)) == head);
            assert(b@.take(end as int) =~= b@.take(pos as int) + head + field@);
            assert(field@.len() as u64 == n);
            assert(field.deep_view() =~= field@);
            assert(head == spec_u64_to_le_bytes(field@.len() as u64));
            lemma_frame_fields_push(acc.deep_view(), field@);
            assert(b@.take(end as int) == frame_fields(acc.deep_view().push(field@)));
            assert forall|fs: Seq<Seq<u8>>|
                #[trigger] frame_fields(fs) == b@ && fields_fit(fs) implies {
                    &&& k + 1 <= fs.len()
                    &&& fs.take(k + 1) == acc.deep_view().push(field@)
                    &&& b@.skip(end as int) == frame_fields(fs.skip(k + 1))
                } by {
                let rest = fs.skip(k as int);
                if rest.len() == 0 {
                    assert(b@.skip(pos as int).len() == 0);
                }
                lemma_frame_fields_head(rest);
                assert(rest[0] == fs[k as int]);
                assert(b@.subrange(pos as int, pos + 8) =~= b@.skip(pos as int).take(8));
                assert(fs[k as int].len() <= u64::MAX);
                assert(field@ =~= b@.skip(pos as int).subrange(8, 8 + rest[0].len() as int));
                assert(fs.take(k + 1) =~= fs.take(k as int).push(fs[k as int]));
                assert(rest.drop_first() =~= fs.skip(k + 1));
                assert(b@.skip(end as int) =~= b@.skip(pos as int).skip(8 + rest[0].len() as int));
            }
        }
        let ghost old_dv = acc.deep_view();
        let ghost fv = field.deep_view();
        acc.push(field);
        proof {
            assert(acc.deep_view() =~= old_dv.push(fv));
        }
        pos = end;
    }
    proof {
        assert(b@.take(b@.len() as int) =~= b@);
        assert forall|fs: Seq<Seq<u8>>|
            #[trigger] frame_fields(fs) == b@ && fields_fit(fs) implies acc.deep_view() == fs by {
            let rest = fs.skip(acc.len() as int);
            if rest.len() > 0 {
                lemma_frame_fields_head(rest);
            }
            assert(fs.take(acc.len() as int) =~= fs);
        }
    }
    Some(acc)
}

} // verus!
