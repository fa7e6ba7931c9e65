use vstd::prelude::*;

verus! {

/// The ASCII digits of a number, most significant first.
pub open spec fn decimal(n: nat) -> Seq<u8>
    decreases n,
{
    if n < 10 {
        seq![(48 + n) as u8]
    } else {
        decimal(n / 10).push((48 + n % 10) as u8)
    }
}

/// An ASCII digit.
pub open spec fn is_digit(c: u8) -> bool {
    48 <= c && c <= 57
}

/// The number that a sequence of ASCII digits writes.
pub open spec fn digits_value(b: Seq<u8>) -> nat
    decreases b.len(),
{
    if b.len() == 0 {
        0
    } else {
        digits_value(b.drop_last()) * 10 + (b.last() - 48) as nat
    }
}

/// A non-empty sequence of ASCII digits.
pub open spec fn is_decimal(b: Seq<u8>) -> bool {
    b.len() > 0 && forall|i: int| 0 <= i < b.len() ==> is_digit(#[trigger] b[i])
}

/// A byte sequence without its trailing newlines.
pub open spec fn trim_newlines(b: Seq<u8>) -> Seq<u8>
    decreases b.len(),
{
    if b.len() > 0 && b.last() == 10 {
        trim_newlines(b.drop_last())
    } else {
        b
    }
}

/// The bytes after the last newline.
pub open spec fn tail_line(b: Seq<u8>) -> Seq<u8>
    decreases b.len(),
{
    if b.len() == 0 || b.last() == 10 {
        Seq::empty()
    } else {
        tail_line(b.drop_last()).push(b.last())
    }
}

/// The last non-empty line of a newline-delimited text.
pub open spec fn last_line(b: Seq<u8>) -> Seq<u8> {
    tail_line(trim_newlines(b))
}

/// A number's digits are digits, and they write that number.
pub proof fn lemma_decimal(n: nat)
    ensures
        is_decimal(decimal(n)),
        digits_value(decimal(n)) == n,
    decreases n,
{
    if n >= 10 {
        lemma_decimal(n / 10);
        let d = decimal(n);
        assert(d.drop_last() == decimal(n / 10));
        assert(forall|i: int| 0 <= i < d.len() - 1 ==> d[i] == decimal(n / 10)[i]);
        assert((n / 10) * 10 + n % 10 == n);
        assert(0 <= n % 10 < 10);
        assert(d.last() == (48 + n % 10) as u8);
        assert(d.last() as int - 48 == n % 10);
        assert(digits_value(d) == digits_value(d.drop_last()) * 10 + (d.last() - 48) as nat);
    } else {
        let d = decimal(n);
        assert(d.drop_last() =~= Seq::<u8>::empty());
        assert(digits_value(d.drop_last()) == 0);
        assert(d.last() == (48 + n) as u8);
    }
}

/// The bytes after a newline, when they hold no newline, are the last line.
pub proof fn lemma_tail_line_after_newline(prev: Seq<u8>, d: Seq<u8>)
    requires
        prev.len() == 0 || prev.last() == 10,
        forall|i: int| 0 <= i < d.len() ==> #[trigger] d[i] != 10,
    ensures
        tail_line(prev + d) == d,
    decreases d.len(),
{
    if d.len() == 0 {
        assert(prev + d =~= prev);
    } else {
        assert((prev + d).drop_last() =~= prev + d.drop_last());
        lemma_tail_line_after_newline(prev, d.drop_last());
        assert(d.drop_last().push(d.last()) =~= d);
    }
}

/// A progress line read back, after any earlier whole lines, gives the count that was written.
pub proof fn lemma_progress_round_trip(prev: Seq<u8>, n: usize)
    requires
        prev.len() == 0 || prev.last() == 10,
    ensures
        last_line(prev + decimal(n as nat).push(10)) == decimal(n as nat),
        is_decimal(decimal(n as nat)),
        digits_value(decimal(n as nat)) == n,
{
    let d = decimal(n as nat);
    lemma_decimal(n as nat);
    let w = prev + d.push(10);
    assert(w.drop_last() =~= prev + d);
    assert(w.last() == 10);
    assert((prev + d).last() == d.last());
    assert(trim_newlines(prev + d) == prev + d);
    lemma_tail_line_after_newline(prev, d);
}

/// Writes a progress count as one line of text: its digits, then a newline.
pub fn progress_line(n: usize) -> (r: Vec<u8>)
    ensures
        r@ == decimal(n as nat).push(10),
{
    let mut out: Vec<u8> = Vec::new();
    push_decimal(n, &mut out);
    out.push(10);
    out
}

fn push_decimal(n: usize, out: &mut Vec<u8>)
    ensures
        final(out)@ == old(out)@ + decimal(n as nat),
    decreases n,
{
    if n >= 10 {
        push_decimal(n / 10, out);
    }
    let d = (n % 10) as u8;
    out.push(48 + d);
    proof {
        assert(final(out)@ =~= old(out)@ + decimal(n as nat));
    }
}

/// Reads a number written in ASCII digits; fails on an empty text, on any other byte, and on
/// a number too large for `usize`.
pub fn parse_decimal(b: &[u8]) -> (r: Option<usize>)
    ensures
        r == (if is_decimal(b@) && digits_value(b@) <= usize::MAX {
            Some(digits_value(b@) as usize)
        } else {
            None::<usize>
        }),
{
    if b.len() == 0 {
        return None;
    }
    let mut n: usize = 0;
    let mut i: usize = 0;
    while i < b.len()
        invariant
            0 <= i <= b@.len(),
            forall|j: int| 0 <= j < i ==> is_digit(#[trigger] b@[j]),
            n == digits_value(b@.take(i as int)),
        decreases b@.len() - i,
    {
        let c = b[i];
        proof {
            assert(b@.take(i + 1).drop_last() =~= b@.take(i as int));
        }
        if c < 48 || c > 57 {
            return None;
        }
        let m = n.checked_mul(10);
        match m {
            None => {
                proof {
                    lemma_digits_value_prefix(b@, i + 1);
                    assert(b@.take(b@.len() as int) =~= b@);
                }
                return None;
            },
            Some(m) => {
                let s = m.checked_add((c - 48) as usize);
                match s {
                    None => {
                        proof {
                            lemma_digits_value_prefix(b@, i + 1);
                            assert(b@.take(b@.len() as int) =~= b@);
                        }
                        return None;
                    },
                    Some(s) => {
                        n = s;
                    },
                }
            },
        }
        i = i + 1;
    }
    proof {
        assert(b@.take(b@.len() as int) =~= b@);
    }
    Some(n)
}

/// A longer run of digits writes a number at least as large as its prefix.
pub proof fn lemma_digits_value_prefix(b: Seq<u8>, k: int)
    requires
        0 <= k <= b.len(),
    ensures
        digits_value(b.take(k)) <= digits_value(b),
    decreases b.len(),
{
    if k < b.len() {
        assert(b.drop_last().take(k) =~= b.take(k));
        lemma_digits_value_prefix(b.drop_last(), k);
    } else {
        assert(b.take(k) =~= b);
    }
}

/// The latest count in a chunk of progress lines: the number on its last non-empty line.
pub fn latest_progress(chunk: &[u8]) -> (r: Option<usize>)
    ensures
        r == (if is_decimal(last_line(chunk@)) && digits_value(last_line(chunk@)) <= usize::MAX {
            Some(digits_value(last_line(chunk@)) as usize)
        } else {
            None::<usize>
        }),
{
    let mut end: usize = chunk.len();
    proof {
        assert(chunk@.take(end as int) =~= chunk@);
    }
    while end > 0 && chunk[end - 1] == 10
        invariant
            0 <= end <= chunk@.len(),
            trim_newlines(chunk@) == trim_newlines(chunk@.take(end as int)),
        decreases end,
    {
        proof {
            assert(chunk@.take(end as int).drop_last() =~= chunk@.take(end - 1));
        }
        end = end - 1;
    }
    let ghost t = chunk@.take(end as int);
    proof {
        assert(trim_newlines(t) == t);
    }
    let mut start: usize = end;
    while start > 0 && chunk[start - 1] != 10
        invariant
            0 <= start <= end <= chunk@.len(),
            t == chunk@.take(end as int),
            tail_line(t) == tail_line(chunk@.take(start as int)) + chunk@.subrange(start as int, end as int),
        decreases start,
    {
        proof {
            let p = chunk@.take(start as int);
            assert(p.drop_last() =~= chunk@.take(start - 1));
            assert(chunk@.subrange(start - 1, end as int) =~= seq![p.last()] + chunk@.subrange(start as int, end as int));
            assert(tail_line(p) == tail_line(p.drop_last()).push(p.last()));
            assert(tail_line(p) + chunk@.subrange(start as int, end as int) =~= tail_line(chunk@.take(start - 1)) + chunk@.subrange(start - 1, end as int));
        }
        start = start - 1;
    }
    proof {
        assert(tail_line(chunk@.take(start as int)) =~= Seq::<u8>::empty());
        assert(last_line(chunk@) =~= chunk@.subrange(start as int, end as int));
    }
    parse_decimal(vstd::slice::slice_subrange(chunk, start, end))
}

} // verus!
