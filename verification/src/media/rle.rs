//! `.incrle` run-length encoding.
//!
//! The scheme distinguishes *runs* (three or more identical bytes, emitted as a
//! `count`/`value` pair with the high bit clear) from *literals* (buffered runs
//! of one or two distinct bytes, flushed as `0x80 | length` followed by the raw
//! bytes). A terminating `0xFF` marks the end of the stream.

use vstd::prelude::*;

verus! {

/// The length of the leading run of equal bytes in `s`.
pub open spec fn run_len(s: Seq<u8>) -> nat
    decreases s.len(),
{
    if s.len() <= 1 {
        s.len()
    } else if s[1] == s[0] {
        1 + run_len(s.drop_first())
    } else {
        1
    }
}

/// The `count`/`value` pairs for a run of `c` copies of `b`: maximal chunks of
/// `0x7F`, then the remainder.
pub open spec fn run_chunks(b: u8, c: nat) -> Seq<u8>
    decreases c,
{
    if c > 0x7F {
        seq![0x7Fu8, b] + run_chunks(b, (c - 0x7F) as nat)
    } else {
        seq![c as u8, b]
    }
}

/// A buffered literal, flushed as its length header and its bytes.
pub open spec fn literal(run: Seq<u8>) -> Seq<u8> {
    seq![(0x80 + run.len()) as u8] + run
}

/// The encoding of the rest `s` of the input, given the output so far, the
/// buffered literal bytes, and whether a literal is buffered. Runs of three or
/// more flush the buffer and are emitted as pairs; shorter runs are buffered,
/// except that a buffer already longer than `0x7C` is flushed and the short
/// run that found it so is dropped.
pub open spec fn rle_from(s: Seq<u8>, out: Seq<u8>, run: Seq<u8>, has_run: bool) -> Seq<u8>
    decreases s.len(),
{
    if s.len() == 0 {
        (if has_run {
            out + literal(run)
        } else {
            out
        }).push(0xFF)
    } else {
        let c = run_len(s);
        let b = s[0];
        proof {
            lemma_run_len_bounds(s);
        }
        if c == 0 {
            out
        } else if c > 2 {
            let flushed = if has_run {
                out + literal(run)
            } else {
                out
            };
            rle_from(s.skip(c as int), flushed + run_chunks(b, c), Seq::empty(), false)
        } else if !has_run {
            rle_from(s.skip(c as int), out, s.take(c as int), true)
        } else if run.len() > 0x7C {
            rle_from(s.skip(c as int), out + literal(run), Seq::empty(), false)
        } else {
            rle_from(s.skip(c as int), out, run + s.take(c as int), true)
        }
    }
}

/// The `.incrle` encoding of `data`.
pub open spec fn rle_spec(data: Seq<u8>) -> Seq<u8> {
    rle_from(data, Seq::empty(), Seq::empty(), false)
}

/// The encoding of any rest of the input ends with the terminating `0xFF`.
proof fn lemma_rle_from_terminated(s: Seq<u8>, out: Seq<u8>, run: Seq<u8>, has_run: bool)
    ensures
        rle_from(s, out, run, has_run).len() > 0,
        rle_from(s, out, run, has_run).last() == 0xFF,
    decreases s.len(),
{
    lemma_run_len_bounds(s);
    if s.len() > 0 {
        let c = run_len(s);
        let b = s[0];
        if c > 2 {
            let flushed = if has_run {
                out + literal(run)
            } else {
                out
            };
            lemma_rle_from_terminated(s.skip(c as int), flushed + run_chunks(b, c), Seq::empty(), false);
        } else if !has_run {
            lemma_rle_from_terminated(s.skip(c as int), out, s.take(c as int), true);
        } else if run.len() > 0x7C {
            lemma_rle_from_terminated(s.skip(c as int), out + literal(run), Seq::empty(), false);
        } else {
            lemma_rle_from_terminated(s.skip(c as int), out, run + s.take(c as int), true);
        }
    }
}

/// Every encoding ends with the `0xFF` that marks the end of the stream.
pub proof fn lemma_rle_is_terminated(data: Seq<u8>)
    ensures
        rle_spec(data).len() > 0,
        rle_spec(data).last() == 0xFF,
{
    lemma_rle_from_terminated(data, Seq::empty(), Seq::empty(), false);
}

/// Decode an `.incrle` stream: a header `0xFF` ends it; a header below
/// `0x80` repeats the next byte that many times; any other header `h` copies
/// the next `h - 0x80` bytes.
pub open spec fn rle_decode(st: Seq<u8>) -> Seq<u8>
    decreases st.len(),
{
    if st.len() == 0 || st[0] == 0xFF {
        Seq::empty()
    } else if st[0] < 0x80 {
        if st.len() < 2 {
            Seq::empty()
        } else {
            Seq::new(st[0] as nat, |_j: int| st[1]) + rle_decode(st.skip(2))
        }
    } else {
        let n = st[0] - 0x80;
        if st.len() < 1 + n {
            Seq::empty()
        } else {
            st.subrange(1, 1 + n) + rle_decode(st.skip(1 + n))
        }
    }
}

/// Whether encoding the rest `s` from a buffer of `buffered` bytes (`has_run`
/// telling whether one is open) never drops input: no short run arrives
/// while more than `0x7C` bytes are buffered, which holds when every stretch
/// of consecutive runs shorter than three bytes totals at most 125 bytes.
pub open spec fn keeps_all(s: Seq<u8>, buffered: nat, has_run: bool) -> bool
    decreases s.len(),
{
    if s.len() == 0 {
        true
    } else {
        let c = run_len(s);
        proof {
            lemma_run_len_bounds(s);
        }
        if c == 0 {
            true
        } else if c > 2 {
            keeps_all(s.skip(c as int), 0, false)
        } else if !has_run {
            keeps_all(s.skip(c as int), c, true)
        } else if buffered > 0x7C {
            false
        } else {
            keeps_all(s.skip(c as int), buffered + c, true)
        }
    }
}

/// The output so far is a prefix of the encoding.
proof fn lemma_rle_from_prefix(s: Seq<u8>, out: Seq<u8>, run: Seq<u8>, has_run: bool)
    ensures
        rle_from(s, out, run, has_run) == out + rle_from(s, Seq::empty(), run, has_run),
    decreases s.len(),
{
    lemma_run_len_bounds(s);
    if s.len() == 0 {
        if has_run {
            assert((out + literal(run)).push(0xFF) =~= out + (Seq::<u8>::empty() + literal(run)).push(0xFF));
        } else {
            assert(out.push(0xFF) =~= out + Seq::<u8>::empty().push(0xFF));
        }
    } else {
        let c = run_len(s);
        let b = s[0];
        if c > 2 {
            let f1 = if has_run { out + literal(run) } else { out };
            let f0 = if has_run { Seq::<u8>::empty() + literal(run) } else { Seq::<u8>::empty() };
            lemma_rle_from_prefix(s.skip(c as int), f1 + run_chunks(b, c), Seq::empty(), false);
            lemma_rle_from_prefix(s.skip(c as int), f0 + run_chunks(b, c), Seq::empty(), false);
            assert(f1 + run_chunks(b, c) =~= out + (f0 + run_chunks(b, c)));
        } else if !has_run {
            lemma_rle_from_prefix(s.skip(c as int), out, s.take(c as int), true);
        } else if run.len() > 0x7C {
            lemma_rle_from_prefix(s.skip(c as int), out + literal(run), Seq::empty(), false);
            lemma_rle_from_prefix(s.skip(c as int), Seq::<u8>::empty() + literal(run), Seq::empty(), false);
            assert(out + literal(run) =~= out + (Seq::<u8>::empty() + literal(run)));
        } else {
            lemma_rle_from_prefix(s.skip(c as int), out, run + s.take(c as int), true);
        }
    }
}

/// The leading run's bytes are all the first byte.
proof fn lemma_run_len_bytes(s: Seq<u8>)
    ensures
        forall|j: int| 0 <= j < run_len(s) ==> #[trigger] s[j] == s[0],
    decreases s.len(),
{
    lemma_run_len_bounds(s);
    if s.len() > 1 && s[1] == s[0] {
        lemma_run_len_bytes(s.drop_first());
        lemma_run_len_bounds(s.drop_first());
        assert(s.drop_first()[0] == s[0]);
        assert forall|j: int| 0 <= j < run_len(s) implies #[trigger] s[j] == s[0] by {
            if j > 0 {
                assert(s.drop_first()[j - 1] == s[j]);
            }
        }
    }
}

/// A run's pairs decode to the run.
proof fn lemma_decode_chunks(b: u8, c: nat, rest: Seq<u8>)
    requires
        c >= 1,
    ensures
        rle_decode(run_chunks(b, c) + rest) == Seq::new(c, |_j: int| b) + rle_decode(rest),
    decreases c,
{
    let x = run_chunks(b, c) + rest;
    if c > 0x7F {
        lemma_decode_chunks(b, (c - 0x7F) as nat, rest);
        assert(x.skip(2) =~= run_chunks(b, (c - 0x7F) as nat) + rest);
        assert(Seq::new(0x7Fnat, |_j: int| b) + Seq::new((c - 0x7F) as nat, |_j: int| b) =~= Seq::new(
            c,
            |_j: int| b,
        ));
        assert(Seq::new(x[0] as nat, |_j: int| x[1]) =~= Seq::new(0x7Fnat, |_j: int| b));
    } else {
        assert(x.skip(2) =~= rest);
        assert(Seq::new(x[0] as nat, |_j: int| x[1]) =~= Seq::new(c, |_j: int| b));
    }
}

/// A flushed literal decodes to its bytes.
proof fn lemma_decode_literal(run: Seq<u8>, rest: Seq<u8>)
    requires
        run.len() <= 0x7E,
    ensures
        rle_decode(literal(run) + rest) == run + rle_decode(rest),
{
    let x = literal(run) + rest;
    assert(x[0] == (0x80 + run.len()) as u8);
    assert(x[0] - 0x80 == run.len());
    assert(x.subrange(1, 1 + run.len() as int) =~= run);
    assert(x.skip(1 + run.len() as int) =~= rest);
}

/// Decoding the encoding of the rest `s` from buffer `run` gives back the
/// buffer and the rest, when nothing is dropped.
proof fn lemma_round_trip_from(s: Seq<u8>, run: Seq<u8>, has_run: bool)
    requires
        keeps_all(s, run.len(), has_run),
        !has_run ==> run.len() == 0,
        run.len() <= 0x7E,
    ensures
        rle_decode(rle_from(s, Seq::empty(), run, has_run)) == run + s,
    decreases s.len(),
{
    lemma_run_len_bounds(s);
    if s.len() == 0 {
        if has_run {
            assert((Seq::<u8>::empty() + literal(run)).push(0xFF) =~= literal(run) + seq![0xFFu8]);
            lemma_decode_literal(run, seq![0xFFu8]);
        }
        assert(run + s =~= run);
    } else {
        let c = run_len(s);
        let b = s[0];
        lemma_run_len_bytes(s);
        assert(s.take(c as int) + s.skip(c as int) =~= s);
        if c > 2 {
            let f0 = if has_run { Seq::<u8>::empty() + literal(run) } else { Seq::<u8>::empty() };
            lemma_rle_from_prefix(s.skip(c as int), f0 + run_chunks(b, c), Seq::empty(), false);
            lemma_round_trip_from(s.skip(c as int), Seq::empty(), false);
            let tail = rle_from(s.skip(c as int), Seq::empty(), Seq::empty(), false);
            lemma_decode_chunks(b, c, tail);
            assert(Seq::new(c, |_j: int| b) =~= s.take(c as int));
            if has_run {
                assert(f0 + run_chunks(b, c) + tail =~= literal(run) + (run_chunks(b, c) + tail));
                lemma_decode_literal(run, run_chunks(b, c) + tail);
            } else {
                assert(f0 + run_chunks(b, c) + tail =~= run_chunks(b, c) + tail);
            }
            assert(run + (s.take(c as int) + (Seq::<u8>::empty() + s.skip(c as int))) =~= run + s);
        } else if !has_run {
            lemma_round_trip_from(s.skip(c as int), s.take(c as int), true);
            assert(s.take(c as int) + s.skip(c as int) =~= run + s);
        } else {
            lemma_round_trip_from(s.skip(c as int), run + s.take(c as int), true);
            assert(run + s.take(c as int) + s.skip(c as int) =~= run + s);
        }
    }
}

/// The encoding decodes back to the data, whenever the encoder drops
/// nothing: every stretch of consecutive runs shorter than three bytes holds
/// at most 125 bytes. (Past that, the encoder flushes its literal buffer and
/// drops the short run that found it full.)
pub proof fn lemma_rle_round_trip(data: Seq<u8>)
    requires
        keeps_all(data, 0, false),
    ensures
        rle_decode(rle_spec(data)) == data,
{
    lemma_round_trip_from(data, Seq::empty(), false);
    assert(Seq::<u8>::empty() + data =~= data);
}

/// A run is at least one byte long when the input is not empty, and at most
/// the whole input.
pub proof fn lemma_run_len_bounds(s: Seq<u8>)
    ensures
        s.len() > 0 ==> 1 <= run_len(s) <= s.len(),
    decreases s.len(),
{
    if s.len() > 1 && s[1] == s[0] {
        lemma_run_len_bounds(s.drop_first());
    }
}

/// A run of `k` equal bytes ending at the input's end or at a different byte
/// is the leading run.
proof fn lemma_run_len_exact(s: Seq<u8>, k: int)
    requires
        1 <= k <= s.len(),
        forall|j: int| 0 <= j < k ==> #[trigger] s[j] == s[0],
        k < s.len() ==> s[k] != s[0],
    ensures
        run_len(s) == k,
    decreases s.len(),
{
    if k > 1 {
        let t = s.drop_first();
        assert(t[0] == s[0]);
        lemma_run_len_exact(t, k - 1);
    }
}

/// Append `t` to `v`.
fn extend(v: &mut Vec<u8>, t: &[u8])
    ensures
        final(v)@ == old(v)@ + t@,
{
    let mut i: usize = 0;
    while i < t.len()
        invariant
            i <= t.len(),
            v@ == old(v)@ + t@.take(i as int),
        decreases t.len() - i,
    {
        v.push(t[i]);
        assert(old(v)@ + t@.take(i as int).push(t@[i as int]) =~= old(v)@ + t@.take(i + 1));
        i += 1;
    }
    assert(t@.take(t.len() as int) =~= t@);
}

/// No byte repeats more than `u32::MAX` times in a row in `s`: the longest
/// run the encoder counts.
pub open spec fn runs_fit(s: Seq<u8>) -> bool {
    forall|a: int|
        #![trigger s[a]]
        0 <= a && a + u32::MAX < s.len() ==> exists|j: int| a < j <= a + u32::MAX && #[trigger] s[j] != s[a]
}

/// Run-length encode `data` into the `.incrle` format.
pub fn rle_encode(data: &[u8]) -> (out: Vec<u8>)
    requires
        runs_fit(data@),
    ensures
        out@ == rle_spec(data@),
{
    let mut out: Vec<u8> = Vec::new();
    let mut run: Vec<u8> = Vec::new();
    let mut has_run = false;
    let mut i: usize = 0;
    assert(data@.skip(0) =~= data@);
    while i < data.len()
        invariant
            i <= data.len(),
            runs_fit(data@),
            !has_run ==> run@ == Seq::<u8>::empty(),
            has_run ==> run@.len() <= 0x7E,
            rle_from(data@.skip(i as int), out@, run@, has_run) == rle_spec(data@),
        decreases data.len() - i,
    {
        let ghost s = data@.skip(i as int);
        let ghost out0 = out@;
        let ghost run0 = run@;
        let byte = data[i];
        let last = i;
        let mut count: u32 = 0;
        while i < data.len() && data[i] == byte
            invariant
                last <= i <= data.len(),
                runs_fit(data@),
                count == i - last,
                byte == data@[last as int],
                forall|j: int| last <= j < i ==> data@[j] == byte,
            decreases data.len() - i,
        {
            proof {
                if count == u32::MAX {
                    let j = choose|j: int|
                        last < j <= last + u32::MAX && #[trigger] data@[j] != data@[last as int];
                    assert(data@[j] == byte);
                }
            }
            count += 1;
            i += 1;
        }
        proof {
            assert(count >= 1);
            let k = count as int;
            assert forall|j: int| 0 <= j < k implies #[trigger] s[j] == s[0] by {}
            lemma_run_len_exact(s, k);
            assert(s.skip(k) =~= data@.skip(i as int));
            assert(s.take(k) =~= data@.subrange(last as int, i as int));
        }
        if count > 2 {
            if has_run {
                out.push((0x80 + run.len()) as u8);
                extend(&mut out, &run);
                run.clear();
            }
            let ghost flushed = out@;
            assert(flushed == (if has_run {
                out0 + literal(run0)
            } else {
                out0
            })) by {
                if has_run {
                    assert(flushed =~= out0 + literal(run0));
                }
            }
            let ghost total = count as nat;
            while count > 0x7F
                invariant
                    count <= total,
                    flushed + run_chunks(byte, total) == out@ + run_chunks(byte, count as nat),
                decreases count,
            {
                let ghost before = out@;
                out.push(0x7F);
                out.push(byte);
                assert(out@ =~= before + seq![0x7Fu8, byte]);
                assert(run_chunks(byte, count as nat) == seq![0x7Fu8, byte] + run_chunks(
                    byte,
                    (count - 0x7F) as nat,
                ));
                assert(before + run_chunks(byte, count as nat) =~= out@ + run_chunks(
                    byte,
                    (count - 0x7F) as nat,
                ));
                count -= 0x7F;
            }
            let ghost before = out@;
            out.push(count as u8);
            out.push(byte);
            assert(out@ =~= before + run_chunks(byte, count as nat));
            has_run = false;
        } else if !has_run {
            run.clear();
            extend(&mut run, &data[last..i]);
            has_run = true;
        } else if run.len() > 0x7C {
            let ghost before = out@;
            out.push((0x80 + run.len()) as u8);
            extend(&mut out, &run);
            assert(out@ =~= before + literal(run0));
            run.clear();
            has_run = false;
        } else {
            extend(&mut run, &data[last..i]);
            has_run = true;
        }
    }
    assert(data@.skip(i as int) =~= Seq::<u8>::empty());
    if has_run {
        let ghost before = out@;
        out.push((0x80 + run.len()) as u8);
        extend(&mut out, &run);
        assert(out@ =~= before + literal(run@));
    }
    out.push(0xFF);
    out
}

} // verus!
