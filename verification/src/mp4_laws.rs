//! What a reader of the muxer's output finds in it: AVCC samples parse back
//! into their NAL units, the file's top-level boxes are `ftyp`, `moov`,
//! `mdat`, and the `stco` chunk offset points exactly at the sample data.

use vstd::prelude::*;
use crate::bytes::{be32, lemma_mp4_box_len, mp4_box};
use crate::mp4_format::{
    duration_runs, keyframe_numbers, avcc_of, chunk_offset, ftyp_box, mdat_box, moov_box, mp4_file, payload, stco_box, FTYP,
    MDAT, MOOV,
};
use crate::mp4_muxer::{MuxInput, MuxSample};

verus! {

/// The 32-bit big-endian value stored at `at` in `b`.
pub open spec fn be32_at(b: Seq<u8>, at: int) -> u32 {
    ((b[at] as u32) << 24u32) | ((b[at + 1] as u32) << 16u32) | ((b[at + 2] as u32) << 8u32) | (
    b[at + 3] as u32)
}

/// Splits AVCC-framed bytes back into NAL units; `None` when a length
/// prefix is cut short or runs past the end.
pub open spec fn parse_avcc(b: Seq<u8>) -> Option<Seq<Seq<u8>>>
    decreases b.len(),
{
    if b.len() == 0 {
        Some(Seq::empty())
    } else if b.len() < 4 {
        None
    } else {
        let n = be32_at(b, 0) as int;
        if 4 + n > b.len() {
            None
        } else {
            match parse_avcc(b.skip(4 + n)) {
                Some(rest) => Some(seq![b.subrange(4, 4 + n)] + rest),
                None => None,
            }
        }
    }
}

/// The four-character types of the top-level boxes of `b`, read by their
/// size fields until one does not fit.
pub open spec fn top_level_types(b: Seq<u8>) -> Seq<u32>
    decreases b.len(),
{
    if b.len() < 8 {
        Seq::empty()
    } else {
        let size = be32_at(b, 0) as int;
        if size < 8 || size > b.len() {
            Seq::empty()
        } else {
            seq![be32_at(b, 4)] + top_level_types(b.skip(size))
        }
    }
}

/// Reading back a big-endian encoding gives the value.
pub proof fn lemma_be32_roundtrip(v: u32)
    ensures
        be32_at(be32(v), 0) == v,
{
    let b0 = (v >> 24u32) as u8;
    let b1 = (v >> 16u32) as u8;
    let b2 = (v >> 8u32) as u8;
    let b3 = v as u8;
    assert(be32(v)[0] == b0 && be32(v)[1] == b1 && be32(v)[2] == b2 && be32(v)[3] == b3);
    assert(((b0 as u32) << 24u32) | ((b1 as u32) << 16u32) | ((b2 as u32) << 8u32) | (b3 as u32)
        == v) by (bit_vector)
        requires
            b0 == (v >> 24u32) as u8,
            b1 == (v >> 16u32) as u8,
            b2 == (v >> 8u32) as u8,
            b3 == v as u8,
    ;
}

/// `be32_at` only looks at the four bytes it reads.
pub proof fn lemma_be32_at_prefix(a: Seq<u8>, b: Seq<u8>, at: int)
    requires
        0 <= at,
        at + 4 <= a.len(),
    ensures
        be32_at(a + b, at) == be32_at(a, at),
{
    assert((a + b)[at] == a[at]);
    assert((a + b)[at + 1] == a[at + 1]);
    assert((a + b)[at + 2] == a[at + 2]);
    assert((a + b)[at + 3] == a[at + 3]);
}

/// A box's header reads back as its size and its type.
pub proof fn lemma_box_header(fourcc: u32, content: Seq<u8>, rest: Seq<u8>)
    requires
        content.len() + 8 <= u32::MAX,
    ensures
        be32_at(mp4_box(fourcc, content) + rest, 0) == content.len() + 8,
        be32_at(mp4_box(fourcc, content) + rest, 4) == fourcc,
        mp4_box(fourcc, content).len() == content.len() + 8,
{
    reveal(mp4_box);
    let size = (content.len() + 8) as u32;
    lemma_be32_roundtrip(size);
    lemma_be32_roundtrip(fourcc);
    let m = mp4_box(fourcc, content);
    lemma_be32_at_prefix(be32(size), be32(fourcc) + content + rest, 0);
    assert(m + rest =~= be32(size) + (be32(fourcc) + content + rest));
    lemma_be32_at_prefix(be32(fourcc), content + rest, 0);
    assert(m + rest =~= be32(size) + (be32(fourcc) + (content + rest)));
    assert((m + rest).subrange(4, (m + rest).len() as int) =~= be32(fourcc) + (content + rest));
    assert(be32_at(m + rest, 4) == be32_at(be32(fourcc) + (content + rest), 0));
}

/// AVCC framing with the first NAL unit split off.
pub proof fn lemma_avcc_front(nals: Seq<Seq<u8>>)
    requires
        nals.len() > 0,
    ensures
        avcc_of(nals) == be32(nals[0].len() as u32) + nals[0] + avcc_of(nals.drop_first()),
    decreases nals.len(),
{
    if nals.len() == 1 {
        assert(nals.drop_last() =~= Seq::<Seq<u8>>::empty());
        assert(nals.drop_first() =~= Seq::<Seq<u8>>::empty());
        assert(avcc_of(nals) =~= be32(nals[0].len() as u32) + nals[0] + avcc_of(nals.drop_first()));
    } else {
        let dl = nals.drop_last();
        lemma_avcc_front(dl);
        assert(dl.drop_first() =~= nals.drop_first().drop_last());
        assert(nals.drop_first().last() == nals.last());
        assert(avcc_of(nals) =~= be32(nals[0].len() as u32) + nals[0] + avcc_of(nals.drop_first()));
    }
}

/// AVCC round trip: the bytes `nals_to_avcc` produces parse back into the
/// NAL units it was given, when no unit is longer than 32 bits can count.
pub proof fn lemma_avcc_roundtrip(nals: Seq<Seq<u8>>)
    requires
        forall|i: int| 0 <= i < nals.len() ==> #[trigger] nals[i].len() <= u32::MAX,
    ensures
        parse_avcc(avcc_of(nals)) == Some(nals),
    decreases nals.len(),
{
    if nals.len() == 0 {
        assert(avcc_of(nals) =~= Seq::<u8>::empty());
        assert(parse_avcc(avcc_of(nals)).unwrap() =~= nals);
    } else {
        let b = avcc_of(nals);
        let first = nals[0];
        let n = first.len() as u32;
        let rest = nals.drop_first();
        lemma_avcc_front(nals);
        lemma_avcc_roundtrip(rest);
        lemma_be32_roundtrip(n);
        lemma_be32_at_prefix(be32(n), first + avcc_of(rest), 0);
        assert(b =~= be32(n) + (first + avcc_of(rest)));
        assert(be32_at(b, 0) == n);
        assert(b.skip(4 + first.len() as int) =~= avcc_of(rest));
        assert(b.subrange(4, 4 + first.len() as int) =~= first);
        assert(parse_avcc(b).unwrap() =~= nals);
    }
}

/// `be32_at` reads only the four bytes at `at`.
pub proof fn lemma_be32_at_window(b: Seq<u8>, at: int)
    requires
        0 <= at,
        at + 4 <= b.len(),
    ensures
        be32_at(b, at) == be32_at(b.subrange(at, at + 4), 0),
{
    let w = b.subrange(at, at + 4);
    assert(w[0] == b[at] && w[1] == b[at + 1] && w[2] == b[at + 2] && w[3] == b[at + 3]);
}

/// `s` ends with `t`.
pub open spec fn ends_with(s: Seq<u8>, t: Seq<u8>) -> bool {
    s.len() >= t.len() && s.subrange(s.len() - t.len(), s.len() as int) == t
}

proof fn lemma_ends_with_concat(a: Seq<u8>, b: Seq<u8>, t: Seq<u8>)
    requires
        ends_with(b, t),
    ensures
        ends_with(a + b, t),
{
    assert((a + b).subrange((a + b).len() - t.len(), (a + b).len() as int) =~= b.subrange(
        b.len() - t.len(),
        b.len() as int,
    ));
}

proof fn lemma_ends_with_box(fourcc: u32, c: Seq<u8>, t: Seq<u8>)
    requires
        ends_with(c, t),
    ensures
        ends_with(mp4_box(fourcc, c), t),
{
    reveal(mp4_box);
    assert(mp4_box(fourcc, c) =~= (be32((c.len() + 8) as u32) + be32(fourcc)) + c);
    lemma_ends_with_concat(be32((c.len() + 8) as u32) + be32(fourcc), c, t);
}

/// The `moov` box ends with the `stco` box, and its length does not depend
/// on the chunk offset stored there.
pub proof fn lemma_moov_shape(input: MuxInput, off: u32, other: u32)
    ensures
        ends_with(moov_box(input, off), stco_box(off)),
        moov_box(input, off).len() == moov_box(input, other).len(),
{
    reveal(moov_box);
    broadcast use lemma_mp4_box_len;
    let samples = input.samples@;
    let st = stco_box(off);
    assert(ends_with(st, st)) by {
        assert(st.subrange(0, st.len() as int) =~= st);
    }
    let stbl_front = crate::mp4_format::stsd_box(input) + crate::mp4_format::stts_box(
        crate::mp4_format::runs_u32(crate::mp4_format::duration_runs(samples)),
    ) + crate::mp4_format::stss_box(crate::mp4_format::keyframe_numbers(samples))
        + crate::mp4_format::stsc_box(samples.len()) + crate::mp4_format::stsz_box(samples);
    lemma_ends_with_concat(stbl_front, st, st);
    lemma_ends_with_box(crate::mp4_format::STBL, stbl_front + st, st);
    let stbl = crate::mp4_format::stbl_box(input, off);
    lemma_ends_with_concat(crate::mp4_format::vmhd_box() + crate::mp4_format::dinf_box(), stbl, st);
    let minf = crate::mp4_format::minf_box(input, off);
    lemma_ends_with_box(
        crate::mp4_format::MINF,
        crate::mp4_format::vmhd_box() + crate::mp4_format::dinf_box() + stbl,
        st,
    );
    let mdia_front = crate::mp4_format::mdhd_box(crate::mp4_format::media_duration(samples))
        + crate::mp4_format::hdlr_box();
    lemma_ends_with_concat(mdia_front, minf, st);
    lemma_ends_with_box(crate::mp4_format::MDIA, mdia_front + minf, st);
    let mdia = crate::mp4_format::mdia_box(input, off);
    let tkhd = crate::mp4_format::tkhd_box(
        input.width,
        input.height,
        crate::mp4_format::total_ms(samples),
    );
    lemma_ends_with_concat(tkhd, mdia, st);
    lemma_ends_with_box(crate::mp4_format::TRAK, tkhd + mdia, st);
    let trak = crate::mp4_format::trak_box(input, off);
    let mvhd = crate::mp4_format::mvhd_box(crate::mp4_format::total_ms(samples));
    lemma_ends_with_concat(mvhd, trak, st);
    lemma_ends_with_box(MOOV, mvhd + trak, st);
}

/// Three boxes in a row read back, by their size fields, as three boxes.
pub proof fn lemma_three_boxes(t1: u32, c1: Seq<u8>, t2: u32, c2: Seq<u8>, t3: u32, c3: Seq<u8>)
    requires
        c1.len() + 8 <= u32::MAX,
        c2.len() + 8 <= u32::MAX,
        c3.len() + 8 <= u32::MAX,
    ensures
        top_level_types(mp4_box(t1, c1) + mp4_box(t2, c2) + mp4_box(t3, c3)) == seq![t1, t2, t3],
{
    let b1 = mp4_box(t1, c1);
    let b2 = mp4_box(t2, c2);
    let b3 = mp4_box(t3, c3);
    lemma_box_header(t3, c3, Seq::empty());
    assert(b3 + Seq::<u8>::empty() =~= b3);
    assert(b3.skip(b3.len() as int) =~= Seq::<u8>::empty());
    assert(top_level_types(b3.skip(b3.len() as int)) == Seq::<u32>::empty());
    assert(top_level_types(b3) =~= seq![t3]);
    lemma_box_header(t2, c2, b3);
    assert((b2 + b3).skip(b2.len() as int) =~= b3);
    assert(top_level_types(b2 + b3) =~= seq![t2, t3]);
    lemma_box_header(t1, c1, b2 + b3);
    assert(b1 + b2 + b3 =~= b1 + (b2 + b3));
    assert((b1 + (b2 + b3)).skip(b1.len() as int) =~= b2 + b3);
    assert(top_level_types(b1 + (b2 + b3)) =~= seq![t1, t2, t3]);
}

/// The `moov` box, seen as a box.
proof fn lemma_moov_is_box(input: MuxInput, off: u32)
    ensures
        moov_box(input, off) == mp4_box(
            MOOV,
            crate::mp4_format::mvhd_box(crate::mp4_format::total_ms(input.samples@))
                + crate::mp4_format::trak_box(input, off),
        ),
{
    reveal(moov_box);
}

/// The four bytes ending `a + b`'s first part, when `a` ends with a box
/// whose last four bytes encode `v`.
proof fn lemma_stco_entry(pre: Seq<u8>, moov: Seq<u8>, rest: Seq<u8>, off: u32)
    requires
        ends_with(moov, stco_box(off)),
    ensures
        be32_at(pre + moov + rest, pre.len() + moov.len() - 4) == off,
{
    broadcast use lemma_mp4_box_len;

    let st = stco_box(off);
    let f = pre + moov + rest;
    assert(st.len() == 20);
    assert(st.subrange(16, 20) =~= be32(off)) by {
        reveal(mp4_box);
    }
    assert(moov.subrange(moov.len() - 20, moov.len() as int) == st);
    let at = pre.len() + moov.len() - 4;
    assert(f.subrange(at, at + 4) =~= moov.subrange(moov.len() - 4, moov.len() as int));
    assert(moov.subrange(moov.len() - 4, moov.len() as int) =~= st.subrange(16, 20));
    lemma_be32_at_window(f, at);
    lemma_be32_roundtrip(off);
}

/// A box's content is what follows its eight header bytes.
proof fn lemma_box_content(pre: Seq<u8>, fourcc: u32, c: Seq<u8>)
    ensures
        (pre + mp4_box(fourcc, c)).subrange(pre.len() + 8int, pre.len() + c.len() + 8int) == c,
        (pre + mp4_box(fourcc, c)).len() == pre.len() + c.len() + 8,
{
    reveal(mp4_box);
    assert((pre + mp4_box(fourcc, c)).subrange(pre.len() + 8int, pre.len() + c.len() + 8int) =~= c);
}

/// File layout. The file is `ftyp`, `moov`, `mdat`, read back as such by
/// their size fields; the chunk offset in `stco` (the last four bytes of
/// `moov`) is the position of the first sample byte; the samples fill the
/// file from there to its end. This holds when the box sizes fit their
/// 32-bit fields.
#[verifier::rlimit(30)]
pub proof fn lemma_file_layout(input: MuxInput)
    requires
        ftyp_box().len() + moov_box(input, 0).len() + 8 <= u32::MAX,
        payload(input.samples@).len() + 8 <= u32::MAX,
    ensures
        ({
            let f = mp4_file(input);
            let off = chunk_offset(input) as int;
            let moov_len = moov_box(input, chunk_offset(input)).len();
            let data = payload(input.samples@);
            &&& off == ftyp_box().len() + moov_len + 8
            &&& top_level_types(f) == seq![FTYP, MOOV, MDAT]
            &&& be32_at(f, ftyp_box().len() + moov_len - 4) == chunk_offset(input)
            &&& f.len() == off + data.len()
            &&& f.subrange(off, f.len() as int) == data
        }),
{
    broadcast use lemma_mp4_box_len;

    let off = chunk_offset(input);
    lemma_moov_shape(input, off, 0);
    let ftyp = ftyp_box();
    let moov = moov_box(input, off);
    let data = payload(input.samples@);
    let mdat = mdat_box(input.samples@);
    let f = mp4_file(input);
    assert(off as int == ftyp.len() + moov.len() + 8);
    lemma_moov_is_box(input, off);
    lemma_three_boxes(
        FTYP,
        crate::mp4_format::ftyp_content(),
        MOOV,
        crate::mp4_format::mvhd_box(crate::mp4_format::total_ms(input.samples@))
            + crate::mp4_format::trak_box(input, off),
        MDAT,
        data,
    );
    lemma_stco_entry(ftyp, moov, mdat, off);
    lemma_box_content(ftyp + moov, MDAT, data);
}

/// The durations of the samples, in order.
pub open spec fn durations(samples: Seq<MuxSample>) -> Seq<u32> {
    samples.map_values(|s: MuxSample| s.duration_90k)
}

/// What a reader of `stts` reconstructs: each run's delta repeated `count` times.
pub open spec fn expand_runs(runs: Seq<(nat, u32)>) -> Seq<u32>
    decreases runs.len(),
{
    if runs.len() == 0 {
        Seq::empty()
    } else {
        expand_runs(runs.drop_last()) + Seq::new(runs.last().0, |i: int| runs.last().1)
    }
}

/// The `stts` runs are exact and maximal: expanding them gives back every
/// sample's duration, every run is non-empty, and neighbouring runs have
/// different durations.
pub proof fn lemma_duration_runs_exact(samples: Seq<MuxSample>)
    ensures
        expand_runs(duration_runs(samples)) == durations(samples),
        forall|j: int|
            0 <= j < duration_runs(samples).len() ==> #[trigger] duration_runs(samples)[j].0 >= 1,
        forall|j: int|
            0 <= j < duration_runs(samples).len() - 1 ==> #[trigger] duration_runs(samples)[j].1
                != duration_runs(samples)[j + 1].1,
    decreases samples.len(),
{
    if samples.len() == 0 {
        assert(durations(samples) =~= Seq::<u32>::empty());
    } else {
        let dl = samples.drop_last();
        lemma_duration_runs_exact(dl);
        let r = duration_runs(dl);
        let d = samples.last().duration_90k;
        assert(durations(samples) =~= durations(dl).push(d));
        if r.len() > 0 && r.last().1 == d {
            let r2 = r.update(r.len() - 1, ((r.last().0 + 1) as nat, d));
            assert(r2.drop_last() =~= r.drop_last());
            assert(Seq::new((r.last().0 + 1) as nat, |i: int| d) =~= Seq::new(
                r.last().0,
                |i: int| r.last().1,
            ).push(d));
            assert(expand_runs(r2) =~= expand_runs(r).push(d));
        } else {
            let r2 = r.push((1nat, d));
            assert(r2.drop_last() =~= r);
            assert(Seq::new(1nat, |i: int| d) =~= seq![d]);
            assert(expand_runs(r2) =~= expand_runs(r).push(d));
        }
    }
}

/// The `stss` table lists exactly the keyframes, by 1-based number, in
/// increasing order (for fewer than 2^32 - 1 samples, so that every number
/// fits).
pub proof fn lemma_keyframe_numbers_exact(samples: Seq<MuxSample>)
    requires
        samples.len() < u32::MAX,
    ensures
        forall|j: int|
            0 <= j < keyframe_numbers(samples).len() ==> {
                let n = #[trigger] keyframe_numbers(samples)[j];
                1 <= n <= samples.len() && samples[n - 1].is_keyframe
            },
        forall|j: int, k: int|
            0 <= j < k < keyframe_numbers(samples).len() ==> #[trigger] keyframe_numbers(samples)[j]
                < #[trigger] keyframe_numbers(samples)[k],
        forall|i: int|
            0 <= i < samples.len() && #[trigger] samples[i].is_keyframe ==> keyframe_numbers(
                samples,
            ).contains((i + 1) as u32),
    decreases samples.len(),
{
    if samples.len() > 0 {
        let dl = samples.drop_last();
        lemma_keyframe_numbers_exact(dl);
        let k = keyframe_numbers(dl);
        let i = samples.len() - 1;
        assert(((i as u32) as int) == i);
        assert forall|m: int| 0 <= m < dl.len() && #[trigger] samples[m].is_keyframe implies keyframe_numbers(
            samples,
        ).contains((m + 1) as u32) by {
            assert(dl[m] == samples[m]);
            let w = choose|w: int| 0 <= w < k.len() && k[w] == (m + 1) as u32;
            if samples.last().is_keyframe {
                assert(keyframe_numbers(samples)[w] == (m + 1) as u32);
            }
        }
        if samples.last().is_keyframe {
            assert(keyframe_numbers(samples)[k.len() as int] == (i + 1) as u32);
        }
    }
}

/// Sum of the sample lengths.
pub open spec fn total_len(samples: Seq<MuxSample>) -> nat
    decreases samples.len(),
{
    if samples.len() == 0 {
        0
    } else {
        total_len(samples.drop_last()) + samples.last().avcc@.len()
    }
}

/// The `mdat` payload is the samples back to back: sample `i` starts after
/// the samples before it, and the payload is as long as all of them.
pub proof fn lemma_payload_layout(samples: Seq<MuxSample>, i: int)
    requires
        0 <= i < samples.len(),
    ensures
        payload(samples) == payload(samples.take(i)) + samples[i].avcc@ + payload(
            samples.skip(i + 1),
        ),
        payload(samples).len() == total_len(samples),
    decreases samples.len(),
{
    if i == samples.len() - 1 {
        assert(samples.take(i) =~= samples.drop_last());
        assert(samples.skip(i + 1) =~= Seq::<MuxSample>::empty());
        assert(payload(samples) =~= payload(samples.take(i)) + samples[i].avcc@ + payload(
            samples.skip(i + 1),
        ));
        lemma_payload_len(samples);
    } else {
        let dl = samples.drop_last();
        lemma_payload_layout(dl, i);
        assert(dl.take(i) =~= samples.take(i));
        assert(dl.skip(i + 1) =~= samples.skip(i + 1).drop_last());
        assert(samples.skip(i + 1).last() == samples.last());
        assert(payload(samples) =~= payload(samples.take(i)) + samples[i].avcc@ + payload(
            samples.skip(i + 1),
        ));
        lemma_payload_len(samples);
    }
}

proof fn lemma_payload_len(samples: Seq<MuxSample>)
    ensures
        payload(samples).len() == total_len(samples),
    decreases samples.len(),
{
    if samples.len() > 0 {
        lemma_payload_len(samples.drop_last());
    }
}

/// `be32_at` past a prefix reads the rest.
proof fn lemma_be32_at_suffix(a: Seq<u8>, b: Seq<u8>, at: int)
    requires
        a.len() <= at,
        at + 4 <= a.len() + b.len(),
    ensures
        be32_at(a + b, at) == be32_at(b, at - a.len()),
{
    assert((a + b)[at] == b[at - a.len()]);
    assert((a + b)[at + 1] == b[at - a.len() + 1]);
    assert((a + b)[at + 2] == b[at - a.len() + 2]);
    assert((a + b)[at + 3] == b[at - a.len() + 3]);
}

/// A value inside a box's content is read 8 bytes further in the box.
proof fn lemma_be32_at_box_content(fourcc: u32, content: Seq<u8>, at: int)
    requires
        0 <= at,
        at + 4 <= content.len(),
    ensures
        be32_at(mp4_box(fourcc, content), 8 + at) == be32_at(content, at),
{
    reveal(mp4_box);
    let size = (content.len() + 8) as u32;
    assert(mp4_box(fourcc, content) =~= (be32(size) + be32(fourcc)) + content);
    lemma_be32_at_suffix(be32(size) + be32(fourcc), content, 8 + at);
}

/// A box's type is read at offset 4.
proof fn lemma_be32_at_box_type(fourcc: u32, content: Seq<u8>)
    ensures
        be32_at(mp4_box(fourcc, content), 4) == fourcc,
{
    reveal(mp4_box);
    let size = (content.len() + 8) as u32;
    assert(mp4_box(fourcc, content) =~= be32(size) + (be32(fourcc) + content));
    lemma_be32_at_suffix(be32(size), be32(fourcc) + content, 4);
    lemma_be32_at_prefix(be32(fourcc), content, 0);
    lemma_be32_roundtrip(fourcc);
}

/// The nine values of the unity transformation matrix, row by row: 1.0 and
/// 0 as 16.16 fixed point, and 1.0 as 2.30 in the last place.
pub open spec fn unity_matrix(j: int) -> u32 {
    if j == 0 || j == 4 {
        0x0001_0000
    } else if j == 8 {
        0x4000_0000
    } else {
        0
    }
}

/// Reading the `j`-th value back from the encodings of `vals`.
proof fn lemma_be32_all_at(vals: Seq<u32>, j: int)
    requires
        0 <= j < vals.len(),
    ensures
        be32_at(crate::bytes::be32_all(vals), 4 * j) == vals[j],
    decreases vals.len(),
{
    let init = vals.drop_last();
    crate::bytes::lemma_be32_all_len(init);
    if j < vals.len() - 1 {
        lemma_be32_all_at(init, j);
        lemma_be32_at_prefix(crate::bytes::be32_all(init), be32(vals.last()), 4 * j);
    } else {
        lemma_be32_at_suffix(crate::bytes::be32_all(init), be32(vals.last()), 4 * j);
        lemma_be32_roundtrip(vals.last());
    }
}

proof fn lemma_matrix_values(j: int)
    requires
        0 <= j < 9,
    ensures
        be32_at(crate::mp4_format::matrix_bytes(), 4 * j) == unity_matrix(j),
{
    let vals = seq![0x0001_0000u32, 0, 0, 0, 0x0001_0000, 0, 0, 0, 0x4000_0000];
    reveal_with_fuel(crate::bytes::be32_all, 10);
    assert(crate::mp4_format::matrix_bytes() =~= crate::bytes::be32_all(vals));
    lemma_be32_all_at(vals, j);
}

/// The written video plays upright: the `mvhd` box (at byte 40 of the
/// file, its type at 44) and the `tkhd` box (at byte 156, its type at
/// 160) both carry the unity transformation matrix, nine 32-bit values
/// from bytes 84 and 204 of the file.
#[verifier::spinoff_prover]
#[verifier::rlimit(60)]
pub proof fn lemma_unity_matrix(input: MuxInput)
    ensures
        be32_at(mp4_file(input), 44) == crate::mp4_format::MVHD,
        be32_at(mp4_file(input), 160) == crate::mp4_format::TKHD,
        forall|j: int|
            #![trigger unity_matrix(j)]
            0 <= j < 9 ==> be32_at(mp4_file(input), 84 + 4 * j) == unity_matrix(j) && be32_at(
                mp4_file(input),
                204 + 4 * j,
            ) == unity_matrix(j),
{
    broadcast use lemma_mp4_box_len;
    reveal(moov_box);
    let f = mp4_file(input);
    let ms = crate::mp4_format::total_ms(input.samples@);
    let off = chunk_offset(input);
    let ft = ftyp_box();
    let mv = crate::mp4_format::mvhd_box(ms);
    let tr = crate::mp4_format::trak_box(input, off);
    let moov = moov_box(input, off);
    let md = mdat_box(input.samples@);
    let mvc = crate::mp4_format::mvhd_content(ms);
    let tk = crate::mp4_format::tkhd_box(input.width, input.height, ms);
    let tkc = crate::mp4_format::tkhd_content(input.width, input.height, ms);
    let mdia = crate::mp4_format::mdia_box(input, off);
    let m = crate::mp4_format::matrix_bytes();
    assert(ft.len() == 32);
    assert(mvc.len() == 96);
    assert(mv.len() == 108);
    assert(tkc.len() == 80);
    assert(tk.len() == 92);
    assert(moov == mp4_box(MOOV, mv + tr));
    assert(tr == mp4_box(crate::mp4_format::TRAK, tk + mdia));
    assert(f =~= ft + (moov + md));
    let mvh = seq![0u8] + crate::bytes::be24(0);
    let tkh = seq![0u8] + crate::bytes::be24(7);
    assert(mv == mp4_box(crate::mp4_format::MVHD, mvh + mvc));
    assert(tk == mp4_box(crate::mp4_format::TKHD, tkh + tkc));
    let mvp = be32(0) + be32(0) + be32(crate::mp4_muxer::MOVIE_TIMESCALE) + be32(ms) + be32(0x0001_0000)
        + crate::bytes::be16(0x0100) + crate::bytes::be16(0) + crate::bytes::zeros(8);
    let mvr = crate::bytes::zeros(24) + be32(2);
    assert(mvc =~= mvp + (m + mvr));
    assert(mvp.len() == 32);
    let tkp = be32(0) + be32(0) + be32(1) + be32(0) + be32(ms) + crate::bytes::zeros(8)
        + crate::bytes::be16(0) + crate::bytes::be16(0) + crate::bytes::be16(0) + crate::bytes::be16(0);
    let tkr = be32(input.width << 16u32) + be32(input.height << 16u32);
    assert(tkc =~= tkp + (m + tkr));
    assert(tkp.len() == 36);
    // the two box types
    lemma_be32_at_suffix(ft, moov + md, 44);
    lemma_be32_at_prefix(moov, md, 12);
    lemma_be32_at_box_content(MOOV, mv + tr, 4);
    lemma_be32_at_prefix(mv, tr, 4);
    lemma_be32_at_box_type(crate::mp4_format::MVHD, mvh + mvc);
    lemma_be32_at_suffix(ft, moov + md, 160);
    lemma_be32_at_prefix(moov, md, 128);
    lemma_be32_at_box_content(MOOV, mv + tr, 120);
    lemma_be32_at_suffix(mv, tr, 120);
    lemma_be32_at_box_content(crate::mp4_format::TRAK, tk + mdia, 4);
    lemma_be32_at_prefix(tk, mdia, 4);
    lemma_be32_at_box_type(crate::mp4_format::TKHD, tkh + tkc);
    assert forall|j: int| #![trigger unity_matrix(j)] 0 <= j < 9 implies be32_at(f, 84 + 4 * j)
        == unity_matrix(j) && be32_at(f, 204 + 4 * j) == unity_matrix(j) by {
        lemma_matrix_values(j);
        // mvhd
        lemma_be32_at_suffix(ft, moov + md, 84 + 4 * j);
        lemma_be32_at_prefix(moov, md, 52 + 4 * j);
        lemma_be32_at_box_content(MOOV, mv + tr, 44 + 4 * j);
        lemma_be32_at_prefix(mv, tr, 44 + 4 * j);
        lemma_be32_at_box_content(crate::mp4_format::MVHD, mvh + mvc, 36 + 4 * j);
        lemma_be32_at_suffix(mvh, mvc, 36 + 4 * j);
        lemma_be32_at_suffix(mvp, m + mvr, 32 + 4 * j);
        lemma_be32_at_prefix(m, mvr, 4 * j);
        // tkhd
        lemma_be32_at_suffix(ft, moov + md, 204 + 4 * j);
        lemma_be32_at_prefix(moov, md, 172 + 4 * j);
        lemma_be32_at_box_content(MOOV, mv + tr, 164 + 4 * j);
        lemma_be32_at_suffix(mv, tr, 164 + 4 * j);
        lemma_be32_at_box_content(crate::mp4_format::TRAK, tk + mdia, 48 + 4 * j);
        lemma_be32_at_prefix(tk, mdia, 48 + 4 * j);
        lemma_be32_at_box_content(crate::mp4_format::TKHD, tkh + tkc, 40 + 4 * j);
        lemma_be32_at_suffix(tkh, tkc, 40 + 4 * j);
        lemma_be32_at_suffix(tkp, m + tkr, 36 + 4 * j);
        lemma_be32_at_prefix(m, tkr, 4 * j);
    }
}

} // verus!
