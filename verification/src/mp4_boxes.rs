//! Writers for the individual boxes of the MP4 layout, each proved to append
//! exactly the bytes that `mp4_format` gives for it.

use vstd::prelude::*;
use crate::bytes::{be24, be32, be32_all, Writer};
use crate::mp4_format::{FTYP, ISOM, ISO2, AVC1, MP41, MOOV, MVHD, TRAK, TKHD, MDIA, MDHD, HDLR, VIDE, MINF, VMHD, DINF, DREF, URL_, STBL, STSD, AVCC, STTS, STSS, STSC, STSZ, STCO, MDAT, duration_runs, runs_u32, runs_bytes, keyframe_numbers, sample_sizes, payload, total_ms, media_duration, sat16, ftyp_content, ftyp_box, matrix_bytes, mvhd_content, mvhd_box, tkhd_content, tkhd_box, mdhd_content, mdhd_box, hdlr_content, hdlr_box, vmhd_content, vmhd_box, url_box, dref_box, dinf_box, avcc_content, avcc_box, avc1_content, avc1_box, stsd_box, stts_box, stss_box, stsc_content, stsc_box, stsz_box, stco_box, stbl_content, stbl_box, minf_box, mdia_box, trak_box, moov_box, mdat_box, chunk_offset};
use crate::mp4_muxer::{MuxInput, MuxSample, TIMESCALE, MOVIE_TIMESCALE};

verus! {

/// Appends the `ftyp` box.
pub fn write_ftyp(w: &mut Writer)
    ensures
        final(w)@ == old(w)@ + ftyp_box(),
{
    let ghost pre = w@;
    let start = w.begin_box(FTYP);
    let ghost head = w@;
    w.u32(ISOM);
    w.u32(512);
    w.u32(ISOM);
    w.u32(ISO2);
    w.u32(AVC1);
    w.u32(MP41);
    assert(w@ =~= head + ftyp_content());
    w.end_box(start, Ghost(pre), Ghost(FTYP), Ghost(ftyp_content()));
}

/// Writes the unity transformation matrix of `mvhd` and `tkhd`.
pub fn identity_matrix(w: &mut Writer)
    ensures
        final(w)@ == old(w)@ + matrix_bytes(),
{
    let ghost pre = w@;
    w.u32(0x0001_0000);
    w.u32(0);
    w.u32(0);
    w.u32(0);
    w.u32(0x0001_0000);
    w.u32(0);
    w.u32(0);
    w.u32(0);
    w.u32(0x4000_0000);
    assert(w@ =~= pre + matrix_bytes());
}

/// Appends the `mvhd` box.
pub fn write_mvhd(w: &mut Writer, total_ms: u32)
    ensures
        final(w)@ == old(w)@ + mvhd_box(total_ms),
{
    let ghost pre = w@;
    let start = w.begin_full_box(MVHD, 0, 0);
    let ghost head = w@;
    w.u32(0);
    w.u32(0);
    w.u32(MOVIE_TIMESCALE);
    w.u32(total_ms);
    w.u32(0x0001_0000);
    w.u16(0x0100);
    w.u16(0);
    w.zeros(8);
    identity_matrix(w);
    w.zeros(24);
    w.u32(2);
    assert(w@ =~= head + mvhd_content(total_ms));
    w.end_full_box(start, Ghost(pre), Ghost(MVHD), Ghost(0u8), Ghost(0u32), Ghost(mvhd_content(total_ms)));
}

/// Appends the `tkhd` box.
pub fn write_tkhd(w: &mut Writer, width: u32, height: u32, total_ms: u32)
    ensures
        final(w)@ == old(w)@ + tkhd_box(width, height, total_ms),
{
    let ghost pre = w@;
    let start = w.begin_full_box(TKHD, 0, 7);
    let ghost head = w@;
    w.u32(0);
    w.u32(0);
    w.u32(1);
    w.u32(0);
    w.u32(total_ms);
    w.zeros(8);
    w.u16(0);
    w.u16(0);
    w.u16(0);
    w.u16(0);
    identity_matrix(w);
    w.u32(width << 16u32);
    w.u32(height << 16u32);
    assert(w@ =~= head + tkhd_content(width, height, total_ms));
    w.end_full_box(
        start,
        Ghost(pre),
        Ghost(TKHD),
        Ghost(0u8),
        Ghost(7u32),
        Ghost(tkhd_content(width, height, total_ms)),
    );
}

/// Appends the `mdhd` box.
pub fn write_mdhd(w: &mut Writer, duration: u32)
    ensures
        final(w)@ == old(w)@ + mdhd_box(duration),
{
    let ghost pre = w@;
    let start = w.begin_full_box(MDHD, 0, 0);
    let ghost head = w@;
    w.u32(0);
    w.u32(0);
    w.u32(TIMESCALE);
    w.u32(duration);
    w.u16(0x55c4);
    w.u16(0);
    assert(w@ =~= head + mdhd_content(duration));
    w.end_full_box(start, Ghost(pre), Ghost(MDHD), Ghost(0u8), Ghost(0u32), Ghost(mdhd_content(duration)));
}

/// Appends the `hdlr` box.
pub fn write_hdlr(w: &mut Writer)
    ensures
        final(w)@ == old(w)@ + hdlr_box(),
{
    let ghost pre = w@;
    let start = w.begin_full_box(HDLR, 0, 0);
    let ghost head = w@;
    w.u32(0);
    w.u32(VIDE);
    w.zeros(12);
    w.u32(0x5669_6465);
    w.u32(0x6f48_616e);
    w.u32(0x646c_6572);
    w.u8(0);
    assert(w@ =~= head + hdlr_content());
    w.end_full_box(start, Ghost(pre), Ghost(HDLR), Ghost(0u8), Ghost(0u32), Ghost(hdlr_content()));
}

/// Appends the `vmhd` box.
pub fn write_vmhd(w: &mut Writer)
    ensures
        final(w)@ == old(w)@ + vmhd_box(),
{
    let ghost pre = w@;
    let start = w.begin_full_box(VMHD, 0, 1);
    let ghost head = w@;
    w.u16(0);
    w.u16(0);
    w.u16(0);
    w.u16(0);
    assert(w@ =~= head + vmhd_content());
    w.end_full_box(start, Ghost(pre), Ghost(VMHD), Ghost(0u8), Ghost(1u32), Ghost(vmhd_content()));
}

/// Appends the `dinf` box.
pub fn write_dinf(w: &mut Writer)
    ensures
        final(w)@ == old(w)@ + dinf_box(),
{
    let ghost pre = w@;
    let dinf = w.begin_box(DINF);
    let ghost p_dref = w@;
    let dref = w.begin_full_box(DREF, 0, 0);
    let ghost h_dref = w@;
    w.u32(1);
    let ghost p_url = w@;
    let url = w.begin_full_box(URL_, 0, 1);
    assert(w@ =~= p_url + be32(0) + be32(URL_) + seq![0u8] + be24(1) + Seq::<u8>::empty());
    w.end_full_box(url, Ghost(p_url), Ghost(URL_), Ghost(0u8), Ghost(1u32), Ghost(Seq::empty()));
    assert(w@ =~= h_dref + (be32(1) + url_box()));
    w.end_full_box(dref, Ghost(p_dref), Ghost(DREF), Ghost(0u8), Ghost(0u32), Ghost(be32(1) + url_box()));
    assert(w@ =~= pre + be32(0) + be32(DINF) + dref_box());
    w.end_box(dinf, Ghost(pre), Ghost(DINF), Ghost(dref_box()));
}

/// Appends the `avcc` box.
pub fn write_avcc(w: &mut Writer, sps: &Vec<u8>, pps: &Vec<u8>)
    requires
        sps@.len() >= 4,
    ensures
        final(w)@ == old(w)@ + avcc_box(sps@, pps@),
{
    let ghost pre = w@;
    let start = w.begin_box(AVCC);
    let ghost head = w@;
    w.u8(1);
    w.u8(sps[1]);
    w.u8(sps[2]);
    w.u8(sps[3]);
    w.u8(0xFF);
    w.u8(0xE1);
    w.u16(sps.len() as u16);
    w.bytes(sps.as_slice());
    w.u8(1);
    w.u16(pps.len() as u16);
    w.bytes(pps.as_slice());
    assert(w@ =~= head + avcc_content(sps@, pps@));
    w.end_box(start, Ghost(pre), Ghost(AVCC), Ghost(avcc_content(sps@, pps@)));
}

fn sat16_exec(v: u32) -> (r: u16)
    ensures
        r == sat16(v),
{
    if v < 0xFFFF {
        v as u16
    } else {
        0xFFFF
    }
}

/// Appends the `avc1` box.
pub fn write_avc1(w: &mut Writer, width: u32, height: u32, sps: &Vec<u8>, pps: &Vec<u8>)
    requires
        sps@.len() >= 4,
    ensures
        final(w)@ == old(w)@ + avc1_box(width, height, sps@, pps@),
{
    let ghost pre = w@;
    let start = w.begin_box(AVC1);
    let ghost head = w@;
    w.zeros(6);
    w.u16(1);
    w.u16(0);
    w.u16(0);
    w.zeros(12);
    w.u16(sat16_exec(width));
    w.u16(sat16_exec(height));
    w.u32(0x0048_0000);
    w.u32(0x0048_0000);
    w.u32(0);
    w.u16(1);
    w.zeros(32);
    w.u16(0x0018);
    w.u16(0xFFFF);
    write_avcc(w, sps, pps);
    assert(w@ =~= head + avc1_content(width, height, sps@, pps@));
    w.end_box(start, Ghost(pre), Ghost(AVC1), Ghost(avc1_content(width, height, sps@, pps@)));
}

/// Appends the `stsd` box.
pub fn write_stsd(w: &mut Writer, input: &MuxInput)
    requires
        input.sps@.len() >= 4,
    ensures
        final(w)@ == old(w)@ + stsd_box(*input),
{
    let ghost pre = w@;
    let start = w.begin_full_box(STSD, 0, 0);
    let ghost head = w@;
    w.u32(1);
    write_avc1(w, input.width, input.height, &input.sps, &input.pps);
    let ghost body = be32(1) + avc1_box(input.width, input.height, input.sps@, input.pps@);
    assert(w@ =~= head + body);
    w.end_full_box(start, Ghost(pre), Ghost(STSD), Ghost(0u8), Ghost(0u32), Ghost(body));
}

/// Appends the `stts` box.
pub fn write_stts(w: &mut Writer, runs: &Vec<(u32, u32)>)
    ensures
        final(w)@ == old(w)@ + stts_box(runs@),
{
    let ghost pre = w@;
    let start = w.begin_full_box(STTS, 0, 0);
    let ghost head = w@;
    w.u32(runs.len() as u32);
    let ghost table = w@;
    let n = runs.len();
    let mut i: usize = 0;
    while i < n
        invariant
            n == runs@.len(),
            i <= n,
            w@ == table + runs_bytes(runs@.take(i as int)),
        decreases n - i,
    {
        let (count, delta) = runs[i];
        w.u32(count);
        w.u32(delta);
        assert(runs@.take(i + 1).drop_last() =~= runs@.take(i as int));
        assert(w@ =~= table + runs_bytes(runs@.take(i + 1)));
        i = i + 1;
    }
    assert(runs@.take(n as int) =~= runs@);
    let ghost body = be32(runs@.len() as u32) + runs_bytes(runs@);
    assert(w@ =~= head + body);
    w.end_full_box(start, Ghost(pre), Ghost(STTS), Ghost(0u8), Ghost(0u32), Ghost(body));
}

/// Appends the big-endian encodings of `vals`.
pub fn write_be32_all(w: &mut Writer, vals: &Vec<u32>)
    ensures
        final(w)@ == old(w)@ + be32_all(vals@),
{
    let ghost pre = w@;
    let n = vals.len();
    let mut i: usize = 0;
    while i < n
        invariant
            n == vals@.len(),
            i <= n,
            w@ == pre + be32_all(vals@.take(i as int)),
        decreases n - i,
    {
        w.u32(vals[i]);
        assert(vals@.take(i + 1).drop_last() =~= vals@.take(i as int));
        assert(w@ =~= pre + be32_all(vals@.take(i + 1)));
        i = i + 1;
    }
    assert(vals@.take(n as int) =~= vals@);
}

/// Appends the `stss` box.
pub fn write_stss(w: &mut Writer, sync: &Vec<u32>)
    ensures
        final(w)@ == old(w)@ + stss_box(sync@),
{
    let ghost pre = w@;
    let start = w.begin_full_box(STSS, 0, 0);
    let ghost head = w@;
    w.u32(sync.len() as u32);
    write_be32_all(w, sync);
    let ghost body = be32(sync@.len() as u32) + be32_all(sync@);
    assert(w@ =~= head + body);
    w.end_full_box(start, Ghost(pre), Ghost(STSS), Ghost(0u8), Ghost(0u32), Ghost(body));
}

/// Appends the `stsc` box.
pub fn write_stsc(w: &mut Writer, count: usize)
    ensures
        final(w)@ == old(w)@ + stsc_box(count as nat),
{
    let ghost pre = w@;
    let start = w.begin_full_box(STSC, 0, 0);
    let ghost head = w@;
    w.u32(1);
    w.u32(1);
    w.u32(count as u32);
    w.u32(1);
    assert(w@ =~= head + stsc_content(count as nat));
    w.end_full_box(start, Ghost(pre), Ghost(STSC), Ghost(0u8), Ghost(0u32), Ghost(stsc_content(count as nat)));
}

/// Appends the `stsz` box.
pub fn write_stsz(w: &mut Writer, samples: &Vec<MuxSample>)
    ensures
        final(w)@ == old(w)@ + stsz_box(samples@),
{
    let ghost pre = w@;
    let start = w.begin_full_box(STSZ, 0, 0);
    let ghost head = w@;
    w.u32(0);
    w.u32(samples.len() as u32);
    let ghost table = w@;
    let ghost sizes = sample_sizes(samples@);
    let n = samples.len();
    let mut i: usize = 0;
    while i < n
        invariant
            n == samples@.len(),
            sizes == sample_sizes(samples@),
            i <= n,
            w@ == table + be32_all(sizes.take(i as int)),
        decreases n - i,
    {
        w.u32(samples[i].avcc.len() as u32);
        assert(sizes.take(i + 1).drop_last() =~= sizes.take(i as int));
        assert(w@ =~= table + be32_all(sizes.take(i + 1)));
        i = i + 1;
    }
    assert(sizes.take(n as int) =~= sizes);
    let ghost body = be32(0) + be32(samples@.len() as u32) + be32_all(sizes);
    assert(w@ =~= head + body);
    w.end_full_box(start, Ghost(pre), Ghost(STSZ), Ghost(0u8), Ghost(0u32), Ghost(body));
}

/// Appends the `stco` box.
pub fn write_stco(w: &mut Writer, chunk_offset: u32)
    ensures
        final(w)@ == old(w)@ + stco_box(chunk_offset),
{
    let ghost pre = w@;
    let start = w.begin_full_box(STCO, 0, 0);
    let ghost head = w@;
    w.u32(1);
    w.u32(chunk_offset);
    let ghost body = be32(1) + be32(chunk_offset);
    assert(w@ =~= head + body);
    w.end_full_box(start, Ghost(pre), Ghost(STCO), Ghost(0u8), Ghost(0u32), Ghost(body));
}

/// The values derived from the samples that the `moov` box needs.
pub struct MoovTables {
    pub total_ms: u32,
    pub media_duration: u32,
    pub runs: Vec<(u32, u32)>,
    pub sync: Vec<u32>,
}

impl MoovTables {
    /// The tables hold what the layout derives from `input`'s samples.
    pub open spec fn describe(&self, input: MuxInput) -> bool {
        let samples = input.samples@;
        &&& self.total_ms == total_ms(samples)
        &&& self.media_duration == media_duration(samples)
        &&& self.runs@ == runs_u32(duration_runs(samples))
        &&& self.sync@ == keyframe_numbers(samples)
    }
}

/// Appends the `stbl` box.
#[verifier::rlimit(40)]
pub fn write_stbl(w: &mut Writer, input: &MuxInput, t: &MoovTables, chunk_offset: u32)
    requires
        input.sps@.len() >= 4,
        t.describe(*input),
    ensures
        final(w)@ == old(w)@ + stbl_box(*input, chunk_offset),
{
    let ghost pre = w@;
    let start = w.begin_box(STBL);
    let ghost head = w@;
    write_stsd(w, input);
    write_stts(w, &t.runs);
    write_stss(w, &t.sync);
    write_stsc(w, input.samples.len());
    write_stsz(w, &input.samples);
    write_stco(w, chunk_offset);
    assert(w@ =~= head + stbl_content(*input, chunk_offset));
    w.end_box(start, Ghost(pre), Ghost(STBL), Ghost(stbl_content(*input, chunk_offset)));
}

/// Appends the `minf` box.
pub fn write_minf(w: &mut Writer, input: &MuxInput, t: &MoovTables, chunk_offset: u32)
    requires
        input.sps@.len() >= 4,
        t.describe(*input),
    ensures
        final(w)@ == old(w)@ + minf_box(*input, chunk_offset),
{
    let ghost pre = w@;
    let start = w.begin_box(MINF);
    let ghost head = w@;
    write_vmhd(w);
    write_dinf(w);
    write_stbl(w, input, t, chunk_offset);
    let ghost body = vmhd_box() + dinf_box() + stbl_box(*input, chunk_offset);
    assert(w@ =~= head + body);
    w.end_box(start, Ghost(pre), Ghost(MINF), Ghost(body));
}

/// Appends the `mdia` box.
pub fn write_mdia(w: &mut Writer, input: &MuxInput, t: &MoovTables, chunk_offset: u32)
    requires
        input.sps@.len() >= 4,
        t.describe(*input),
    ensures
        final(w)@ == old(w)@ + mdia_box(*input, chunk_offset),
{
    let ghost pre = w@;
    let start = w.begin_box(MDIA);
    let ghost head = w@;
    write_mdhd(w, t.media_duration);
    write_hdlr(w);
    write_minf(w, input, t, chunk_offset);
    let ghost body = mdhd_box(media_duration(input.samples@)) + hdlr_box() + minf_box(
        *input,
        chunk_offset,
    );
    assert(w@ =~= head + body);
    w.end_box(start, Ghost(pre), Ghost(MDIA), Ghost(body));
}

/// Appends the `trak` box.
pub fn write_trak(w: &mut Writer, input: &MuxInput, t: &MoovTables, chunk_offset: u32)
    requires
        input.sps@.len() >= 4,
        t.describe(*input),
    ensures
        final(w)@ == old(w)@ + trak_box(*input, chunk_offset),
{
    let ghost pre = w@;
    let start = w.begin_box(TRAK);
    let ghost head = w@;
    write_tkhd(w, input.width, input.height, t.total_ms);
    write_mdia(w, input, t, chunk_offset);
    let ghost body = tkhd_box(input.width, input.height, total_ms(input.samples@)) + mdia_box(
        *input,
        chunk_offset,
    );
    assert(w@ =~= head + body);
    w.end_box(start, Ghost(pre), Ghost(TRAK), Ghost(body));
}

/// Builds the `moov` box with the given `stco` chunk offset.
pub fn build_moov(input: &MuxInput, t: &MoovTables, chunk_offset: u32) -> (moov: Vec<u8>)
    requires
        input.sps@.len() >= 4,
        t.describe(*input),
    ensures
        moov@ == moov_box(*input, chunk_offset),
{
    let mut w = Writer::new();
    let ghost pre = w@;
    let start = w.begin_box(MOOV);
    let ghost head = w@;
    write_mvhd(&mut w, t.total_ms);
    write_trak(&mut w, input, t, chunk_offset);
    let ghost body = mvhd_box(total_ms(input.samples@)) + trak_box(*input, chunk_offset);
    assert(w@ =~= head + body);
    w.end_box(start, Ghost(pre), Ghost(MOOV), Ghost(body));
    assert(w@ =~= moov_box(*input, chunk_offset)) by {
        reveal(moov_box);
    }
    w.into_bytes()
}

/// Appends the `mdat` box.
pub fn write_mdat(w: &mut Writer, samples: &Vec<MuxSample>)
    ensures
        final(w)@ == old(w)@ + mdat_box(samples@),
{
    let ghost pre = w@;
    let start = w.begin_box(MDAT);
    let ghost head = w@;
    let n = samples.len();
    let mut i: usize = 0;
    while i < n
        invariant
            n == samples@.len(),
            i <= n,
            w@ == head + payload(samples@.take(i as int)),
        decreases n - i,
    {
        w.bytes(samples[i].avcc.as_slice());
        assert(samples@.take(i + 1).drop_last() =~= samples@.take(i as int));
        assert(w@ =~= head + payload(samples@.take(i + 1)));
        i = i + 1;
    }
    assert(samples@.take(n as int) =~= samples@);
    w.end_box(start, Ghost(pre), Ghost(MDAT), Ghost(payload(samples@)));
}

} // verus!
