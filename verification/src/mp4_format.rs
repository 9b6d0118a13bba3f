//! The byte layout of the MP4 files the muxer writes, stated over the
//! muxer's input: `ftyp`, then `moov` with a single H.264 video track, then
//! `mdat` holding the samples back to back.

use vstd::prelude::*;
use crate::bytes::{be16, be24, be32, be32_all, full_box, mp4_box, zeros};
use crate::mp4_muxer::{MuxInput, MuxSample, TIMESCALE, MOVIE_TIMESCALE};

verus! {

// Four-character codes, as big-endian 32-bit values.
pub const FTYP: u32 = 0x6674_7970;
pub const ISOM: u32 = 0x6973_6f6d;
pub const ISO2: u32 = 0x6973_6f32;
pub const AVC1: u32 = 0x6176_6331;
pub const MP41: u32 = 0x6d70_3431;
pub const MOOV: u32 = 0x6d6f_6f76;
pub const MVHD: u32 = 0x6d76_6864;
pub const TRAK: u32 = 0x7472_616b;
pub const TKHD: u32 = 0x746b_6864;
pub const MDIA: u32 = 0x6d64_6961;
pub const MDHD: u32 = 0x6d64_6864;
pub const HDLR: u32 = 0x6864_6c72;
pub const VIDE: u32 = 0x7669_6465;
pub const MINF: u32 = 0x6d69_6e66;
pub const VMHD: u32 = 0x766d_6864;
pub const DINF: u32 = 0x6469_6e66;
pub const DREF: u32 = 0x6472_6566;
pub const URL_: u32 = 0x7572_6c20;
pub const STBL: u32 = 0x7374_626c;
pub const STSD: u32 = 0x7374_7364;
pub const AVCC: u32 = 0x6176_6343;
pub const STTS: u32 = 0x7374_7473;
pub const STSS: u32 = 0x7374_7373;
pub const STSC: u32 = 0x7374_7363;
pub const STSZ: u32 = 0x7374_737a;
pub const STCO: u32 = 0x7374_636f;
pub const MDAT: u32 = 0x6d64_6174;

/// Sum of the sample durations, in 90 kHz ticks.
pub open spec fn total_duration(samples: Seq<MuxSample>) -> nat
    decreases samples.len(),
{
    if samples.len() == 0 {
        0
    } else {
        (total_duration(samples.drop_last()) + samples.last().duration_90k) as nat
    }
}

/// Run-length encoding of the sample durations: (count, duration) pairs,
/// consecutive samples of equal duration sharing one run.
pub open spec fn duration_runs(samples: Seq<MuxSample>) -> Seq<(nat, u32)>
    decreases samples.len(),
{
    if samples.len() == 0 {
        Seq::empty()
    } else {
        let r = duration_runs(samples.drop_last());
        let d = samples.last().duration_90k;
        if r.len() > 0 && r.last().1 == d {
            r.update(r.len() - 1, ((r.last().0 + 1) as nat, d))
        } else {
            r.push((1nat, d))
        }
    }
}

/// The runs as they are stored: counts as 32-bit values.
pub open spec fn runs_u32(runs: Seq<(nat, u32)>) -> Seq<(u32, u32)> {
    runs.map_values(|r: (nat, u32)| (r.0 as u32, r.1))
}

/// `stts` entries: count then delta, for each run.
pub open spec fn runs_bytes(runs: Seq<(u32, u32)>) -> Seq<u8>
    decreases runs.len(),
{
    if runs.len() == 0 {
        Seq::empty()
    } else {
        runs_bytes(runs.drop_last()) + be32(runs.last().0) + be32(runs.last().1)
    }
}

/// 1-based numbers of the keyframe samples, in increasing order.
pub open spec fn keyframe_numbers(samples: Seq<MuxSample>) -> Seq<u32>
    decreases samples.len(),
{
    if samples.len() == 0 {
        Seq::empty()
    } else {
        let k = keyframe_numbers(samples.drop_last());
        if samples.last().is_keyframe {
            k.push((((samples.len() - 1) as u32) + 1) as u32)
        } else {
            k
        }
    }
}

/// Sample sizes as stored in `stsz`.
pub open spec fn sample_sizes(samples: Seq<MuxSample>) -> Seq<u32> {
    samples.map_values(|s: MuxSample| s.avcc@.len() as u32)
}

/// The samples' bytes back to back: the `mdat` payload.
pub open spec fn payload(samples: Seq<MuxSample>) -> Seq<u8>
    decreases samples.len(),
{
    if samples.len() == 0 {
        Seq::empty()
    } else {
        payload(samples.drop_last()) + samples.last().avcc@
    }
}

/// Movie duration in milliseconds (at least 1), as stored.
pub open spec fn total_ms(samples: Seq<MuxSample>) -> u32 {
    let ms = total_duration(samples) * 1000 / (TIMESCALE as nat);
    (if ms < 1 { 1 } else { ms }) as u32
}

/// Track duration in 90 kHz ticks, saturated to 32 bits.
pub open spec fn media_duration(samples: Seq<MuxSample>) -> u32 {
    let t = total_duration(samples);
    (if t > u32::MAX { u32::MAX as nat } else { t }) as u32
}

/// A 32-bit value saturated to 16 bits.
pub open spec fn sat16(v: u32) -> u16 {
    (if v < 0xFFFF { v } else { 0xFFFF }) as u16
}

pub open spec fn ftyp_content() -> Seq<u8> {
    be32(ISOM) + be32(512) + be32(ISOM) + be32(ISO2) + be32(AVC1) + be32(MP41)
}

pub open spec fn ftyp_box() -> Seq<u8> {
    mp4_box(FTYP, ftyp_content())
}

/// The unity transformation matrix of `mvhd` and `tkhd`.
pub open spec fn matrix_bytes() -> Seq<u8> {
    be32(0x0001_0000) + be32(0) + be32(0) + be32(0) + be32(0x0001_0000) + be32(0) + be32(0)
        + be32(0) + be32(0x4000_0000)
}

pub open spec fn mvhd_content(total_ms: u32) -> Seq<u8> {
    be32(0) + be32(0) + be32(MOVIE_TIMESCALE) + be32(total_ms) + be32(0x0001_0000) + be16(0x0100)
        + be16(0) + zeros(8) + matrix_bytes() + zeros(24) + be32(2)
}

pub open spec fn mvhd_box(total_ms: u32) -> Seq<u8> {
    full_box(MVHD, 0, 0, mvhd_content(total_ms))
}

pub open spec fn tkhd_content(width: u32, height: u32, total_ms: u32) -> Seq<u8> {
    be32(0) + be32(0) + be32(1) + be32(0) + be32(total_ms) + zeros(8) + be16(0) + be16(0) + be16(0)
        + be16(0) + matrix_bytes() + be32(width << 16u32) + be32(height << 16u32)
}

pub open spec fn tkhd_box(width: u32, height: u32, total_ms: u32) -> Seq<u8> {
    full_box(TKHD, 0, 7, tkhd_content(width, height, total_ms))
}

pub open spec fn mdhd_content(duration: u32) -> Seq<u8> {
    be32(0) + be32(0) + be32(TIMESCALE) + be32(duration) + be16(0x55c4) + be16(0)
}

pub open spec fn mdhd_box(duration: u32) -> Seq<u8> {
    full_box(MDHD, 0, 0, mdhd_content(duration))
}

/// `hdlr` content naming the track a video track ("VideoHandler", NUL-terminated).
pub open spec fn hdlr_content() -> Seq<u8> {
    be32(0) + be32(VIDE) + zeros(12) + be32(0x5669_6465) + be32(0x6f48_616e) + be32(0x646c_6572)
        + seq![0u8]
}

pub open spec fn hdlr_box() -> Seq<u8> {
    full_box(HDLR, 0, 0, hdlr_content())
}

pub open spec fn vmhd_content() -> Seq<u8> {
    be16(0) + be16(0) + be16(0) + be16(0)
}

pub open spec fn vmhd_box() -> Seq<u8> {
    full_box(VMHD, 0, 1, vmhd_content())
}

pub open spec fn url_box() -> Seq<u8> {
    full_box(URL_, 0, 1, Seq::empty())
}

pub open spec fn dref_box() -> Seq<u8> {
    full_box(DREF, 0, 0, be32(1) + url_box())
}

pub open spec fn dinf_box() -> Seq<u8> {
    mp4_box(DINF, dref_box())
}

/// `avcC` content: profile, compatibility and level from the SPS, 4-byte
/// NAL lengths, one SPS and one PPS.
pub open spec fn avcc_content(sps: Seq<u8>, pps: Seq<u8>) -> Seq<u8> {
    seq![1u8, sps[1], sps[2], sps[3], 0xFFu8, 0xE1u8] + be16(sps.len() as u16) + sps + seq![1u8]
        + be16(pps.len() as u16) + pps
}

pub open spec fn avcc_box(sps: Seq<u8>, pps: Seq<u8>) -> Seq<u8> {
    mp4_box(AVCC, avcc_content(sps, pps))
}

pub open spec fn avc1_content(width: u32, height: u32, sps: Seq<u8>, pps: Seq<u8>) -> Seq<u8> {
    zeros(6) + be16(1) + be16(0) + be16(0) + zeros(12) + be16(sat16(width)) + be16(sat16(height))
        + be32(0x0048_0000) + be32(0x0048_0000) + be32(0) + be16(1) + zeros(32) + be16(0x0018)
        + be16(0xFFFF) + avcc_box(sps, pps)
}

pub open spec fn avc1_box(width: u32, height: u32, sps: Seq<u8>, pps: Seq<u8>) -> Seq<u8> {
    mp4_box(AVC1, avc1_content(width, height, sps, pps))
}

pub open spec fn stsd_box(input: MuxInput) -> Seq<u8> {
    full_box(STSD, 0, 0, be32(1) + avc1_box(input.width, input.height, input.sps@, input.pps@))
}

pub open spec fn stts_box(runs: Seq<(u32, u32)>) -> Seq<u8> {
    full_box(STTS, 0, 0, be32(runs.len() as u32) + runs_bytes(runs))
}

pub open spec fn stss_box(sync: Seq<u32>) -> Seq<u8> {
    full_box(STSS, 0, 0, be32(sync.len() as u32) + be32_all(sync))
}

pub open spec fn stsc_content(count: nat) -> Seq<u8> {
    be32(1) + be32(1) + be32(count as u32) + be32(1)
}

pub open spec fn stsc_box(count: nat) -> Seq<u8> {
    full_box(STSC, 0, 0, stsc_content(count))
}

pub open spec fn stsz_box(samples: Seq<MuxSample>) -> Seq<u8> {
    full_box(STSZ, 0, 0, be32(0) + be32(samples.len() as u32) + be32_all(sample_sizes(samples)))
}

pub open spec fn stco_box(chunk_offset: u32) -> Seq<u8> {
    full_box(STCO, 0, 0, be32(1) + be32(chunk_offset))
}

pub open spec fn stbl_content(input: MuxInput, chunk_offset: u32) -> Seq<u8> {
    let samples = input.samples@;
    stsd_box(input) + stts_box(runs_u32(duration_runs(samples))) + stss_box(
        keyframe_numbers(samples),
    ) + stsc_box(samples.len()) + stsz_box(samples) + stco_box(chunk_offset)
}

pub open spec fn stbl_box(input: MuxInput, chunk_offset: u32) -> Seq<u8> {
    mp4_box(STBL, stbl_content(input, chunk_offset))
}

pub open spec fn minf_box(input: MuxInput, chunk_offset: u32) -> Seq<u8> {
    mp4_box(MINF, vmhd_box() + dinf_box() + stbl_box(input, chunk_offset))
}

pub open spec fn mdia_box(input: MuxInput, chunk_offset: u32) -> Seq<u8> {
    mp4_box(
        MDIA,
        mdhd_box(media_duration(input.samples@)) + hdlr_box() + minf_box(input, chunk_offset),
    )
}

pub open spec fn trak_box(input: MuxInput, chunk_offset: u32) -> Seq<u8> {
    mp4_box(
        TRAK,
        tkhd_box(input.width, input.height, total_ms(input.samples@)) + mdia_box(
            input,
            chunk_offset,
        ),
    )
}

/// The movie box, with the `stco` chunk offset given.
#[verifier::opaque]
pub open spec fn moov_box(input: MuxInput, chunk_offset: u32) -> Seq<u8> {
    mp4_box(MOOV, mvhd_box(total_ms(input.samples@)) + trak_box(input, chunk_offset))
}

pub open spec fn mdat_box(samples: Seq<MuxSample>) -> Seq<u8> {
    mp4_box(MDAT, payload(samples))
}

/// Where the sample data starts: after `ftyp`, `moov` and the `mdat` header.
pub open spec fn chunk_offset(input: MuxInput) -> u32 {
    (ftyp_box().len() + moov_box(input, 0).len() + 8) as u32
}

/// The whole file.
pub open spec fn mp4_file(input: MuxInput) -> Seq<u8> {
    ftyp_box() + moov_box(input, chunk_offset(input)) + mdat_box(input.samples@)
}

/// AVCC framing of NAL units: each one preceded by its length as a
/// big-endian 32-bit value.
pub open spec fn avcc_of(nals: Seq<Seq<u8>>) -> Seq<u8>
    decreases nals.len(),
{
    if nals.len() == 0 {
        Seq::empty()
    } else {
        avcc_of(nals.drop_last()) + be32(nals.last().len() as u32) + nals.last()
    }
}

/// The byte contents of a list of NAL buffers.
pub open spec fn nal_views(nals: Seq<Vec<u8>>) -> Seq<Seq<u8>> {
    nals.map_values(|n: Vec<u8>| n@)
}

} // verus!
