//! Minimal ISOBMFF MP4 muxer for H.264 (AVC) video.

use vstd::prelude::*;
use crate::bytes::Writer;
use crate::mp4_boxes::{build_moov, write_ftyp, write_mdat, MoovTables};
use crate::mp4_format::{
    avcc_of, nal_views, duration_runs, ftyp_box, keyframe_numbers, media_duration, moov_box, mp4_file, runs_u32,
    total_duration, total_ms,
};

verus! {

/// One video sample for the muxer.
pub struct MuxSample {
    /// NAL units in AVCC form: each prefixed with a 4-byte big-endian length.
    pub avcc: Vec<u8>,
    /// Sample duration in 90 kHz ticks.
    pub duration_90k: u32,
    /// True for IDR/keyframe samples (listed in `stss`).
    pub is_keyframe: bool,
}

pub struct MuxInput {
    pub width: u32,
    pub height: u32,
    /// Raw SPS/PPS NAL payloads (no start codes).
    pub sps: Vec<u8>,
    pub pps: Vec<u8>,
    pub samples: Vec<MuxSample>,
}

/// Video timescale: 90 kHz, the H.264 convention.
pub const TIMESCALE: u32 = 90_000;

/// Movie timescale: milliseconds.
pub const MOVIE_TIMESCALE: u32 = 1_000;

/// The checks that come before any table is built: samples, SPS and PPS
/// present, SPS long enough to hold profile, compatibility and level.
pub open spec fn passes_header_checks(input: MuxInput) -> bool {
    &&& input.samples@.len() > 0
    &&& input.sps@.len() > 0
    &&& input.pps@.len() > 0
    &&& input.sps@.len() >= 4
}

/// Why `input` cannot be muxed, as the message `write_mp4` returns, or
/// `None` when it can.
pub open spec fn mux_error(input: MuxInput) -> Option<Seq<char>> {
    let samples = input.samples@;
    if samples.len() == 0 {
        Some("no samples to mux"@)
    } else if input.sps@.len() == 0 || input.pps@.len() == 0 {
        Some("missing SPS/PPS"@)
    } else if input.sps@.len() < 4 {
        Some("SPS too short"@)
    } else if total_duration(samples) == 0 {
        Some("zero-duration recording"@)
    } else if keyframe_numbers(samples).len() == 0 {
        Some("no keyframe in recording"@)
    } else {
        None
    }
}

/// The inputs on which muxing runs without arithmetic overflow: the total
/// duration in milliseconds' numerator fits in 64 bits, no run of equal
/// durations and no keyframe number exceeds 32 bits, and the file's header
/// part fits in memory.
pub open spec fn mux_in_range(input: MuxInput) -> bool {
    let s = input.samples@;
    passes_header_checks(input) ==> {
        &&& total_duration(s) * 1000 <= u64::MAX
        &&& total_duration(s) > 0 ==> {
            &&& forall|j: int|
                0 <= j < duration_runs(s).len() ==> #[trigger] duration_runs(s)[j].0 <= u32::MAX
            &&& forall|i: int| 0 <= i < s.len() && #[trigger] s[i].is_keyframe ==> (i as u32) < u32::MAX
            &&& keyframe_numbers(s).len() > 0 ==> ftyp_box().len() + moov_box(input, 0).len() + 8
                <= usize::MAX
        }
    }
}

/// A prefix's total duration never exceeds the whole's.
pub proof fn lemma_total_duration_prefix(s: Seq<MuxSample>, i: int)
    requires
        0 <= i <= s.len(),
    ensures
        total_duration(s.take(i)) <= total_duration(s),
    decreases s.len(),
{
    if i == s.len() {
        assert(s.take(i) =~= s);
    } else {
        assert(s.take(i) =~= s.drop_last().take(i));
        lemma_total_duration_prefix(s.drop_last(), i);
    }
}

/// Extending the samples only extends the run table and grows its counts.
pub proof fn lemma_duration_runs_prefix(s: Seq<MuxSample>, k: int, n: int)
    requires
        0 <= k <= n <= s.len(),
    ensures
        duration_runs(s.take(k)).len() <= duration_runs(s.take(n)).len(),
        forall|j: int|
            0 <= j < duration_runs(s.take(k)).len() ==> #[trigger] duration_runs(s.take(k))[j].0
                <= duration_runs(s.take(n))[j].0,
    decreases n - k,
{
    if k < n {
        lemma_duration_runs_prefix(s, k, n - 1);
        assert(s.take(n).drop_last() =~= s.take(n - 1));
    }
}

fn total_duration_exec(samples: &Vec<MuxSample>) -> (t: u64)
    requires
        total_duration(samples@) <= u64::MAX,
    ensures
        t == total_duration(samples@),
{
    let n = samples.len();
    let mut t: u64 = 0;
    let mut i: usize = 0;
    while i < n
        invariant
            n == samples@.len(),
            i <= n,
            total_duration(samples@) <= u64::MAX,
            t == total_duration(samples@.take(i as int)),
        decreases n - i,
    {
        assert(samples@.take(i + 1).drop_last() =~= samples@.take(i as int));
        proof {
            lemma_total_duration_prefix(samples@, i + 1);
        }
        t = t + samples[i].duration_90k as u64;
        i = i + 1;
    }
    assert(samples@.take(n as int) =~= samples@);
    t
}

fn duration_runs_exec(samples: &Vec<MuxSample>) -> (runs: Vec<(u32, u32)>)
    requires
        forall|j: int|
            0 <= j < duration_runs(samples@).len() ==> #[trigger] duration_runs(samples@)[j].0
                <= u32::MAX,
    ensures
        runs@ == runs_u32(duration_runs(samples@)),
{
    let n = samples.len();
    let mut runs: Vec<(u32, u32)> = Vec::new();
    let mut i: usize = 0;
    assert(samples@.take(0) =~= Seq::<MuxSample>::empty());
    assert(runs@ =~= runs_u32(duration_runs(samples@.take(0))));
    while i < n
        invariant
            n == samples@.len(),
            i <= n,
            forall|j: int|
                0 <= j < duration_runs(samples@).len() ==> #[trigger] duration_runs(samples@)[j].0
                    <= u32::MAX,
            runs@ == runs_u32(duration_runs(samples@.take(i as int))),
        decreases n - i,
    {
        let ghost r = duration_runs(samples@.take(i as int));
        let ghost r2 = duration_runs(samples@.take(i + 1));
        assert(samples@.take(i + 1).drop_last() =~= samples@.take(i as int));
        let d = samples[i].duration_90k;
        proof {
            lemma_duration_runs_prefix(samples@, i + 1, n as int);
            assert(samples@.take(n as int) =~= samples@);
        }
        let m = runs.len();
        if m > 0 && runs[m - 1].1 == d {
            assert(r2 == r.update(r.len() - 1, ((r.last().0 + 1) as nat, d)));
            assert(r2[m - 1].0 <= u32::MAX);
            let count = runs[m - 1].0;
            runs.set(m - 1, (count + 1, d));
            assert(runs@ =~= runs_u32(r2));
        } else {
            runs.push((1, d));
            assert(runs@ =~= runs_u32(r2));
        }
        i = i + 1;
    }
    assert(samples@.take(n as int) =~= samples@);
    runs
}

fn keyframe_numbers_exec(samples: &Vec<MuxSample>) -> (sync: Vec<u32>)
    requires
        forall|i: int|
            0 <= i < samples@.len() && #[trigger] samples@[i].is_keyframe ==> (i as u32) < u32::MAX,
    ensures
        sync@ == keyframe_numbers(samples@),
{
    let n = samples.len();
    let mut sync: Vec<u32> = Vec::new();
    let mut i: usize = 0;
    assert(samples@.take(0) =~= Seq::<MuxSample>::empty());
    while i < n
        invariant
            n == samples@.len(),
            i <= n,
            forall|k: int|
                0 <= k < samples@.len() && #[trigger] samples@[k].is_keyframe ==> (k as u32)
                    < u32::MAX,
            sync@ == keyframe_numbers(samples@.take(i as int)),
        decreases n - i,
    {
        assert(samples@.take(i + 1).drop_last() =~= samples@.take(i as int));
        if samples[i].is_keyframe {
            sync.push((i as u32) + 1);
        }
        i = i + 1;
    }
    assert(samples@.take(n as int) =~= samples@);
    sync
}

/// Convert raw NAL units (no start codes) to one AVCC sample.
pub fn nals_to_avcc(nals: &[Vec<u8>]) -> (out: Vec<u8>)
    ensures
        out@ == avcc_of(nal_views(nals@)),
{
    let ghost views = nal_views(nals@);
    let mut w = Writer::new();
    let n = nals.len();
    let mut i: usize = 0;
    assert(views.take(0) =~= Seq::<Seq<u8>>::empty());
    while i < n
        invariant
            n == nals@.len(),
            views == nal_views(nals@),
            i <= n,
            w@ == avcc_of(views.take(i as int)),
        decreases n - i,
    {
        let nal = &nals[i];
        w.u32(nal.len() as u32);
        w.bytes(nal.as_slice());
        assert(views.take(i + 1).drop_last() =~= views.take(i as int));
        assert(w@ =~= avcc_of(views.take(i + 1)));
        i = i + 1;
    }
    assert(views.take(n as int) =~= views);
    w.into_bytes()
}

/// Mux H.264 samples with their SPS/PPS into a complete `.mp4` file.
pub fn write_mp4(input: &MuxInput) -> (result: Result<Vec<u8>, String>)
    requires
        mux_in_range(*input),
    ensures
        match result {
            Ok(bytes) => mux_error(*input) is None && bytes@ == mp4_file(*input),
            Err(e) => mux_error(*input) == Some(e@),
        },
{
    if input.samples.len() == 0 {
        return Err("no samples to mux".to_owned());
    }
    if input.sps.len() == 0 || input.pps.len() == 0 {
        return Err("missing SPS/PPS".to_owned());
    }
    if input.sps.len() < 4 {
        return Err("SPS too short".to_owned());
    }
    let total_90k = total_duration_exec(&input.samples);
    if total_90k == 0 {
        return Err("zero-duration recording".to_owned());
    }
    let q = total_90k * 1_000 / (TIMESCALE as u64);
    let total_ms_v: u64 = if q < 1 { 1 } else { q };
    let media: u32 = if total_90k > u32::MAX as u64 { u32::MAX } else { total_90k as u32 };

    let mut w = Writer::new();
    write_ftyp(&mut w);
    let ftyp_len = w.len();

    let runs = duration_runs_exec(&input.samples);
    let sync = keyframe_numbers_exec(&input.samples);
    if sync.len() == 0 {
        return Err("no keyframe in recording".to_owned());
    }
    let tables = MoovTables { total_ms: total_ms_v as u32, media_duration: media, runs, sync };
    assert(tables.describe(*input));

    let moov_probe = build_moov(input, &tables, 0);
    let chunk_offset = (ftyp_len + moov_probe.len() + 8) as u32;
    let moov = build_moov(input, &tables, chunk_offset);
    w.bytes(moov.as_slice());
    write_mdat(&mut w, &input.samples);
    Ok(w.into_bytes())
}

} // verus!
