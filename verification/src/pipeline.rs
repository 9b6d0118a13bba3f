//! The recording pipeline's decisions: what to record, the frame rate, and
//! how encoded packets become MP4 samples. The capture and encode threads
//! that run them live in the application.

use vstd::prelude::*;
use std::path::PathBuf;
use crate::encoder::{is_sample_nal, sample_nal_units, sample_nals, EncodedPacket};
use crate::mp4_laws::{lemma_avcc_roundtrip, parse_avcc};
use crate::mp4_format::{avcc_of, nal_views};
use crate::mp4_muxer::{mux_error, mux_in_range, nals_to_avcc, write_mp4, MuxInput, MuxSample};
use crate::mp4_format::mp4_file;

verus! {

#[verifier::external_type_specification]
#[verifier::external_body]
pub struct ExPathBuf(PathBuf);

/// What to record, in desktop physical pixels (same space as screenshots).
#[derive(Debug, Clone, Copy, PartialEq, Eq, Structural)]
pub enum RecordSource {
    /// All monitors stitched, like a fullscreen screenshot.
    Fullscreen,
    /// Fixed rectangle; may span monitors.
    Region { x: i32, y: i32, w: u32, h: u32 },
}

pub struct PipelineConfig {
    pub source: RecordSource,
    pub fps: u32,
    pub output: PathBuf,
}

/// Nominal duration of one frame in 90 kHz ticks: 90000 / fps rounded to
/// the nearest tick, halves up (an infinite duration, saturated, at 0 fps).
pub open spec fn nominal_duration(fps: u32) -> u32 {
    if fps == 0 {
        u32::MAX
    } else {
        ((2 * 90_000 + fps) / (2 * fps as int)) as u32
    }
}

pub fn nominal_duration_90k(fps: u32) -> (d: u32)
    ensures
        d == nominal_duration(fps),
{
    if fps == 0 {
        u32::MAX
    } else {
        let num: u64 = 2 * 90_000 + fps as u64;
        let den: u64 = 2 * fps as u64;
        (num / den) as u32
    }
}

/// A packet as the assembler sees it: its NAL units and keyframe flag.
pub open spec fn packet_view(p: EncodedPacket) -> (Seq<Seq<u8>>, bool) {
    (nal_views(p.nal_units@), p.is_keyframe)
}

/// A sample as the muxer sees it: bytes, duration, keyframe flag.
pub open spec fn sample_view(s: MuxSample) -> (Seq<u8>, u32, bool) {
    (s.avcc@, s.duration_90k, s.is_keyframe)
}

pub open spec fn samples_view(s: Seq<MuxSample>) -> Seq<(Seq<u8>, u32, bool)> {
    s.map_values(|x: MuxSample| sample_view(x))
}

/// The sample a packet becomes when its duration is known: its slice NAL
/// units in AVCC form, or nothing when it has none.
pub open spec fn packet_sample(p: (Seq<Seq<u8>>, bool), duration: u32) -> Seq<(Seq<u8>, u32, bool)> {
    let nals = sample_nal_units(p.0);
    if nals.len() > 0 {
        seq![(avcc_of(nals), duration, p.1)]
    } else {
        Seq::empty()
    }
}

/// The NAL units that belong in a sample, picked from `nals`: the
/// non-empty ones other than SPS and PPS, in order.
proof fn lemma_sample_nal_units_filter(nals: Seq<Seq<u8>>)
    ensures
        sample_nal_units(nals) == nals.filter(|n: Seq<u8>| is_sample_nal(n)),
        (forall|i: int| 0 <= i < nals.len() ==> #[trigger] nals[i].len() <= u32::MAX) ==> (forall|j: int|
            0 <= j < sample_nal_units(nals).len() ==> #[trigger] sample_nal_units(nals)[j].len() <= u32::MAX),
    decreases nals.len(),
{
    if nals.len() == 0 {
        reveal(Seq::filter);
    } else {
        lemma_sample_nal_units_filter(nals.drop_last());
        let pred = |n: Seq<u8>| is_sample_nal(n);
        reveal(Seq::filter);
        assert(nals.filter(pred) == (if pred(nals.last()) {
            nals.drop_last().filter(pred).push(nals.last())
        } else {
            nals.drop_last().filter(pred)
        }));
        if forall|i: int| 0 <= i < nals.len() ==> #[trigger] nals[i].len() <= u32::MAX {
            assert forall|i: int| 0 <= i < nals.drop_last().len() implies #[trigger] nals.drop_last()[i].len() <= u32::MAX by {
                assert(nals.drop_last()[i] == nals[i]);
            }
            assert(nals.last() == nals[nals.len() - 1]);
        }
    }
}

/// What a packet becomes: a single sample when it holds a NAL unit that
/// belongs in one, nothing otherwise; the sample's bytes split back into
/// exactly the packet's non-empty units other than SPS and PPS, in order,
/// and it carries the duration given and the packet's keyframe flag.
pub proof fn lemma_packet_sample_content(p: (Seq<Seq<u8>>, bool), duration: u32)
    requires
        forall|i: int| 0 <= i < p.0.len() ==> #[trigger] p.0[i].len() <= u32::MAX,
    ensures
        ({
            let kept = p.0.filter(|n: Seq<u8>| is_sample_nal(n));
            let s = packet_sample(p, duration);
            &&& kept.len() == 0 ==> s.len() == 0
            &&& kept.len() > 0 ==> {
                &&& s.len() == 1
                &&& parse_avcc(s[0].0) == Some(kept)
                &&& s[0].1 == duration
                &&& s[0].2 == p.1
            }
        }),
{
    lemma_sample_nal_units_filter(p.0);
    let kept = sample_nal_units(p.0);
    if kept.len() > 0 {
        lemma_avcc_roundtrip(kept);
    }
}

/// The samples a list of packets becomes, all with the same duration.
pub open spec fn packets_samples(ps: Seq<(Seq<Seq<u8>>, bool)>, duration: u32) -> Seq<
    (Seq<u8>, u32, bool),
>
    decreases ps.len(),
{
    if ps.len() == 0 {
        Seq::empty()
    } else {
        packets_samples(ps.drop_last(), duration) + packet_sample(ps.last(), duration)
    }
}

/// Turns encoded packets into MP4 samples. A packet's duration is known
/// only when the next frame's timestamp arrives, so one packet waits.
pub struct SampleAssembler {
    samples: Vec<MuxSample>,
    pending: Option<EncodedPacket>,
}

impl SampleAssembler {
    pub closed spec fn samples_so_far(&self) -> Seq<(Seq<u8>, u32, bool)> {
        samples_view(self.samples@)
    }

    pub closed spec fn waiting(&self) -> Option<(Seq<Seq<u8>>, bool)> {
        match self.pending {
            Some(p) => Some(packet_view(p)),
            None => None,
        }
    }

    pub fn new() -> (a: SampleAssembler)
        ensures
            a.samples_so_far() == Seq::<(Seq<u8>, u32, bool)>::empty(),
            a.waiting() is None,
    {
        let a = SampleAssembler { samples: Vec::new(), pending: None };
        assert(a.samples_so_far() =~= Seq::<(Seq<u8>, u32, bool)>::empty());
        a
    }

    fn append_packet(&mut self, p: &EncodedPacket, duration: u32)
        ensures
            final(self).samples_so_far() == old(self).samples_so_far() + packet_sample(
                packet_view(*p),
                duration,
            ),
            final(self).pending == old(self).pending,
    {
        let nals = sample_nals(p);
        if nals.len() > 0 {
            let avcc = nals_to_avcc(nals.as_slice());
            let ghost before = self.samples@;
            self.samples.push(MuxSample { avcc, duration_90k: duration, is_keyframe: p.is_keyframe });
            assert(samples_view(self.samples@) =~= samples_view(before) + packet_sample(
                packet_view(*p),
                duration,
            ));
        } else {
            assert(self.samples_so_far() =~= old(self).samples_so_far() + packet_sample(
                packet_view(*p),
                duration,
            ));
        }
    }

    /// A new packet arrived; the waiting one (if any) lasted
    /// `waiting_duration_90k` and becomes a sample. The new one waits.
    pub fn push_packet(&mut self, packet: EncodedPacket, waiting_duration_90k: u32)
        ensures
            final(self).samples_so_far() == old(self).samples_so_far() + (match old(self).waiting() {
                Some(w) => packet_sample(w, waiting_duration_90k),
                None => Seq::empty(),
            }),
            final(self).waiting() == Some(packet_view(packet)),
    {
        let prev = self.pending.take();
        match prev {
            Some(p) => {
                self.append_packet(&p, waiting_duration_90k);
            },
            None => {
                assert(self.samples_so_far() =~= old(self).samples_so_far() + Seq::<
                    (Seq<u8>, u32, bool),
                >::empty());
            },
        }
        self.pending = Some(packet);
    }

    /// The input ended: the waiting packet gets the nominal duration.
    pub fn finish(&mut self, nominal_90k: u32)
        ensures
            final(self).samples_so_far() == old(self).samples_so_far() + (match old(self).waiting() {
                Some(w) => packet_sample(w, nominal_90k),
                None => Seq::empty(),
            }),
            final(self).waiting() is None,
    {
        let prev = self.pending.take();
        match prev {
            Some(p) => {
                self.append_packet(&p, nominal_90k);
            },
            None => {
                assert(self.samples_so_far() =~= old(self).samples_so_far() + Seq::<
                    (Seq<u8>, u32, bool),
                >::empty());
            },
        }
    }

    /// Packets drained from the encoder after the last frame, each with the
    /// nominal duration.
    pub fn push_flushed(&mut self, packets: Vec<EncodedPacket>, nominal_90k: u32)
        ensures
            final(self).samples_so_far() == old(self).samples_so_far() + packets_samples(
                packets@.map_values(|p: EncodedPacket| packet_view(p)),
                nominal_90k,
            ),
            final(self).waiting() == old(self).waiting(),
    {
        let ghost views = packets@.map_values(|p: EncodedPacket| packet_view(p));
        let ghost start = self.samples_so_far();
        let n = packets.len();
        let mut i: usize = 0;
        assert(views.take(0) =~= Seq::<(Seq<Seq<u8>>, bool)>::empty());
        assert(self.samples_so_far() =~= start + packets_samples(views.take(0), nominal_90k));
        while i < n
            invariant
                n == packets@.len(),
                views == packets@.map_values(|p: EncodedPacket| packet_view(p)),
                i <= n,
                self.samples_so_far() == start + packets_samples(views.take(i as int), nominal_90k),
                self.waiting() == old(self).waiting(),
            decreases n - i,
        {
            assert(views.take(i + 1).drop_last() =~= views.take(i as int));
            self.append_packet(&packets[i], nominal_90k);
            assert(self.samples_so_far() =~= start + packets_samples(views.take(i + 1), nominal_90k));
            i = i + 1;
        }
        assert(views.take(n as int) =~= views);
    }

    pub fn sample_count(&self) -> (n: usize)
        ensures
            n == self.samples_so_far().len(),
    {
        self.samples.len()
    }

    /// Hands out the samples.
    pub fn into_samples(self) -> (s: Vec<MuxSample>)
        ensures
            samples_view(s@) == self.samples_so_far(),
    {
        self.samples
    }
}

/// The message when a recording ends without any sample.
pub open spec fn no_frames_message() -> Seq<char> {
    "no frames were captured"@
}

/// The message when the encoder never produced its parameter sets.
pub open spec fn no_parameter_sets_message() -> Seq<char> {
    "encoder produced no SPS/PPS"@
}

/// The end of a recording: mux the samples with the encoder's SPS/PPS into
/// an MP4 file, refusing an empty recording and one without parameter sets.
pub fn finish_recording(
    samples: Vec<MuxSample>,
    codec_config: Option<(Vec<u8>, Vec<u8>)>,
    width: u32,
    height: u32,
) -> (r: Result<Vec<u8>, String>)
    requires
        forall|sps: Vec<u8>, pps: Vec<u8>|
            codec_config == Some((sps, pps)) ==> mux_in_range(
                MuxInput { width, height, sps, pps, samples },
            ),
    ensures
        samples@.len() == 0 ==> (r matches Err(e) && e@ == no_frames_message()),
        samples@.len() > 0 && codec_config is None ==> (r matches Err(e) && e@
            == no_parameter_sets_message()),
        samples@.len() > 0 ==> (codec_config matches Some((sps, pps)) ==> {
            let input = MuxInput { width, height, sps, pps, samples };
            match r {
                Ok(bytes) => mux_error(input) is None && bytes@ == mp4_file(input),
                Err(e) => mux_error(input) == Some(e@),
            }
        }),
{
    if samples.len() == 0 {
        return Err("no frames were captured".to_owned());
    }
    match codec_config {
        None => Err("encoder produced no SPS/PPS".to_owned()),
        Some((sps, pps)) => {
            let input = MuxInput { width, height, sps, pps, samples };
            write_mp4(&input)
        },
    }
}

} // verus!
