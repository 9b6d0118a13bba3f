//! H.264 packet handling around the encoder: the encoder settings derived
//! from the recording size and rate, raw NAL extraction from the encoder's
//! Annex-B output, SPS/PPS capture for the `avcC` box, and the selection of
//! the NAL units that go into an MP4 sample.

use vstd::prelude::*;
use crate::mp4_format::nal_views;
use crate::text::{decimal, push_decimal};

verus! {

/// One encoded video access unit: H.264 NAL units plus metadata.
pub struct EncodedPacket {
    /// Raw NAL units (RBSP with NAL header byte, no start codes).
    pub nal_units: Vec<Vec<u8>>,
    /// True when the packet holds an IDR slice: independently decodable.
    pub is_keyframe: bool,
}

/// NAL unit type: the low five bits of the header byte.
pub open spec fn nal_type(nal: Seq<u8>) -> u8 {
    nal[0] & 0x1F
}

/// NAL type of a sequence parameter set.
pub const NAL_SPS: u8 = 7;

/// NAL type of a picture parameter set.
pub const NAL_PPS: u8 = 8;

/// A NAL unit that belongs in an MP4 sample: non-empty, and not an SPS or
/// PPS (those live in `avcC`).
pub open spec fn is_sample_nal(nal: Seq<u8>) -> bool {
    nal.len() > 0 && nal_type(nal) != NAL_SPS && nal_type(nal) != NAL_PPS
}

/// The sample NAL units of `nals`, in order.
pub open spec fn sample_nal_units(nals: Seq<Seq<u8>>) -> Seq<Seq<u8>>
    decreases nals.len(),
{
    if nals.len() == 0 {
        Seq::empty()
    } else {
        let rest = sample_nal_units(nals.drop_last());
        if is_sample_nal(nals.last()) {
            rest.push(nals.last())
        } else {
            rest
        }
    }
}

/// Copies a byte buffer.
pub fn copy_bytes(b: &[u8]) -> (out: Vec<u8>)
    ensures
        out@ == b@,
{
    let mut out: Vec<u8> = Vec::new();
    let n = b.len();
    let mut i: usize = 0;
    while i < n
        invariant
            n == b@.len(),
            i <= n,
            out@ == b@.take(i as int),
        decreases n - i,
    {
        out.push(b[i]);
        assert(out@ =~= b@.take(i + 1));
        i = i + 1;
    }
    assert(b@.take(n as int) =~= b@);
    out
}

/// Keep slice NALs for `mdat`, drop SPS/PPS (they live in `avcC`) and
/// empty units.
pub fn sample_nals(packet: &EncodedPacket) -> (out: Vec<Vec<u8>>)
    ensures
        nal_views(out@) == sample_nal_units(nal_views(packet.nal_units@)),
{
    let ghost views = nal_views(packet.nal_units@);
    let n = packet.nal_units.len();
    let mut out: Vec<Vec<u8>> = Vec::new();
    let mut i: usize = 0;
    assert(views.take(0) =~= Seq::<Seq<u8>>::empty());
    assert(nal_views(out@) =~= Seq::<Seq<u8>>::empty());
    while i < n
        invariant
            n == packet.nal_units@.len(),
            views == nal_views(packet.nal_units@),
            i <= n,
            nal_views(out@) == sample_nal_units(views.take(i as int)),
        decreases n - i,
    {
        let nal = &packet.nal_units[i];
        assert(views.take(i + 1).drop_last() =~= views.take(i as int));
        assert(views[i as int] == nal@);
        if nal.len() > 0 && (nal[0] & 0x1F) != NAL_SPS && (nal[0] & 0x1F) != NAL_PPS {
            let copy = copy_bytes(nal.as_slice());
            let ghost before = out@;
            out.push(copy);
            assert(nal_views(out@) =~= nal_views(before).push(nal@));
        }
        i = i + 1;
    }
    assert(views.take(n as int) =~= views);
    out
}

/// A NAL unit as the encoder emits it, with its 4-byte start code removed
/// when it has one.
pub open spec fn strip_start_code(nal: Seq<u8>) -> Seq<u8> {
    if nal.len() >= 4 && nal[0] == 0 && nal[1] == 0 && nal[2] == 0 && nal[3] == 1 {
        nal.skip(4)
    } else {
        nal
    }
}

/// The raw NAL units of the encoder's output: start codes stripped, empty
/// units dropped, order kept.
pub open spec fn raw_nal_units(encoded: Seq<Seq<u8>>) -> Seq<Seq<u8>>
    decreases encoded.len(),
{
    if encoded.len() == 0 {
        Seq::empty()
    } else {
        let rest = raw_nal_units(encoded.drop_last());
        let raw = strip_start_code(encoded.last());
        if raw.len() > 0 {
            rest.push(raw)
        } else {
            rest
        }
    }
}

/// The first NAL unit of type `t` in `nals`.
pub open spec fn first_of_type(nals: Seq<Seq<u8>>, t: u8) -> Option<Seq<u8>>
    decreases nals.len(),
{
    if nals.len() == 0 {
        None
    } else {
        match first_of_type(nals.drop_last(), t) {
            Some(n) => Some(n),
            None => if nals.last().len() > 0 && nal_type(nals.last()) == t {
                Some(nals.last())
            } else {
                None
            },
        }
    }
}

/// The parameter set of type `t` kept after `nals`: the one kept before,
/// or else the first of that type in `nals`.
pub open spec fn keep_first(prev: Option<Seq<u8>>, nals: Seq<Seq<u8>>, t: u8) -> Option<Seq<u8>> {
    match prev {
        Some(s) => Some(s),
        None => first_of_type(nals, t),
    }
}

/// All NAL units of a run of packets, in order.
pub open spec fn concat_nals(packets: Seq<Seq<Seq<u8>>>) -> Seq<Seq<u8>>
    decreases packets.len(),
{
    if packets.len() == 0 {
        Seq::empty()
    } else {
        concat_nals(packets.drop_last()) + packets.last()
    }
}

/// The parameter set of type `t` kept after a run of packets, starting
/// with none.
pub open spec fn kept_after(packets: Seq<Seq<Seq<u8>>>, t: u8) -> Option<Seq<u8>>
    decreases packets.len(),
{
    if packets.len() == 0 {
        None
    } else {
        keep_first(kept_after(packets.drop_last(), t), packets.last(), t)
    }
}

/// Searching `a + b` for the first unit of type `t` finds it in `a`, or
/// else in `b`.
proof fn lemma_first_of_type_concat(a: Seq<Seq<u8>>, b: Seq<Seq<u8>>, t: u8)
    ensures
        first_of_type(a + b, t) == keep_first(first_of_type(a, t), b, t),
    decreases b.len(),
{
    if b.len() == 0 {
        assert(a + b =~= a);
    } else {
        assert((a + b).drop_last() =~= a + b.drop_last());
        assert((a + b).last() == b.last());
        lemma_first_of_type_concat(a, b.drop_last(), t);
    }
}

/// The first SPS (or PPS) seen is the one kept: after any run of packets,
/// starting with none, the kept parameter set is the first unit of its
/// type in all the packets' units, and once one is kept it never changes.
pub proof fn lemma_first_parameter_sets(packets: Seq<Seq<Seq<u8>>>, t: u8)
    ensures
        kept_after(packets, t) == first_of_type(concat_nals(packets), t),
        forall|k: int|
            0 <= k <= packets.len() && (#[trigger] kept_after(packets.take(k), t)) is Some
                ==> kept_after(packets, t) == kept_after(packets.take(k), t),
    decreases packets.len(),
{
    if packets.len() > 0 {
        let init = packets.drop_last();
        lemma_first_parameter_sets(init, t);
        lemma_first_of_type_concat(concat_nals(init), packets.last(), t);
        assert forall|k: int|
            0 <= k <= packets.len() && (#[trigger] kept_after(packets.take(k), t)) is Some
                implies kept_after(packets, t) == kept_after(packets.take(k), t) by {
            if k < packets.len() {
                assert(init.take(k) =~= packets.take(k));
            } else {
                assert(packets.take(k) =~= packets);
            }
        }
    }
}

/// NAL type of an IDR slice.
pub const NAL_IDR: u8 = 5;

/// An IDR slice: a unit that starts an independently decodable picture.
pub open spec fn is_idr_nal(nal: Seq<u8>) -> bool {
    nal.len() > 0 && nal_type(nal) == NAL_IDR
}

/// Whether `nals` hold an IDR slice.
pub open spec fn holds_idr(nals: Seq<Seq<u8>>) -> bool {
    exists|i: int| 0 <= i < nals.len() && is_idr_nal(#[trigger] nals[i])
}

/// Whether the NAL units hold an IDR slice: what makes a packet a keyframe.
pub fn contains_idr(nals: &Vec<Vec<u8>>) -> (b: bool)
    ensures
        b == holds_idr(nal_views(nals@)),
{
    let ghost views = nal_views(nals@);
    let n = nals.len();
    let mut i: usize = 0;
    while i < n
        invariant
            n == nals@.len(),
            views == nal_views(nals@),
            i <= n,
            forall|j: int| 0 <= j < i ==> !is_idr_nal(#[trigger] views[j]),
        decreases n - i,
    {
        let nal = &nals[i];
        assert(views[i as int] == nal@);
        if nal.len() > 0 && (nal[0] & 0x1F) == NAL_IDR {
            return true;
        }
        i = i + 1;
    }
    false
}

/// The view of an optional byte buffer.
pub open spec fn opt_view(o: Option<Vec<u8>>) -> Option<Seq<u8>> {
    match o {
        Some(v) => Some(v@),
        None => None,
    }
}

/// The SPS and PPS seen so far in the encoder's output: the first of each.
pub struct ParameterSets {
    sps: Option<Vec<u8>>,
    pps: Option<Vec<u8>>,
}

impl ParameterSets {
    pub closed spec fn sps_view(&self) -> Option<Seq<u8>> {
        opt_view(self.sps)
    }

    pub closed spec fn pps_view(&self) -> Option<Seq<u8>> {
        opt_view(self.pps)
    }

    pub fn new() -> (p: ParameterSets)
        ensures
            p.sps_view() is None,
            p.pps_view() is None,
    {
        ParameterSets { sps: None, pps: None }
    }

    /// Turns the encoder's NAL units into raw ones and records the first SPS
    /// and PPS not seen before.
    pub fn absorb(&mut self, encoded: &Vec<Vec<u8>>) -> (raw: Vec<Vec<u8>>)
        ensures
            nal_views(raw@) == raw_nal_units(nal_views(encoded@)),
            final(self).sps_view() == keep_first(old(self).sps_view(), nal_views(raw@), NAL_SPS),
            final(self).pps_view() == keep_first(old(self).pps_view(), nal_views(raw@), NAL_PPS),
    {
        let ghost views = nal_views(encoded@);
        let ghost sps0 = self.sps_view();
        let ghost pps0 = self.pps_view();
        let n = encoded.len();
        let mut raw: Vec<Vec<u8>> = Vec::new();
        let mut i: usize = 0;
        assert(views.take(0) =~= Seq::<Seq<u8>>::empty());
        assert(nal_views(raw@) =~= Seq::<Seq<u8>>::empty());
        while i < n
            invariant
                n == encoded@.len(),
                views == nal_views(encoded@),
                i <= n,
                nal_views(raw@) == raw_nal_units(views.take(i as int)),
                self.sps_view() == (match sps0 {
                    Some(s) => Some(s),
                    None => first_of_type(raw_nal_units(views.take(i as int)), NAL_SPS),
                }),
                self.pps_view() == (match pps0 {
                    Some(p) => Some(p),
                    None => first_of_type(raw_nal_units(views.take(i as int)), NAL_PPS),
                }),
            decreases n - i,
        {
            let nal = &encoded[i];
            assert(views.take(i + 1).drop_last() =~= views.take(i as int));
            assert(views[i as int] == nal@);
            let stripped: Vec<u8> = if nal.len() >= 4 && nal[0] == 0 && nal[1] == 0 && nal[2] == 0
                && nal[3] == 1 {
                let mut s: Vec<u8> = Vec::new();
                let mut k: usize = 4;
                while k < nal.len()
                    invariant
                        4 <= k <= nal@.len(),
                        s@ == nal@.subrange(4, k as int),
                    decreases nal@.len() - k,
                {
                    s.push(nal[k]);
                    assert(s@ =~= nal@.subrange(4, k + 1));
                    k = k + 1;
                }
                assert(s@ =~= nal@.skip(4));
                s
            } else {
                copy_bytes(nal.as_slice())
            };
            assert(stripped@ == strip_start_code(nal@));
            let ghost prev = raw_nal_units(views.take(i as int));
            if stripped.len() > 0 {
                assert(raw_nal_units(views.take(i + 1)) == prev.push(stripped@));
                assert(prev.push(stripped@).drop_last() =~= prev);
            } else {
                assert(raw_nal_units(views.take(i + 1)) == prev);
            }
            if stripped.len() > 0 {
                let t = stripped[0] & 0x1F;
                if t == NAL_SPS && self.sps.is_none() {
                    self.sps = Some(copy_bytes(stripped.as_slice()));
                } else if t == NAL_PPS && self.pps.is_none() {
                    self.pps = Some(copy_bytes(stripped.as_slice()));
                }
                let ghost before = raw@;
                raw.push(stripped);
                assert(nal_views(raw@) =~= nal_views(before).push(raw@.last()@));
            }
            i = i + 1;
        }
        assert(views.take(n as int) =~= views);
        raw
    }

    /// Raw SPS/PPS payloads (no start codes), for the MP4 `avcC` box;
    /// `None` until both have been seen.
    pub fn codec_config(&self) -> (c: Option<(Vec<u8>, Vec<u8>)>)
        ensures
            match c {
                Some((s, p)) => self.sps_view() == Some(s@) && self.pps_view() == Some(p@),
                None => self.sps_view() is None || self.pps_view() is None,
            },
    {
        match (&self.sps, &self.pps) {
            (Some(s), Some(p)) => Some((copy_bytes(s.as_slice()), copy_bytes(p.as_slice()))),
            _ => None,
        }
    }
}

/// The frame rate the recorder runs at: the request clamped to 5..=60.
pub open spec fn clamped_fps(fps: u32) -> u32 {
    if fps < 5 {
        5
    } else if fps > 60 {
        60
    } else {
        fps
    }
}

/// A request inside 5..=60 is kept as it is; one below is raised to 5 and
/// one above lowered to 60, so the rate always lies in 5..=60.
pub proof fn lemma_clamped_fps(fps: u32)
    ensures
        5 <= clamped_fps(fps) <= 60,
        5 <= fps <= 60 ==> clamped_fps(fps) == fps,
        fps < 5 ==> clamped_fps(fps) == 5,
        fps > 60 ==> clamped_fps(fps) == 60,
{
}

/// The frame rate for a requested one: kept when in 5..=60, else the
/// nearer end of that range.
pub fn clamp_fps(fps: u32) -> (r: u32)
    ensures
        r == clamped_fps(fps),
        5 <= r <= 60,
        5 <= fps <= 60 ==> r == fps,
        fps < 5 ==> r == 5,
        fps > 60 ==> r == 60,
{
    if fps < 5 {
        5
    } else if fps > 60 {
        60
    } else {
        fps
    }
}

/// `v` rounded down to an even number (H.264 needs even dimensions).
pub open spec fn even_down(v: u32) -> u32 {
    (v - v % 2) as u32
}

pub fn round_down_even(v: u32) -> (r: u32)
    ensures
        r == even_down(v),
{
    let r = v & !1u32;
    assert(v & !1u32 == v - v % 2) by (bit_vector);
    r
}

/// The target bit rate: about 0.12 bits per pixel per frame, clamped to
/// 400 kbit/s ..= 16 Mbit/s.
pub open spec fn bitrate_for(width: u32, height: u32, fps: u32) -> u32 {
    let raw = width * height * fps * 12 / 100;
    (if raw < 400_000 {
        400_000
    } else if raw > 16_000_000 {
        16_000_000
    } else {
        raw
    }) as u32
}

/// Keyframe interval: two seconds of frames, at least 30.
pub open spec fn intra_period_for(fps: u32) -> u32 {
    (if fps * 2 < 30 {
        30
    } else {
        fps * 2
    }) as u32
}

/// How the H.264 encoder is configured for a recording.
pub struct EncoderSettings {
    pub width: u32,
    pub height: u32,
    pub fps: u32,
    pub bitrate_bps: u32,
    pub intra_period: u32,
}

/// The message for a recording region below 16x16 after rounding to even.
pub open spec fn region_too_small_message(width: u32, height: u32) -> Seq<char> {
    "recording region too small: "@ + decimal(width as nat) + "x"@ + decimal(height as nat)
}

/// The region is large enough to encode once rounded down to even sizes.
pub open spec fn encodable_size(width: u32, height: u32) -> bool {
    even_down(width) >= 16 && even_down(height) >= 16
}

/// Encoder settings for recording `width` x `height` at `fps`: sizes
/// rounded down to even (a pixel is shaved rather than failing), rate
/// clamped to 5..=60.
pub fn encoder_settings(width: u32, height: u32, fps: u32) -> (r: Result<EncoderSettings, String>)
    requires
        encodable_size(width, height) ==> even_down(width) * even_down(height) * clamped_fps(fps) * 12
            <= u64::MAX,
    ensures
        match r {
            Ok(s) => {
                &&& encodable_size(width, height)
                &&& s.width == even_down(width)
                &&& s.height == even_down(height)
                &&& s.fps == clamped_fps(fps)
                &&& s.bitrate_bps == bitrate_for(s.width, s.height, s.fps)
                &&& s.intra_period == intra_period_for(s.fps)
            },
            Err(e) => !encodable_size(width, height) && e@ == region_too_small_message(width, height),
        },
{
    let w = round_down_even(width);
    let h = round_down_even(height);
    if w < 16 || h < 16 {
        let mut msg = "recording region too small: ".to_owned();
        push_decimal(&mut msg, width as u64);
        msg.append("x");
        push_decimal(&mut msg, height as u64);
        return Err(msg);
    }
    let fps = clamp_fps(fps);
    assert(w * h <= w * h * fps && w * h * fps <= w * h * fps * 12) by (nonlinear_arith)
        requires
            fps >= 5,
    ;
    let raw = (w as u64) * (h as u64) * (fps as u64) * 12 / 100;
    let bps: u64 = if raw < 400_000 {
        400_000
    } else if raw > 16_000_000 {
        16_000_000
    } else {
        raw
    };
    let period: u32 = if fps * 2 < 30 { 30 } else { fps * 2 };
    Ok(EncoderSettings { width: w, height: h, fps, bitrate_bps: bps as u32, intra_period: period })
}

/// The message for an input frame of the wrong size.
pub open spec fn frame_size_message(len: nat, width: u32, height: u32) -> Seq<char> {
    "frame size "@ + decimal(len) + " != "@ + decimal(width as nat) + "x"@ + decimal(height as nat)
        + " RGBA"@
}

/// Checks that an RGBA frame holds `width * height * 4` bytes.
pub fn check_frame_len(len: usize, width: u32, height: u32) -> (r: Result<(), String>)
    requires
        width * height * 4 <= usize::MAX,
    ensures
        match r {
            Ok(()) => len == width * height * 4,
            Err(e) => len != width * height * 4 && e@ == frame_size_message(len as nat, width, height),
        },
{
    let expect = width as usize * height as usize * 4;
    if len != expect {
        let mut msg = "frame size ".to_owned();
        push_decimal(&mut msg, len as u64);
        msg.append(" != ");
        push_decimal(&mut msg, width as u64);
        msg.append("x");
        push_decimal(&mut msg, height as u64);
        msg.append(" RGBA");
        return Err(msg);
    }
    Ok(())
}

} // verus!
