//! Software H.264 encoding through OpenH264. The encoder itself is built by
//! the application (its configuration takes a floating-point frame rate);
//! this module drives it frame by frame.

use vstd::prelude::*;
use openh264::encoder::Encoder;
use openh264::formats::{RgbaSliceU8, YUVBuffer};
use openh264::Timestamp;
use crate::encoder::{
    check_frame_len, concat_nals, contains_idr, first_of_type, frame_size_message, holds_idr,
    keep_first, kept_after, lemma_first_parameter_sets, raw_nal_units, EncodedPacket,
    EncoderSettings, ParameterSets, NAL_PPS, NAL_SPS,
};
use crate::mp4_format::nal_views;

verus! {

#[verifier::external_type_specification]
#[verifier::external_body]
pub struct ExEncoder(Encoder);

/// What the library has handed to OpenH264, call by call.
pub enum EncoderInput {
    /// An RGBA frame of the given size, to be encoded at `pts_ms`.
    Frame { rgba: Seq<u8>, width: u32, height: u32, pts_ms: u64 },
    /// A request that the next frame be an intra frame.
    ForceIntra,
}

/// The software encoder: an OpenH264 encoder, the frame size it was set up
/// for, the SPS/PPS seen in its output, and (for the proofs) what it was
/// given and the NAL units of every packet it returned.
pub struct CpuEncoder {
    enc: Encoder,
    width: u32,
    height: u32,
    params: ParameterSets,
    inputs: Ghost<Seq<EncoderInput>>,
    outputs: Ghost<Seq<Seq<Seq<u8>>>>,
    emitted: Ghost<Seq<Seq<Seq<u8>>>>,
}

/// Encodes one RGBA frame of the encoder's size with OpenH264: the frame
/// is converted by `YUVBuffer::from_rgba8_source` and encoded by
/// `Encoder::encode_at` at `ts_ms`, and the NAL units of every layer are
/// returned as the encoder emits them (Annex-B, start codes included); a
/// missing layer or unit is an error. The call is recorded in the
/// encoder's inputs, and the units it returns in its outputs. What comes
/// back depends on the encoder's state and rate control, so nothing more
/// is stated of it; `requires` excludes the
/// inputs on which those calls panic (a length other than
/// `width * height * 4`, odd sizes, a timestamp beyond `i64`).
#[verifier::external_body]
fn encode_rgba(e: &mut CpuEncoder, rgba: &[u8], ts_ms: u64) -> (r: Result<Vec<Vec<u8>>, String>)
    requires
        rgba@.len() == old(e).width * old(e).height * 4,
        old(e).width % 2 == 0,
        old(e).height % 2 == 0,
        ts_ms <= i64::MAX,
    ensures
        final(e).inputs@ == old(e).inputs@.push(
            (EncoderInput::Frame { rgba: rgba@, width: old(e).width, height: old(e).height, pts_ms: ts_ms }),
        ),
        r matches Ok(v) ==> final(e).outputs@ == old(e).outputs@.push(nal_views(v@)),
        r is Err ==> final(e).outputs == old(e).outputs,
        final(e).width == old(e).width,
        final(e).height == old(e).height,
        final(e).params == old(e).params,
        final(e).emitted == old(e).emitted,
{
    let yuv = YUVBuffer::from_rgba8_source(RgbaSliceU8::new(rgba, (e.width as usize, e.height as usize)));
    let stream = e.enc.encode_at(&yuv, Timestamp::from_millis(ts_ms)).map_err(|err| format!("encode failed: {err}"))?;
    let mut nals = Vec::new();
    for li in 0..stream.num_layers() {
        let layer = stream.layer(li).ok_or_else(|| format!("no layer {li}"))?;
        for ni in 0..layer.nal_count() {
            nals.push(layer.nal_unit(ni).ok_or_else(|| format!("no nal {ni}"))?.to_vec());
        }
    }
    Ok(nals)
}

/// Asks OpenH264 (`Encoder::force_intra_frame`) to make the next frame an
/// intra frame; the request is recorded in the encoder's inputs.
#[verifier::external_body]
fn force_intra_frame(e: &mut CpuEncoder)
    ensures
        final(e).inputs@ == old(e).inputs@.push(EncoderInput::ForceIntra),
        final(e).outputs == old(e).outputs,
        final(e).width == old(e).width,
        final(e).height == old(e).height,
        final(e).params == old(e).params,
        final(e).emitted == old(e).emitted,
{
    e.enc.force_intra_frame();
}

impl CpuEncoder {
    pub closed spec fn frame_width(&self) -> u32 {
        self.width
    }

    pub closed spec fn frame_height(&self) -> u32 {
        self.height
    }

    pub closed spec fn sps_view(&self) -> Option<Seq<u8>> {
        self.params.sps_view()
    }

    pub closed spec fn pps_view(&self) -> Option<Seq<u8>> {
        self.params.pps_view()
    }

    /// Everything handed to OpenH264 so far, in order.
    pub closed spec fn inputs(&self) -> Seq<EncoderInput> {
        self.inputs@
    }

    /// The NAL units OpenH264 returned for each frame so far (start codes
    /// included), in order.
    pub closed spec fn outputs(&self) -> Seq<Seq<Seq<u8>>> {
        self.outputs@
    }

    /// The NAL units of every packet returned so far, in order.
    pub closed spec fn emitted(&self) -> Seq<Seq<Seq<u8>>> {
        self.emitted@
    }

    /// The kept SPS and PPS are the first of their type in the packets
    /// returned so far.
    pub closed spec fn wf(&self) -> bool {
        &&& self.params.sps_view() == kept_after(self.emitted@, NAL_SPS)
        &&& self.params.pps_view() == kept_after(self.emitted@, NAL_PPS)
    }

    /// Wraps an OpenH264 encoder configured with `settings`.
    pub fn with_encoder(enc: Encoder, settings: &EncoderSettings) -> (e: CpuEncoder)
        ensures
            e.wf(),
            e.frame_width() == settings.width,
            e.frame_height() == settings.height,
            e.sps_view() is None,
            e.pps_view() is None,
            e.inputs() == Seq::<EncoderInput>::empty(),
            e.outputs() == Seq::<Seq<Seq<u8>>>::empty(),
            e.emitted() == Seq::<Seq<Seq<u8>>>::empty(),
    {
        CpuEncoder {
            enc,
            width: settings.width,
            height: settings.height,
            params: ParameterSets::new(),
            inputs: Ghost(Seq::empty()),
            outputs: Ghost(Seq::empty()),
            emitted: Ghost(Seq::empty()),
        }
    }

    /// Encode one RGBA frame (`width*height*4` bytes) at `pts_ms`.
    /// A frame of the wrong size is refused; otherwise the frame goes to
    /// the encoder, the packet holds the encoder's NAL units as raw units
    /// (start codes stripped, empty ones dropped), it is a keyframe when it
    /// holds an IDR slice, and the first SPS and PPS seen are kept.
    pub fn encode_frame(&mut self, rgba: &[u8], pts_ms: u64) -> (r: Result<EncodedPacket, String>)
        requires
            old(self).wf(),
            old(self).frame_width() % 2 == 0,
            old(self).frame_height() % 2 == 0,
            old(self).frame_width() * old(self).frame_height() * 4 <= usize::MAX,
            pts_ms <= i64::MAX,
        ensures
            final(self).wf(),
            final(self).frame_width() == old(self).frame_width(),
            final(self).frame_height() == old(self).frame_height(),
            rgba@.len() != old(self).frame_width() * old(self).frame_height() * 4 ==> {
                &&& r matches Err(e) && e@ == frame_size_message(
                    rgba@.len(),
                    old(self).frame_width(),
                    old(self).frame_height(),
                )
                &&& final(self).inputs() == old(self).inputs()
            },
            rgba@.len() == old(self).frame_width() * old(self).frame_height() * 4
                ==> final(self).inputs() == old(self).inputs().push(
                (EncoderInput::Frame {
                    rgba: rgba@,
                    width: old(self).frame_width(),
                    height: old(self).frame_height(),
                    pts_ms: pts_ms,
                }),
            ),
            match r {
                Ok(p) => {
                    &&& final(self).outputs().len() == old(self).outputs().len() + 1
                    &&& final(self).outputs().drop_last() == old(self).outputs()
                    &&& nal_views(p.nal_units@) == raw_nal_units(final(self).outputs().last())
                    &&& p.is_keyframe == holds_idr(nal_views(p.nal_units@))
                    &&& final(self).emitted() == old(self).emitted().push(nal_views(p.nal_units@))
                    &&& final(self).sps_view() == keep_first(
                        old(self).sps_view(),
                        nal_views(p.nal_units@),
                        NAL_SPS,
                    )
                    &&& final(self).pps_view() == keep_first(
                        old(self).pps_view(),
                        nal_views(p.nal_units@),
                        NAL_PPS,
                    )
                },
                Err(_) => {
                    &&& final(self).outputs() == old(self).outputs()
                    &&& final(self).emitted() == old(self).emitted()
                    &&& final(self).sps_view() == old(self).sps_view()
                    &&& final(self).pps_view() == old(self).pps_view()
                },
            },
    {
        check_frame_len(rgba.len(), self.width, self.height)?;
        let encoded = encode_rgba(self, rgba, pts_ms)?;
        let nal_units = self.params.absorb(&encoded);
        let is_keyframe = contains_idr(&nal_units);
        proof {
            self.emitted@ = self.emitted@.push(nal_views(nal_units@));
            assert(self.emitted@.drop_last() =~= old(self).emitted@);
            assert(self.outputs@.drop_last() =~= old(self).outputs@);
        }
        Ok(EncodedPacket { nal_units, is_keyframe })
    }

    /// Drain delayed frames: OpenH264 emits every frame synchronously, so
    /// there are none.
    pub fn flush(&mut self) -> (r: Result<Vec<EncodedPacket>, String>)
        ensures
            r matches Ok(v) && v@.len() == 0,
    {
        Ok(Vec::new())
    }

    /// Ask the encoder to make the next frame a keyframe.
    pub fn request_keyframe(&mut self)
        requires
            old(self).wf(),
        ensures
            final(self).wf(),
            final(self).inputs() == old(self).inputs().push(EncoderInput::ForceIntra),
            final(self).outputs() == old(self).outputs(),
            final(self).emitted() == old(self).emitted(),
            final(self).frame_width() == old(self).frame_width(),
            final(self).frame_height() == old(self).frame_height(),
            final(self).sps_view() == old(self).sps_view(),
            final(self).pps_view() == old(self).pps_view(),
    {
        force_intra_frame(self);
    }

    /// Raw SPS/PPS payloads for the MP4 `avcC` box: the first SPS and the
    /// first PPS among all packets returned so far; `None` until both have
    /// been seen.
    pub fn codec_config(&self) -> (c: Option<(Vec<u8>, Vec<u8>)>)
        requires
            self.wf(),
        ensures
            match c {
                Some((s, p)) => {
                    &&& self.sps_view() == Some(s@)
                    &&& self.pps_view() == Some(p@)
                    &&& first_of_type(concat_nals(self.emitted()), NAL_SPS) == Some(s@)
                    &&& first_of_type(concat_nals(self.emitted()), NAL_PPS) == Some(p@)
                },
                None => {
                    &&& self.sps_view() is None || self.pps_view() is None
                    &&& first_of_type(concat_nals(self.emitted()), NAL_SPS) is None
                        || first_of_type(concat_nals(self.emitted()), NAL_PPS) is None
                },
            },
    {
        proof {
            lemma_first_parameter_sets(self.emitted@, NAL_SPS);
            lemma_first_parameter_sets(self.emitted@, NAL_PPS);
        }
        self.params.codec_config()
    }

    pub fn width(&self) -> (w: u32)
        ensures
            w == self.frame_width(),
    {
        self.width
    }

    pub fn height(&self) -> (h: u32)
        ensures
            h == self.frame_height(),
    {
        self.height
    }
}

/// Across any run of calls, an encoder keeps the first SPS and the first
/// PPS among all the packets it has returned (none before it has seen
/// them), and what it kept at any earlier point stays kept.
pub proof fn lemma_encoder_keeps_first_parameter_sets(e: CpuEncoder)
    requires
        e.wf(),
    ensures
        e.sps_view() == first_of_type(concat_nals(e.emitted()), NAL_SPS),
        e.pps_view() == first_of_type(concat_nals(e.emitted()), NAL_PPS),
        forall|k: int|
            0 <= k <= e.emitted().len() && (#[trigger] kept_after(e.emitted().take(k), NAL_SPS)) is Some
                ==> e.sps_view() == kept_after(e.emitted().take(k), NAL_SPS),
        forall|k: int|
            0 <= k <= e.emitted().len() && (#[trigger] kept_after(e.emitted().take(k), NAL_PPS)) is Some
                ==> e.pps_view() == kept_after(e.emitted().take(k), NAL_PPS),
{
    lemma_first_parameter_sets(e.emitted@, NAL_SPS);
    lemma_first_parameter_sets(e.emitted@, NAL_PPS);
}

} // verus!
