use fullframe::encoder::{
    check_frame_len, clamp_fps, contains_idr, encoder_settings, round_down_even, sample_nals,
    EncodedPacket, ParameterSets,
};
use fullframe::encoder_cpu::CpuEncoder;
use openh264::encoder::{BitRate, Encoder, EncoderConfig, FrameRate, IntraFramePeriod, UsageType};
use openh264::OpenH264API;

#[test]
fn settings_round_sizes_down_to_even_and_clamp_rate() {
    let s = encoder_settings(641, 481, 100).unwrap();
    assert_eq!((s.width, s.height, s.fps), (640, 480, 60));
    assert_eq!(s.bitrate_bps, 640 * 480 * 60 * 12 / 100);
    assert_eq!(s.intra_period, 120);
    let s = encoder_settings(1920, 1080, 15).unwrap();
    assert_eq!(s.bitrate_bps, 3_732_480);
    assert_eq!(s.intra_period, 30);
}

#[test]
fn settings_clamp_bitrate_both_ways() {
    let s = encoder_settings(16, 16, 1).unwrap();
    assert_eq!(s.fps, 5);
    assert_eq!(s.bitrate_bps, 400_000);
    assert_eq!(s.intra_period, 30);
    let s = encoder_settings(3840, 2160, 60).unwrap();
    assert_eq!(s.bitrate_bps, 16_000_000);
}

#[test]
fn settings_refuse_tiny_regions() {
    assert_eq!(
        encoder_settings(17, 15, 30).err().unwrap(),
        "recording region too small: 17x15"
    );
    assert_eq!(
        encoder_settings(0, 1000, 30).err().unwrap(),
        "recording region too small: 0x1000"
    );
}

#[test]
fn helpers_clamp_and_round() {
    assert_eq!(clamp_fps(0), 5);
    assert_eq!(clamp_fps(30), 30);
    assert_eq!(clamp_fps(61), 60);
    assert_eq!(round_down_even(7), 6);
    assert_eq!(round_down_even(8), 8);
    assert_eq!(round_down_even(u32::MAX), u32::MAX - 1);
}

#[test]
fn frame_length_is_checked() {
    assert!(check_frame_len(16, 2, 2).is_ok());
    assert_eq!(check_frame_len(10, 2, 2).unwrap_err(), "frame size 10 != 2x2 RGBA");
}

#[test]
fn sample_nals_drop_parameter_sets_and_empty_units() {
    let p = EncodedPacket {
        nal_units: vec![vec![], vec![0x67, 1], vec![0x68, 2], vec![0x65, 3, 4], vec![0x41], vec![0x06, 5]],
        is_keyframe: true,
    };
    assert_eq!(sample_nals(&p), vec![vec![0x65, 3, 4], vec![0x41], vec![0x06, 5]]);
}

#[test]
fn parameter_sets_keep_the_first_sps_and_pps() {
    let mut ps = ParameterSets::new();
    assert!(ps.codec_config().is_none());
    let raw = ps.absorb(&vec![
        vec![0, 0, 0, 1, 0x67, 1],
        vec![0, 0, 0, 1, 0x68, 2],
        vec![0, 0, 0, 1],
        vec![0x65, 3],
        vec![0, 0, 1, 0x41],
    ]);
    assert_eq!(raw, vec![vec![0x67, 1], vec![0x68, 2], vec![0x65, 3], vec![0, 0, 1, 0x41]]);
    assert_eq!(ps.codec_config(), Some((vec![0x67, 1], vec![0x68, 2])));
    ps.absorb(&vec![vec![0, 0, 0, 1, 0x67, 9], vec![0, 0, 0, 1, 0x68, 9]]);
    assert_eq!(ps.codec_config(), Some((vec![0x67, 1], vec![0x68, 2])));
}

#[test]
fn parameter_sets_need_both() {
    let mut ps = ParameterSets::new();
    ps.absorb(&vec![vec![0, 0, 0, 1, 0x67, 1]]);
    assert!(ps.codec_config().is_none());
}

fn openh264_encoder(w: u32, h: u32, fps: u32) -> CpuEncoder {
    let s = encoder_settings(w, h, fps).unwrap();
    let config = EncoderConfig::new()
        .bitrate(BitRate::from_bps(s.bitrate_bps))
        .max_frame_rate(FrameRate::from_hz(s.fps as f32))
        .usage_type(UsageType::ScreenContentRealTime)
        .intra_frame_period(IntraFramePeriod::from_num_frames(s.intra_period))
        .skip_frames(false);
    let enc = Encoder::with_api_config(OpenH264API::from_source(), config).unwrap();
    CpuEncoder::with_encoder(enc, &s)
}

#[test]
fn cpu_encoder_emits_raw_nals_and_parameter_sets() {
    let mut enc = openh264_encoder(65, 48, 10);
    assert_eq!((enc.width(), enc.height()), (64, 48));
    enc.request_keyframe();
    let frame: Vec<u8> = (0..64 * 48 * 4).map(|i| (i % 251) as u8).collect();
    let p = enc.encode_frame(&frame, 0).unwrap();
    assert!(p.is_keyframe);
    assert!(p.nal_units.iter().any(|n| n[0] & 0x1F == 5));
    assert!(!p.nal_units.is_empty());
    for n in &p.nal_units {
        assert!(!n.is_empty());
        assert_ne!(&n[..n.len().min(4)], &[0, 0, 0, 1][..n.len().min(4)]);
    }
    let (sps, pps) = enc.codec_config().unwrap();
    assert_eq!(sps[0] & 0x1F, 7);
    assert_eq!(pps[0] & 0x1F, 8);
    assert!(enc.flush().unwrap().is_empty());
}

#[test]
fn cpu_encoder_refuses_wrong_frame_size() {
    let mut enc = openh264_encoder(32, 32, 10);
    assert_eq!(enc.encode_frame(&[1, 2, 3], 0).err().unwrap(), "frame size 3 != 32x32 RGBA");
}

#[test]
fn keyframes_are_packets_with_an_idr_slice() {
    assert!(contains_idr(&vec![vec![0x67, 1], vec![0x68, 2], vec![0x65, 3]]));
    assert!(!contains_idr(&vec![vec![0x41, 1], vec![0x67]]));
    assert!(!contains_idr(&vec![vec![], vec![0x01]]));
    assert!(!contains_idr(&vec![]));
}

#[test]
fn cpu_encoder_keeps_the_first_parameter_sets_across_frames() {
    let mut enc = openh264_encoder(64, 48, 10);
    let frame: Vec<u8> = (0..64 * 48 * 4).map(|i| (i % 13) as u8).collect();
    let first = enc.encode_frame(&frame, 0).unwrap();
    let sps = first.nal_units.iter().find(|n| n[0] & 0x1F == 7).unwrap().clone();
    let pps = first.nal_units.iter().find(|n| n[0] & 0x1F == 8).unwrap().clone();
    for f in 1..5u64 {
        let p = enc.encode_frame(&frame, f * 100).unwrap();
        assert_eq!(p.is_keyframe, p.nal_units.iter().any(|n| n[0] & 0x1F == 5));
        enc.request_keyframe();
    }
    assert_eq!(enc.codec_config(), Some((sps, pps)));
}
