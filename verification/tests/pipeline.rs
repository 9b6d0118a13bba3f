use fullframe::encoder::EncodedPacket;
use fullframe::encoder::encoder_settings;
use fullframe::encoder_cpu::CpuEncoder;
use fullframe::pipeline::{finish_recording, nominal_duration_90k, RecordSource, SampleAssembler};
use openh264::encoder::{BitRate, Encoder, EncoderConfig, FrameRate, IntraFramePeriod, UsageType};
use openh264::OpenH264API;

fn packet(nals: Vec<Vec<u8>>, key: bool) -> EncodedPacket {
    EncodedPacket { nal_units: nals, is_keyframe: key }
}

#[test]
fn nominal_duration_rounds_to_nearest_tick() {
    assert_eq!(nominal_duration_90k(15), 6000);
    assert_eq!(nominal_duration_90k(30), 3000);
    assert_eq!(nominal_duration_90k(7), 12857);
    assert_eq!(nominal_duration_90k(11), 8182);
    assert_eq!(nominal_duration_90k(60), 1500);
    assert_eq!(nominal_duration_90k(0), u32::MAX);
    for fps in 1..=120u32 {
        assert_eq!(nominal_duration_90k(fps), (90_000f64 / fps as f64).round() as u32);
    }
}

#[test]
fn a_packet_waits_for_the_next_timestamp() {
    let mut a = SampleAssembler::new();
    a.push_packet(packet(vec![vec![0x67, 1], vec![0x65, 2]], true), 999);
    assert_eq!(a.sample_count(), 0);
    a.push_packet(packet(vec![vec![0x41, 3]], false), 2970);
    assert_eq!(a.sample_count(), 1);
    a.push_packet(packet(vec![vec![0x68]], false), 3030);
    a.push_packet(packet(vec![vec![0x41, 4]], false), 3000);
    a.finish(6000);
    a.push_flushed(vec![packet(vec![vec![0x41, 5]], false), packet(vec![], false)], 6000);
    let s = a.into_samples();
    let got: Vec<(Vec<u8>, u32, bool)> =
        s.iter().map(|x| (x.avcc.clone(), x.duration_90k, x.is_keyframe)).collect();
    assert_eq!(
        got,
        vec![
            (vec![0, 0, 0, 2, 0x65, 2], 2970, true),
            (vec![0, 0, 0, 2, 0x41, 3], 3030, false),
            (vec![0, 0, 0, 2, 0x41, 4], 6000, false),
            (vec![0, 0, 0, 2, 0x41, 5], 6000, false),
        ]
    );
}

#[test]
fn finishing_refuses_empty_or_unconfigured_recordings() {
    assert_eq!(
        finish_recording(Vec::new(), Some((vec![0x67, 0x42, 0, 0x1f], vec![0x68])), 64, 48)
            .unwrap_err(),
        "no frames were captured"
    );
    let mut a = SampleAssembler::new();
    a.push_packet(packet(vec![vec![0x65, 1]], true), 0);
    a.finish(3000);
    assert_eq!(
        finish_recording(a.into_samples(), None, 64, 48).unwrap_err(),
        "encoder produced no SPS/PPS"
    );
}

#[test]
fn record_source_is_plain_data() {
    let r = RecordSource::Region { x: -10, y: 20, w: 640, h: 480 };
    assert_eq!(r, r.clone());
    assert_ne!(r, RecordSource::Fullscreen);
}

#[test]
fn frames_to_mp4_end_to_end() {
    let s = encoder_settings(64, 64, 10).unwrap();
    let config = EncoderConfig::new()
        .bitrate(BitRate::from_bps(s.bitrate_bps))
        .max_frame_rate(FrameRate::from_hz(10.0))
        .usage_type(UsageType::ScreenContentRealTime)
        .intra_frame_period(IntraFramePeriod::from_num_frames(s.intra_period))
        .skip_frames(false);
    let mut enc = CpuEncoder::with_encoder(
        Encoder::with_api_config(OpenH264API::from_source(), config).unwrap(),
        &s,
    );
    enc.request_keyframe();
    let mut a = SampleAssembler::new();
    for f in 0..6u32 {
        let frame: Vec<u8> = (0..64 * 64 * 4).map(|i| ((i as u32 + f * 7) % 256) as u8).collect();
        let p = enc.encode_frame(&frame, (f * 100) as u64).unwrap();
        a.push_packet(p, 9000);
    }
    a.finish(nominal_duration_90k(10));
    let (sps, pps) = enc.codec_config().unwrap();
    let mp4 = finish_recording(a.into_samples(), Some((sps.clone(), pps)), 64, 64).unwrap();
    assert_eq!(&mp4[4..8], b"ftyp");
    let pos = mp4.windows(4).position(|w| w == b"avcC").unwrap();
    assert_eq!(mp4[pos + 5], sps[1]);
    assert!(mp4.windows(4).any(|w| w == b"mdat"));
}
