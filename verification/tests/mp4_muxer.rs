use fullframe::mp4_muxer::{nals_to_avcc, write_mp4, MuxInput, MuxSample, TIMESCALE};

/// Parse top-level box tags to sanity-check structure.
fn top_boxes(mp4: &[u8]) -> Vec<[u8; 4]> {
    let mut v = Vec::new();
    let mut off = 0;
    while off + 8 <= mp4.len() {
        let size = u32::from_be_bytes(mp4[off..off + 4].try_into().unwrap()) as usize;
        if size < 8 || off + size > mp4.len() {
            break;
        }
        v.push(mp4[off + 4..off + 8].try_into().unwrap());
        off += size;
    }
    v
}

fn find_in(buf: &[u8], base: usize, tag: &[u8; 4]) -> Option<(usize, usize)> {
    let mut off = 0;
    while off + 8 <= buf.len() {
        let size = u32::from_be_bytes(buf[off..off + 4].try_into().unwrap()) as usize;
        if size < 8 || off + size > buf.len() {
            return None;
        }
        if &buf[off + 4..off + 8] == tag {
            return Some((base + off + 8, base + off + size));
        }
        if matches!(
            &buf[off + 4..off + 8],
            b"moov" | b"trak" | b"mdia" | b"minf" | b"stbl" | b"edts" | b"dinf"
        ) {
            if let Some(r) = find_in(&buf[off + 8..off + size], base + off + 8, tag) {
                return Some(r);
            }
        }
        off += size;
    }
    None
}

/// Find a box by tag anywhere (first match, recursive), return its content range.
fn find_box(mp4: &[u8], tag: &[u8; 4]) -> Option<(usize, usize)> {
    find_in(mp4, 0, tag)
}

fn be32(b: &[u8], at: usize) -> u32 {
    u32::from_be_bytes(b[at..at + 4].try_into().unwrap())
}

fn fake_input() -> MuxInput {
    // Minimal plausible SPS (baseline, level 3.1, 640x480) / PPS.
    let sps = vec![0x67, 0x42, 0x00, 0x1f, 0x96, 0x54, 0x05, 0x01];
    let pps = vec![0x68, 0xce, 0x38, 0x80];
    let samples = (0..10)
        .map(|i| MuxSample {
            avcc: {
                let mut v = (100 + i as u32).to_be_bytes().to_vec();
                v.extend_from_slice(&vec![0x65u8; 100 + i as usize]);
                v
            },
            duration_90k: 3000, // 30fps
            is_keyframe: i % 5 == 0,
        })
        .collect();
    MuxInput {
        width: 640,
        height: 480,
        sps,
        pps,
        samples,
    }
}

#[test]
fn structure_is_sound() {
    let mp4 = write_mp4(&fake_input()).unwrap();
    let tags: Vec<String> = top_boxes(&mp4)
        .iter()
        .map(|t| String::from_utf8_lossy(t).into_owned())
        .collect();
    assert_eq!(tags, vec!["ftyp", "moov", "mdat"]);
    // stco points exactly at mdat payload.
    let (s, _) = find_box(&mp4, b"stco").unwrap();
    let entry_count = u32::from_be_bytes(mp4[s + 4..s + 8].try_into().unwrap());
    assert_eq!(entry_count, 1);
    let chunk_off = u32::from_be_bytes(mp4[s + 8..s + 12].try_into().unwrap()) as usize;
    let (ms, _) = find_box(&mp4, b"mdat").unwrap();
    assert_eq!(chunk_off, ms, "stco must point at mdat payload");
    // stss lists samples 1 and 6.
    let (s, e) = find_box(&mp4, b"stss").unwrap();
    let n = u32::from_be_bytes(mp4[s + 4..s + 8].try_into().unwrap());
    assert_eq!(n, 2);
    assert_eq!(
        u32::from_be_bytes(mp4[s + 8..s + 12].try_into().unwrap()),
        1
    );
    assert_eq!(
        u32::from_be_bytes(mp4[s + 12..s + 16].try_into().unwrap()),
        6
    );
    let _ = e;
}

#[test]
fn rejects_empty() {
    let mut bad = fake_input();
    bad.samples.clear();
    assert!(write_mp4(&bad).is_err());
}

#[test]
fn error_messages_follow_the_checks_in_order() {
    let mut i = fake_input();
    i.samples.clear();
    assert_eq!(write_mp4(&i).unwrap_err(), "no samples to mux");
    let mut i = fake_input();
    i.pps.clear();
    assert_eq!(write_mp4(&i).unwrap_err(), "missing SPS/PPS");
    let mut i = fake_input();
    i.sps = vec![0x67, 0x42, 0x00];
    assert_eq!(write_mp4(&i).unwrap_err(), "SPS too short");
    let mut i = fake_input();
    for s in &mut i.samples {
        s.duration_90k = 0;
    }
    assert_eq!(write_mp4(&i).unwrap_err(), "zero-duration recording");
    let mut i = fake_input();
    for s in &mut i.samples {
        s.is_keyframe = false;
    }
    assert_eq!(write_mp4(&i).unwrap_err(), "no keyframe in recording");
}

#[test]
fn ftyp_is_exact() {
    let mp4 = write_mp4(&fake_input()).unwrap();
    let mut expect = vec![0, 0, 0, 32];
    expect.extend_from_slice(b"ftypisom");
    expect.extend_from_slice(&[0, 0, 2, 0]);
    expect.extend_from_slice(b"isomiso2avc1mp41");
    assert_eq!(&mp4[..32], &expect[..]);
}

#[test]
fn durations_are_stored() {
    let mp4 = write_mp4(&fake_input()).unwrap();
    // mvhd: 10 x 3000 ticks = 30000 ticks = 333 ms.
    let (s, _) = find_box(&mp4, b"mvhd").unwrap();
    assert_eq!(be32(&mp4, s + 12), 1000);
    assert_eq!(be32(&mp4, s + 16), 333);
    let (s, _) = find_box(&mp4, b"mdhd").unwrap();
    assert_eq!(be32(&mp4, s + 12), TIMESCALE);
    assert_eq!(be32(&mp4, s + 16), 30000);
    let (s, _) = find_box(&mp4, b"tkhd").unwrap();
    assert_eq!(be32(&mp4, s + 12), 1);
    assert_eq!(be32(&mp4, s + 20), 333);
    assert_eq!(be32(&mp4, s + 76), 640 << 16);
    assert_eq!(be32(&mp4, s + 80), 480 << 16);
}

#[test]
fn stts_coalesces_equal_durations() {
    let mut i = fake_input();
    let durs = [3000, 3000, 2999, 2999, 2999, 3000, 3000, 3000, 3000, 1];
    for (s, d) in i.samples.iter_mut().zip(durs) {
        s.duration_90k = d;
    }
    let mp4 = write_mp4(&i).unwrap();
    let (s, _) = find_box(&mp4, b"stts").unwrap();
    assert_eq!(be32(&mp4, s + 4), 4);
    let runs: Vec<(u32, u32)> = (0..4)
        .map(|k| (be32(&mp4, s + 8 + 8 * k), be32(&mp4, s + 12 + 8 * k)))
        .collect();
    assert_eq!(runs, vec![(2, 3000), (3, 2999), (4, 3000), (1, 1)]);
}

#[test]
fn sample_tables_and_payload() {
    let input = fake_input();
    let mp4 = write_mp4(&input).unwrap();
    let (s, _) = find_box(&mp4, b"stsz").unwrap();
    assert_eq!(be32(&mp4, s + 4), 0);
    assert_eq!(be32(&mp4, s + 8), 10);
    for k in 0..10 {
        assert_eq!(be32(&mp4, s + 12 + 4 * k) as usize, input.samples[k].avcc.len());
    }
    let (s, _) = find_box(&mp4, b"stsc").unwrap();
    assert_eq!(
        (be32(&mp4, s + 4), be32(&mp4, s + 8), be32(&mp4, s + 12), be32(&mp4, s + 16)),
        (1, 1, 10, 1)
    );
    let (ms, me) = find_box(&mp4, b"mdat").unwrap();
    assert_eq!(me, mp4.len());
    let payload: Vec<u8> = input.samples.iter().flat_map(|s| s.avcc.clone()).collect();
    assert_eq!(&mp4[ms..me], &payload[..]);
}

#[test]
fn avcc_box_carries_parameter_sets() {
    let input = fake_input();
    let mp4 = write_mp4(&input).unwrap();
    let pos = mp4.windows(4).position(|w| w == b"avcC").unwrap();
    let c = pos + 4;
    assert_eq!(&mp4[c..c + 6], &[1, 0x42, 0x00, 0x1f, 0xFF, 0xE1]);
    assert_eq!(&mp4[c + 6..c + 8], &[0, 8]);
    assert_eq!(&mp4[c + 8..c + 16], &input.sps[..]);
    assert_eq!(&mp4[c + 16..c + 19], &[1, 0, 4]);
    assert_eq!(&mp4[c + 19..c + 23], &input.pps[..]);
}

#[test]
fn nals_to_avcc_length_prefixes_each_unit() {
    let out = nals_to_avcc(&[vec![0x65, 1, 2], vec![], vec![0x41; 300]]);
    let mut expect = vec![0, 0, 0, 3, 0x65, 1, 2, 0, 0, 0, 0, 0, 0, 1, 44];
    expect.extend_from_slice(&[0x41; 300]);
    assert_eq!(out, expect);
    assert!(nals_to_avcc(&[]).is_empty());
}

#[test]
fn avcc_round_trips() {
    let nals = vec![vec![0x65, 9, 9, 9], vec![0x06, 5], vec![0x41]];
    let bytes = nals_to_avcc(&nals);
    let mut back = Vec::new();
    let mut off = 0;
    while off < bytes.len() {
        let n = be32(&bytes, off) as usize;
        back.push(bytes[off + 4..off + 4 + n].to_vec());
        off += 4 + n;
    }
    assert_eq!(back, nals);
}

#[test]
fn chunk_offset_counts_ftyp_moov_and_mdat_header() {
    let mp4 = write_mp4(&fake_input()).unwrap();
    let moov_len = be32(&mp4, 32) as usize;
    let (s, _) = find_box(&mp4, b"stco").unwrap();
    assert_eq!(be32(&mp4, s + 8) as usize, 32 + moov_len + 8);
    // The stco entry is moov's last four bytes.
    assert_eq!(s + 12, 32 + moov_len);
}
