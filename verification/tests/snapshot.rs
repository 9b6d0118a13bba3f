use fullframe::frame::Frame;
use fullframe::snapshot::{
    blank_frame, checked_png_from_data_url, crop_png, data_url, decode_image, frame_png,
    image_from_data_url, png_from_data_url, stitch_monitors,
};

fn solid(w: u32, h: u32, px: [u8; 4]) -> Frame {
    Frame { width: w, height: h, rgba: px.iter().cycle().take((w * h * 4) as usize).cloned().collect() }
}

#[test]
fn data_url_prefixes_base64() {
    assert_eq!(data_url(b"hello"), "data:image/png;base64,aGVsbG8=");
    assert_eq!(data_url(b""), "data:image/png;base64,");
    assert_eq!(data_url(b"M"), "data:image/png;base64,TQ==");
    assert_eq!(data_url(b"Ma"), "data:image/png;base64,TWE=");
    assert_eq!(data_url(&[255, 254, 253]), "data:image/png;base64,//79");
}

#[test]
fn data_url_payload_decodes() {
    assert_eq!(png_from_data_url("data:image/png;base64,aGVsbG8=").unwrap(), b"hello".to_vec());
    assert_eq!(png_from_data_url("no comma here").unwrap_err(), "bad data url");
    assert!(png_from_data_url("data:,@@@").is_err());
    assert_eq!(png_from_data_url(&data_url(&[0, 1, 2, 250])).unwrap(), vec![0, 1, 2, 250]);
}

#[test]
fn png_round_trip_and_crop() {
    let mut f = solid(8, 6, [10, 20, 30, 255]);
    let o = ((2 * 8 + 3) * 4) as usize;
    f.rgba[o..o + 4].copy_from_slice(&[200, 100, 50, 255]);
    let png = frame_png(&f).unwrap();
    assert_eq!(&png[1..4], b"PNG");
    let back = image_from_data_url(&data_url(&png)).unwrap();
    assert_eq!((back.width, back.height), (8, 6));
    assert_eq!(back.rgba, f.rgba);
    // Crop 2x2 at (3, 2): its first pixel is the marked one.
    let c = image::load_from_memory(&crop_png(&png, 3, 2, 2, 2).unwrap()).unwrap().to_rgba8();
    assert_eq!(c.dimensions(), (2, 2));
    assert_eq!(c.get_pixel(0, 0).0, [200, 100, 50, 255]);
    // Out-of-range selections are clamped to at least 1x1 inside the image.
    let c = image::load_from_memory(&crop_png(&png, 100, 100, 0, 0).unwrap()).unwrap().to_rgba8();
    assert_eq!(c.dimensions(), (1, 1));
    let c = image::load_from_memory(&crop_png(&png, 6, 0, 50, 50).unwrap()).unwrap().to_rgba8();
    assert_eq!(c.dimensions(), (2, 6));
    assert!(crop_png(b"not an image", 0, 0, 1, 1).is_err());
}

#[test]
fn only_real_images_pass_the_save_check() {
    let png = frame_png(&solid(2, 2, [1, 2, 3, 255])).unwrap();
    assert_eq!(checked_png_from_data_url(&data_url(&png)).unwrap(), png);
    assert!(checked_png_from_data_url(&data_url(b"plain text")).is_err());
    assert_eq!(checked_png_from_data_url("nocomma").unwrap_err(), "bad data url");
}

#[test]
fn stitching_places_monitors_around_negative_offsets() {
    let left = solid(2, 2, [255, 0, 0, 255]);
    let right = solid(3, 1, [0, 0, 255, 255]);
    let d = stitch_monitors(&vec![(-2, 1, left), (0, 0, right)]).unwrap();
    assert_eq!((d.width, d.height), (5, 3));
    let px = |x: u32, y: u32| {
        let o = ((y * 5 + x) * 4) as usize;
        [d.rgba[o], d.rgba[o + 1], d.rgba[o + 2], d.rgba[o + 3]]
    };
    assert_eq!(px(0, 1), [255, 0, 0, 255]);
    assert_eq!(px(1, 2), [255, 0, 0, 255]);
    assert_eq!(px(2, 0), [0, 0, 255, 255]);
    assert_eq!(px(0, 0), [0, 0, 0, 0]);
    assert_eq!(stitch_monitors(&vec![]).err().unwrap(), "no monitors found");
}

#[test]
fn blank_frames_are_transparent_black() {
    let b = blank_frame(3, 2);
    assert_eq!(b.rgba, vec![0; 24]);
}

#[test]
fn empty_frames_are_not_encoded() {
    assert!(frame_png(&solid(0, 4, [1, 2, 3, 4])).is_err());
    assert!(frame_png(&solid(4, 0, [1, 2, 3, 4])).is_err());
    let png = frame_png(&solid(1, 1, [1, 2, 3, 4])).unwrap();
    assert_eq!(&png[1..4], b"PNG");
}

#[test]
fn data_url_round_trips() {
    for len in 0..40usize {
        let bytes: Vec<u8> = (0..len).map(|i| (i * 37 + 11) as u8).collect();
        assert_eq!(png_from_data_url(&data_url(&bytes)).unwrap(), bytes);
    }
}

#[test]
fn decode_image_reads_png_bytes() {
    let png = frame_png(&solid(3, 2, [9, 8, 7, 6])).unwrap();
    let f = decode_image(&png).unwrap();
    assert_eq!((f.width, f.height), (3, 2));
    assert_eq!(f.rgba, solid(3, 2, [9, 8, 7, 6]).rgba);
    assert!(decode_image(b"not an image").is_err());
}
