use fullframe::frame::{
    blit_bgra, blit_x11_image, crop, crop_region, crop_to_even, desktop_bounds, Frame,
};

fn numbered(w: u32, h: u32) -> Frame {
    Frame { width: w, height: h, rgba: (0..w * h * 4).map(|i| (i % 256) as u8).collect() }
}

fn pixel(f: &Frame, x: u32, y: u32) -> [u8; 4] {
    let o = ((y * f.width + x) * 4) as usize;
    [f.rgba[o], f.rgba[o + 1], f.rgba[o + 2], f.rgba[o + 3]]
}

#[test]
fn crop_takes_the_window() {
    let f = numbered(4, 3);
    let c = crop(&f, 1, 1, 2, 2);
    assert_eq!((c.width, c.height), (2, 2));
    assert_eq!(pixel(&c, 0, 0), pixel(&f, 1, 1));
    assert_eq!(pixel(&c, 1, 1), pixel(&f, 2, 2));
    assert_eq!(c.rgba.len(), 16);
}

#[test]
fn crop_region_clamps_and_aligns() {
    let d = numbered(100, 80);
    // Region partly left of the desktop: clamped to x = 0.
    let c = crop_region(&d, (-50, 10), (-60, 20, 41, 33)).unwrap();
    assert_eq!((c.width, c.height), (40, 32));
    assert_eq!(pixel(&c, 0, 0), pixel(&d, 0, 10));
    // Region running past the right edge: width limited to what remains.
    let c = crop_region(&d, (0, 0), (70, 0, 100, 20)).unwrap();
    assert_eq!((c.width, c.height), (30, 20));
    // Less than 16 pixels remain.
    assert!(crop_region(&d, (0, 0), (90, 0, 100, 20)).is_none());
    assert!(crop_region(&d, (0, 0), (0, 0, 17, 15)).is_none());
}

#[test]
fn crop_to_even_shaves_a_pixel() {
    let f = numbered(5, 3);
    let e = crop_to_even(f);
    assert_eq!((e.width, e.height), (4, 2));
    let g = numbered(4, 2);
    let same = crop_to_even(Frame { width: 4, height: 2, rgba: g.rgba.clone() });
    assert_eq!(same.rgba, g.rgba);
}

#[test]
fn blit_converts_bgra_and_places_rows() {
    let mut canvas = Frame { width: 4, height: 3, rgba: vec![7; 48] };
    let src = vec![1, 2, 3, 0, 4, 5, 6, 0, 8, 9, 10, 0, 11, 12, 13, 0];
    blit_bgra(&src, &mut canvas, 1, 1, 2, 2).unwrap();
    assert_eq!(pixel(&canvas, 1, 1), [3, 2, 1, 255]);
    assert_eq!(pixel(&canvas, 2, 1), [6, 5, 4, 255]);
    assert_eq!(pixel(&canvas, 1, 2), [10, 9, 8, 255]);
    assert_eq!(pixel(&canvas, 2, 2), [13, 12, 11, 255]);
    assert_eq!(pixel(&canvas, 0, 0), [7, 7, 7, 7]);
    assert_eq!(pixel(&canvas, 3, 2), [7, 7, 7, 7]);
}

#[test]
fn blit_refuses_bad_placement_and_short_frames() {
    let mut canvas = Frame { width: 4, height: 3, rgba: vec![7; 48] };
    assert_eq!(blit_bgra(&[0; 16], &mut canvas, 3, 0, 2, 2).unwrap_err(), "monitor outside canvas");
    assert_eq!(blit_bgra(&[0; 15], &mut canvas, 0, 0, 2, 2).unwrap_err(), "short frame: 15 < 16");
    assert_eq!(canvas.rgba, vec![7; 48]);
}

#[test]
fn x11_depth_is_checked() {
    let mut canvas = Frame { width: 2, height: 1, rgba: vec![0; 8] };
    assert_eq!(
        blit_x11_image(16, &[0; 8], &mut canvas, 0, 0, 2, 1).unwrap_err(),
        "unsupported X depth 16"
    );
    blit_x11_image(24, &[1, 2, 3, 9, 4, 5, 6, 9], &mut canvas, 0, 0, 2, 1).unwrap();
    assert_eq!(canvas.rgba, vec![3, 2, 1, 255, 6, 5, 4, 255]);
}

#[test]
fn desktop_bounds_merge_negative_offsets() {
    let b = desktop_bounds(&vec![(0, 0, 1920, 1080), (-1280, 200, 1280, 1024)]).unwrap();
    assert_eq!((b.min_x, b.min_y, b.width, b.height), (-1280, 0, 3200, 1224));
    assert_eq!(desktop_bounds(&vec![]).err().unwrap(), "no monitors found");
}
