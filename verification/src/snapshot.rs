//! Still screenshots as the editor receives them: PNG bytes, `data:` URLs,
//! cropping a selection out of a captured monitor, and stitching all
//! monitors into one desktop image.

use vstd::prelude::*;
use base64::engine::general_purpose::STANDARD;
use base64::Engine;
use image::{DynamicImage, ImageFormat, RgbaImage};
use std::io::Cursor;
use vstd::string::StringSliceAdditionalSpecFns;
use crate::frame::{
    crop, crop_rows, desktop_bounds, fold_max_x, fold_max_y, fold_min_x, fold_min_y, inside,
    monitors_in_range, pixel, pixel_offset, Frame, MonitorRect,
};

verus! {

/// The PNG file the image crate writes for an RGBA image, or `None` when
/// its encoder refuses the image.
pub uninterp spec fn png_encoding(width: u32, height: u32, rgba: Seq<u8>) -> Option<Seq<u8>>;

/// The RGBA image (width, height, pixels) the image crate decodes from
/// `bytes`, or `None` when it cannot.
pub uninterp spec fn decoded_rgba(bytes: Seq<u8>) -> Option<(u32, u32, Seq<u8>)>;

/// The character of a 6-bit value in the standard base64 alphabet:
/// `A`-`Z`, `a`-`z`, `0`-`9`, `+`, `/`.
pub open spec fn base64_digit(v: int) -> char {
    if v < 26 {
        (65 + v) as char
    } else if v < 52 {
        (97 + v - 26) as char
    } else if v < 62 {
        (48 + v - 52) as char
    } else if v == 62 {
        '+'
    } else {
        '/'
    }
}

/// The standard base64 text of `bytes` (RFC 4648): each group of three
/// bytes becomes four characters, and a last group of one or two bytes is
/// padded with `=` to four.
pub open spec fn base64_text(bytes: Seq<u8>) -> Seq<char>
    decreases bytes.len(),
{
    if bytes.len() == 0 {
        Seq::empty()
    } else if bytes.len() == 1 {
        let a = bytes[0] as int;
        seq![base64_digit(a / 4), base64_digit((a % 4) * 16), '=', '=']
    } else if bytes.len() == 2 {
        let a = bytes[0] as int;
        let b = bytes[1] as int;
        seq![base64_digit(a / 4), base64_digit((a % 4) * 16 + b / 16), base64_digit((b % 16) * 4), '=']
    } else {
        let a = bytes[0] as int;
        let b = bytes[1] as int;
        let c = bytes[2] as int;
        seq![
            base64_digit(a / 4),
            base64_digit((a % 4) * 16 + b / 16),
            base64_digit((b % 16) * 4 + c / 64),
            base64_digit(c % 64),
        ] + base64_text(bytes.skip(3))
    }
}

/// A base64 digit is in the alphabet.
proof fn lemma_base64_digit(v: int)
    requires
        0 <= v < 64,
    ensures
        is_base64_char(base64_digit(v)),
{
    assert('A' as int == 65 && 'Z' as int == 90);
    assert('a' as int == 97 && 'z' as int == 122);
    assert('0' as int == 48 && '9' as int == 57);
    if v < 26 {
        assert(((65 + v) as char) as int == 65 + v);
    } else if v < 52 {
        assert(((97 + v - 26) as char) as int == 97 + v - 26);
    } else if v < 62 {
        assert(((48 + v - 52) as char) as int == 48 + v - 52);
    }
}

/// Base64 text holds only alphabet characters and padding.
pub proof fn lemma_base64_text_alphabet(bytes: Seq<u8>)
    ensures
        forall|i: int| 0 <= i < base64_text(bytes).len() ==> is_base64_char(#[trigger] base64_text(bytes)[i]),
    decreases bytes.len(),
{
    let t = base64_text(bytes);
    if bytes.len() == 1 {
        let a = bytes[0] as int;
        lemma_base64_digit(a / 4);
        lemma_base64_digit((a % 4) * 16);
        assert forall|i: int| 0 <= i < t.len() implies is_base64_char(#[trigger] t[i]) by {
            assert(i == 0 || i == 1 || i == 2 || i == 3);
        }
    } else if bytes.len() == 2 {
        let a = bytes[0] as int;
        let b = bytes[1] as int;
        lemma_base64_digit(a / 4);
        lemma_base64_digit((a % 4) * 16 + b / 16);
        lemma_base64_digit((b % 16) * 4);
        assert forall|i: int| 0 <= i < t.len() implies is_base64_char(#[trigger] t[i]) by {
            assert(i == 0 || i == 1 || i == 2 || i == 3);
        }
    } else if bytes.len() >= 3 {
        let a = bytes[0] as int;
        let b = bytes[1] as int;
        let c = bytes[2] as int;
        lemma_base64_digit(a / 4);
        lemma_base64_digit((a % 4) * 16 + b / 16);
        lemma_base64_digit((b % 16) * 4 + c / 64);
        lemma_base64_digit(c % 64);
        let head = seq![
            base64_digit(a / 4),
            base64_digit((a % 4) * 16 + b / 16),
            base64_digit((b % 16) * 4 + c / 64),
            base64_digit(c % 64),
        ];
        let rest = base64_text(bytes.skip(3));
        lemma_base64_text_alphabet(bytes.skip(3));
        assert(t == head + rest);
        assert forall|i: int| 0 <= i < t.len() implies is_base64_char(#[trigger] t[i]) by {
            if i < 4 {
                assert(t[i] == head[i]);
                assert(i == 0 || i == 1 || i == 2 || i == 3);
            } else {
                assert(t[i] == rest[i - 4]);
            }
        }
    }
}

/// The bytes that standard base64 `text` decodes to, or `None` when it is
/// not valid standard base64.
pub uninterp spec fn base64_bytes(text: Seq<u8>) -> Option<Seq<u8>>;

/// The pixels of `bottom` after the image crate overlays `top` at (`x`, `y`).
pub uninterp spec fn overlaid(
    bottom_width: u32,
    bottom_height: u32,
    bottom: Seq<u8>,
    top_width: u32,
    top_height: u32,
    top: Seq<u8>,
    x: i64,
    y: i64,
) -> Seq<u8>;

/// PNG-encodes an RGBA frame with the image crate
/// (`DynamicImage::write_to` with `ImageFormat::Png`, writing into memory).
/// It succeeds exactly when the crate's encoder accepts the image, and then
/// gives the crate's PNG encoding of the frame; the png encoder refuses an
/// image of zero width or height (`Writer::init`). The error text is the
/// crate's and is not stated.
#[verifier::external_body]
fn png_bytes(img: &Frame) -> (r: Result<Vec<u8>, String>)
    requires
        img.wf(),
    ensures
        r is Ok <==> png_encoding(img.width, img.height, img.rgba@) is Some,
        r matches Ok(b) ==> png_encoding(img.width, img.height, img.rgba@) == Some(b@),
        img.width == 0 || img.height == 0 ==> r is Err,
{
    let buf_img = RgbaImage::from_raw(img.width, img.height, img.rgba.clone()).ok_or_else(|| "bad frame".to_string())?;
    let mut buf = Vec::new();
    DynamicImage::ImageRgba8(buf_img).write_to(&mut Cursor::new(&mut buf), ImageFormat::Png).map_err(|e| e.to_string())?;
    Ok(buf)
}

/// Decodes an image file with the image crate (`image::load_from_memory`,
/// then `to_rgba8`). It succeeds exactly when the crate decodes the bytes,
/// and then gives the decoded image, whose buffer holds width x height RGBA
/// pixels; the error text is the crate's and is not stated.
#[verifier::external_body]
fn load_rgba(bytes: &[u8]) -> (r: Result<Frame, String>)
    ensures
        r is Ok <==> decoded_rgba(bytes@) is Some,
        r matches Ok(f) ==> f.wf() && decoded_rgba(bytes@) == Some((f.width, f.height, f.rgba@)),
{
    let img = image::load_from_memory(bytes).map_err(|e| e.to_string())?.to_rgba8();
    Ok(Frame { width: img.width(), height: img.height(), rgba: img.into_raw() })
}

/// A character of the standard base64 alphabet (`A`-`Z`, `a`-`z`, `0`-`9`,
/// `+`, `/`), or its padding `=`.
pub open spec fn is_base64_char(c: char) -> bool {
    ('A' <= c <= 'Z') || ('a' <= c <= 'z') || ('0' <= c <= '9') || c == '+' || c == '/' || c == '='
}

/// The bytes of an ASCII text.
pub open spec fn ascii_bytes(text: Seq<char>) -> Seq<u8> {
    Seq::new(text.len(), |i: int| text[i] as u8)
}

/// Standard base64 encoding with the base64 crate (`STANDARD.encode`: the
/// RFC 4648 alphabet, with padding); decoding the text with the same
/// engine gives the bytes back (the crate's round trip). `requires` leaves
/// out inputs whose encoded length would overflow, on which the crate
/// panics.
#[verifier::external_body]
fn base64_encode(bytes: &[u8]) -> (s: String)
    requires
        bytes@.len() / 3 * 4 + 4 <= usize::MAX,
    ensures
        s@ == base64_text(bytes@),
        base64_bytes(ascii_bytes(s@)) == Some(bytes@),
{
    STANDARD.encode(bytes)
}

/// Standard base64 decoding with the base64 crate (`STANDARD.decode`): it
/// succeeds exactly when the text is valid; the error text is the crate's
/// and is not stated.
#[verifier::external_body]
fn base64_decode(text: &[u8]) -> (r: Result<Vec<u8>, String>)
    ensures
        r is Ok <==> base64_bytes(text@) is Some,
        r matches Ok(b) ==> base64_bytes(text@) == Some(b@),
{
    STANDARD.decode(text).map_err(|e| e.to_string())
}

/// Overlays `top` onto `bottom` at (`x`, `y`) with the image crate
/// (`imageops::overlay`, which clips and alpha-blends); the sizes stay.
/// From the crate's source (`overlay`, `overlay_bounds_ext` and
/// `Rgba::blend`): a pixel of `bottom` that `top` does not cover is left
/// as it was; one covered by an opaque pixel of `top` (alpha 255) becomes
/// that pixel, and one covered by a fully transparent pixel is left as it
/// was. Blends with partial alpha are computed in floating point and are
/// stated only through the name.
#[verifier::external_body]
fn overlay_frame(bottom: &mut Frame, top: &Frame, x: i64, y: i64)
    requires
        old(bottom).wf(),
        top.wf(),
    ensures
        final(bottom).width == old(bottom).width,
        final(bottom).height == old(bottom).height,
        final(bottom).wf(),
        forall|cx: int, cy: int|
            #![trigger pixel(final(bottom).rgba@, old(bottom).width as int, cx, cy)]
            inside(old(bottom).width as int, old(bottom).height as int, cx, cy) ==> {
                let tx = cx - x;
                let ty = cy - y;
                let bw = old(bottom).width as int;
                &&& !inside(top.width as int, top.height as int, tx, ty) ==> pixel(
                    final(bottom).rgba@,
                    bw,
                    cx,
                    cy,
                ) == pixel(old(bottom).rgba@, bw, cx, cy)
                &&& inside(top.width as int, top.height as int, tx, ty) && top.rgba@[pixel_offset(
                    top.width as int,
                    tx,
                    ty,
                ) + 3] == 255 ==> pixel(final(bottom).rgba@, bw, cx, cy) == pixel(
                    top.rgba@,
                    top.width as int,
                    tx,
                    ty,
                )
                &&& inside(top.width as int, top.height as int, tx, ty) && top.rgba@[pixel_offset(
                    top.width as int,
                    tx,
                    ty,
                ) + 3] == 0 ==> pixel(final(bottom).rgba@, bw, cx, cy) == pixel(
                    old(bottom).rgba@,
                    bw,
                    cx,
                    cy,
                )
            },
        final(bottom).rgba@ == overlaid(
            old(bottom).width,
            old(bottom).height,
            old(bottom).rgba@,
            top.width,
            top.height,
            top.rgba@,
            x,
            y,
        ),
{
    let data = std::mem::take(&mut bottom.rgba);
    let mut b = RgbaImage::from_raw(bottom.width, bottom.height, data).unwrap();
    let t = RgbaImage::from_raw(top.width, top.height, top.rgba.clone()).unwrap();
    image::imageops::overlay(&mut b, &t, x, y);
    bottom.rgba = b.into_raw();
}

/// Decodes an image file, in any format the image crate reads, to an
/// RGBA frame (for the tray icon, for one).
pub fn decode_image(bytes: &[u8]) -> (r: Result<Frame, String>)
    ensures
        r is Ok <==> decoded_rgba(bytes@) is Some,
        r matches Ok(f) ==> f.wf() && decoded_rgba(bytes@) == Some((f.width, f.height, f.rgba@)),
{
    load_rgba(bytes)
}

/// PNG bytes of a captured frame: the image crate's PNG encoding of it,
/// refused for an empty (zero-width or zero-height) frame.
pub fn frame_png(img: &Frame) -> (r: Result<Vec<u8>, String>)
    requires
        img.wf(),
    ensures
        r is Ok <==> png_encoding(img.width, img.height, img.rgba@) is Some,
        r matches Ok(b) ==> png_encoding(img.width, img.height, img.rgba@) == Some(b@),
        img.width == 0 || img.height == 0 ==> r is Err,
{
    png_bytes(img)
}

/// The prefix of a PNG `data:` URL.
pub open spec fn data_url_prefix() -> Seq<char> {
    "data:image/png;base64,"@
}

/// The UTF-8 bytes of a text, as `str::as_bytes` gives them.
pub open spec fn utf8_bytes(text: Seq<char>) -> Seq<u8> {
    vstd::utf8::encode_utf8(text)
}

/// A `data:` URL carrying PNG bytes in base64; reading its payload gives
/// the bytes back.
pub fn data_url(png: &[u8]) -> (url: String)
    requires
        png@.len() / 3 * 4 + 4 <= usize::MAX,
    ensures
        url@ == data_url_prefix() + base64_text(png@),
        data_url_payload(utf8_bytes(url@)) == Some(png@),
{
    let mut url = "data:image/png;base64,".to_owned();
    let encoded = base64_encode(png);
    url.append(encoded.as_str());
    proof {
        lemma_base64_text_alphabet(png@);
        lemma_data_url_payload(encoded@, png@);
    }
    url
}

/// Position of the first `,` in `b`.
pub open spec fn first_comma(b: Seq<u8>) -> Option<int>
    decreases b.len(),
{
    if b.len() == 0 {
        None
    } else {
        match first_comma(b.drop_last()) {
            Some(i) => Some(i),
            None => if b.last() == 0x2Cu8 {
                Some(b.len() - 1)
            } else {
                None
            },
        }
    }
}

/// The bytes of a `data:` URL's payload: base64-decoded text after the
/// first comma; an URL without comma is refused.
pub fn png_from_data_url(url: &str) -> (r: Result<Vec<u8>, String>)
    ensures
        match first_comma(url.spec_bytes()) {
            None => r matches Err(e) && e@ == "bad data url"@,
            Some(i) => {
                let text = url.spec_bytes().skip(i + 1);
                &&& r is Ok <==> base64_bytes(text) is Some
                &&& r matches Ok(b) ==> base64_bytes(text) == Some(b@)
            },
        },
{
    let bytes = url.as_bytes();
    let n = bytes.len();
    let mut i: usize = 0;
    assert(bytes@.take(0) =~= Seq::<u8>::empty());
    while i < n && bytes[i] != 0x2C
        invariant
            n == bytes@.len(),
            i <= n,
            first_comma(bytes@.take(i as int)) is None,
        decreases n - i,
    {
        assert(bytes@.take(i + 1).drop_last() =~= bytes@.take(i as int));
        i = i + 1;
    }
    if i == n {
        assert(bytes@.take(n as int) =~= bytes@);
        return Err("bad data url".to_owned());
    }
    assert(bytes@.take(i + 1).drop_last() =~= bytes@.take(i as int));
    proof {
        lemma_first_comma_prefix(bytes@, i + 1);
    }
    let mut text: Vec<u8> = Vec::new();
    let mut k: usize = i + 1;
    while k < n
        invariant
            n == bytes@.len(),
            i + 1 <= k <= n,
            text@ == bytes@.subrange(i + 1, k as int),
        decreases n - k,
    {
        text.push(bytes[k]);
        assert(text@ =~= bytes@.subrange(i + 1, k + 1));
        k = k + 1;
    }
    assert(text@ =~= bytes@.skip(i + 1));
    base64_decode(text.as_slice())
}

/// The payload of a `data:` URL, as `png_from_data_url` reads it.
pub open spec fn data_url_payload(url: Seq<u8>) -> Option<Seq<u8>> {
    match first_comma(url) {
        None => None,
        Some(i) => base64_bytes(url.skip(i + 1)),
    }
}

/// The image a `data:` URL carries, decoded (for the clipboard and the pin
/// window).
pub fn image_from_data_url(url: &str) -> (r: Result<Frame, String>)
    ensures
        first_comma(url.spec_bytes()) is None ==> (r matches Err(e) && e@ == "bad data url"@),
        r is Ok <==> (data_url_payload(url.spec_bytes()) matches Some(png) && decoded_rgba(png) is Some),
        r matches Ok(f) ==> (f.wf() && (data_url_payload(url.spec_bytes()) matches Some(png)
            && decoded_rgba(png) == Some((f.width, f.height, f.rgba@)))),
{
    let png = png_from_data_url(url)?;
    load_rgba(png.as_slice())
}

/// The PNG bytes of a `data:` URL, only if they decode as an image: only
/// real image bytes get written to disk.
pub fn checked_png_from_data_url(url: &str) -> (r: Result<Vec<u8>, String>)
    ensures
        first_comma(url.spec_bytes()) is None ==> (r matches Err(e) && e@ == "bad data url"@),
        r is Ok <==> (data_url_payload(url.spec_bytes()) matches Some(png) && decoded_rgba(png) is Some),
        r matches Ok(b) ==> data_url_payload(url.spec_bytes()) == Some(b@) && decoded_rgba(b@) is Some,
{
    let png = png_from_data_url(url)?;
    let _ = load_rgba(png.as_slice())?;
    Ok(png)
}

/// Bytes without a comma have no first comma.
pub proof fn lemma_no_comma(b: Seq<u8>)
    requires
        forall|j: int| 0 <= j < b.len() ==> b[j] != 0x2Cu8,
    ensures
        first_comma(b) is None,
    decreases b.len(),
{
    if b.len() > 0 {
        assert forall|j: int| 0 <= j < b.drop_last().len() implies b.drop_last()[j] != 0x2Cu8 by {
            assert(b.drop_last()[j] == b[j]);
        }
        lemma_no_comma(b.drop_last());
    }
}

/// A comma at `k` with none before it is the first comma.
pub proof fn lemma_first_comma_at(b: Seq<u8>, k: int)
    requires
        0 <= k < b.len(),
        b[k] == 0x2Cu8,
        forall|j: int| 0 <= j < k ==> b[j] != 0x2Cu8,
    ensures
        first_comma(b) == Some(k),
    decreases b.len(),
{
    if k == b.len() - 1 {
        assert forall|j: int| 0 <= j < b.drop_last().len() implies b.drop_last()[j] != 0x2Cu8 by {
            assert(b.drop_last()[j] == b[j]);
        }
        lemma_no_comma(b.drop_last());
    } else {
        assert forall|j: int| 0 <= j < k implies b.drop_last()[j] != 0x2Cu8 by {
            assert(b.drop_last()[j] == b[j]);
        }
        assert(b.drop_last()[k] == b[k]);
        lemma_first_comma_at(b.drop_last(), k);
    }
}

/// The payload of a PNG `data:` URL built from base64 text is what the
/// text decodes to: the prefix ends with the first comma, and base64 text
/// holds none.
proof fn lemma_data_url_payload(text: Seq<char>, p: Seq<u8>)
    requires
        forall|i: int| 0 <= i < text.len() ==> is_base64_char(#[trigger] text[i]),
        base64_bytes(ascii_bytes(text)) == Some(p),
    ensures
        data_url_payload(utf8_bytes(data_url_prefix() + text)) == Some(p),
{
    reveal_strlit("data:image/png;base64,");
    let pre = data_url_prefix();
    let u = pre + text;
    assert(pre.len() == 22);
    assert forall|i: int| 0 <= i < u.len() implies '\0' <= #[trigger] u[i] <= '\u{7f}' by {
        if i >= 22 {
            assert(u[i] == text[i - 22]);
            assert(is_base64_char(text[i - 22]));
        }
    }
    assert(vstd::utf8::is_ascii_chars(u));
    vstd::utf8::is_ascii_chars_encode_utf8(u);
    let b = utf8_bytes(u);
    assert(b =~= ascii_bytes(u));
    assert(b[21] == 0x2Cu8);
    assert forall|j: int| 0 <= j < 21 implies b[j] != 0x2Cu8 by {
        assert(b[j] == pre[j] as u8);
    }
    lemma_first_comma_at(b, 21);
    assert(b.skip(22) =~= ascii_bytes(text));
}

/// A comma found in a prefix is the first comma of the whole.
proof fn lemma_first_comma_prefix(b: Seq<u8>, k: int)
    requires
        0 <= k <= b.len(),
        first_comma(b.take(k)) is Some,
    ensures
        first_comma(b) == first_comma(b.take(k)),
    decreases b.len(),
{
    if k < b.len() {
        assert(b.drop_last().take(k) =~= b.take(k));
        lemma_first_comma_prefix(b.drop_last(), k);
    } else {
        assert(b.take(k) =~= b);
    }
}

/// Where a selection lands inside an `iw` x `ih` image: the corner clamped
/// onto the image, the size clamped to what remains, at least 1x1.
pub open spec fn clamp_selection(iw: u32, ih: u32, x: u32, y: u32, w: u32, h: u32) -> (u32, u32, u32, u32) {
    let cx = if x < (iw - 1) as u32 { x } else { (iw - 1) as u32 };
    let cy = if y < (ih - 1) as u32 { y } else { (ih - 1) as u32 };
    let room_w = (iw - cx) as u32;
    let room_h = (ih - cy) as u32;
    let cw = if w < room_w { w } else { room_w };
    let ch = if h < room_h { h } else { room_h };
    (cx, cy, if cw < 1 { 1 } else { cw }, if ch < 1 { 1 } else { ch })
}

/// Clamp a physical-pixel rect inside an image and crop.
pub fn crop_png(png: &[u8], x: u32, y: u32, w: u32, h: u32) -> (r: Result<Vec<u8>, String>)
    ensures
        decoded_rgba(png@) is None ==> r is Err,
        decoded_rgba(png@) matches Some((iw, ih, pixels)) ==> {
            if iw == 0 || ih == 0 {
                r matches Err(e) && e@ == "empty image"@
            } else {
                let (cx, cy, cw, ch) = clamp_selection(iw, ih, x, y, w, h);
                &&& cx + cw <= iw
                &&& cy + ch <= ih
                &&& cw >= 1 && ch >= 1
                &&& r is Ok <==> png_encoding(
                    cw,
                    ch,
                    crop_rows(pixels, iw as int, cx as int, cy as int, cw as int, ch as int),
                ) is Some
                &&& r matches Ok(b) ==> png_encoding(
                    cw,
                    ch,
                    crop_rows(pixels, iw as int, cx as int, cy as int, cw as int, ch as int),
                ) == Some(b@)
            }
        },
{
    let img = load_rgba(png)?;
    let iw = img.width;
    let ih = img.height;
    if iw == 0 || ih == 0 {
        return Err("empty image".to_owned());
    }
    let cx = if x < iw - 1 { x } else { iw - 1 };
    let cy = if y < ih - 1 { y } else { ih - 1 };
    let room_w = iw - cx;
    let room_h = ih - cy;
    let cw0 = if w < room_w { w } else { room_w };
    let ch0 = if h < room_h { h } else { room_h };
    let cw = if cw0 < 1 { 1 } else { cw0 };
    let ch = if ch0 < 1 { 1 } else { ch0 };
    let sub = crop(&img, cx, cy, cw, ch);
    png_bytes(&sub)
}

/// A blank (all-zero, transparent) RGBA frame.
pub fn blank_frame(width: u32, height: u32) -> (f: Frame)
    requires
        width * height * 4 <= usize::MAX,
    ensures
        f.wf(),
        f.width == width,
        f.height == height,
        f.rgba@ == Seq::new((width * height * 4) as nat, |i: int| 0u8),
{
    let n = width as usize * height as usize * 4;
    let mut rgba: Vec<u8> = Vec::new();
    let mut i: usize = 0;
    while i < n
        invariant
            i <= n,
            rgba@ == Seq::new(i as nat, |k: int| 0u8),
        decreases n - i,
    {
        rgba.push(0);
        assert(rgba@ =~= Seq::new((i + 1) as nat, |k: int| 0u8));
        i = i + 1;
    }
    Frame { width, height, rgba }
}

/// A captured monitor: its desktop position and its image.
pub type Shot = (i32, i32, Frame);

/// The monitor rectangles of the shots.
pub open spec fn shot_rects(shots: Seq<Shot>) -> Seq<MonitorRect> {
    shots.map_values(|s: Shot| (s.0, s.1, s.2.width, s.2.height))
}

/// The canvas after overlaying the shots in order, each at its position
/// relative to (`min_x`, `min_y`).
pub open spec fn overlay_all(
    cw: u32,
    ch: u32,
    base: Seq<u8>,
    shots: Seq<Shot>,
    min_x: i32,
    min_y: i32,
) -> Seq<u8>
    decreases shots.len(),
{
    if shots.len() == 0 {
        base
    } else {
        let s = shots.last();
        overlaid(
            cw,
            ch,
            overlay_all(cw, ch, base, shots.drop_last(), min_x, min_y),
            s.2.width,
            s.2.height,
            s.2.rgba@,
            (s.0 - min_x) as i64,
            (s.1 - min_y) as i64,
        )
    }
}

/// Whether shot `s`, placed at its offset from the desktop's top-left
/// corner (`min_x`, `min_y`), covers the canvas point (`cx`, `cy`).
pub open spec fn covers(s: Shot, min_x: int, min_y: int, cx: int, cy: int) -> bool {
    inside(s.2.width as int, s.2.height as int, cx - (s.0 - min_x), cy - (s.1 - min_y))
}

/// The pixel of shot `s` that lands on canvas point (`cx`, `cy`).
pub open spec fn shot_pixel(s: Shot, min_x: int, min_y: int, cx: int, cy: int) -> Seq<u8> {
    pixel(s.2.rgba@, s.2.width as int, cx - (s.0 - min_x), cy - (s.1 - min_y))
}

/// Whether the pixel of shot `s` that lands on (`cx`, `cy`) is opaque.
pub open spec fn shot_opaque(s: Shot, min_x: int, min_y: int, cx: int, cy: int) -> bool {
    s.2.rgba@[pixel_offset(s.2.width as int, cx - (s.0 - min_x), cy - (s.1 - min_y)) + 3] == 255
}

/// A pixel inside a `w` x `h` buffer lies within its bytes.
proof fn lemma_pixel_in_buffer(w: int, h: int, cx: int, cy: int)
    requires
        inside(w, h, cx, cy),
    ensures
        0 <= pixel_offset(w, cx, cy),
        pixel_offset(w, cx, cy) + 4 <= w * h * 4,
{
    assert(0 <= (cy * w + cx) * 4 && (cy * w + cx) * 4 + 4 <= w * h * 4) by (nonlinear_arith)
        requires
            0 <= cx < w,
            0 <= cy < h,
    ;
}

/// All monitors merged into one image (negative offsets handled): a canvas
/// spanning every monitor, each monitor's image overlaid at its place.
pub fn stitch_monitors(shots: &Vec<Shot>) -> (r: Result<Frame, String>)
    requires
        forall|i: int| 0 <= i < shots@.len() ==> (#[trigger] shots@[i]).2.wf(),
        monitors_in_range(shot_rects(shots@)),
        shots@.len() > 0 ==> ((fold_max_x(shot_rects(shots@)) - fold_min_x(shot_rects(shots@))) as u32)
            * ((fold_max_y(shot_rects(shots@)) - fold_min_y(shot_rects(shots@))) as u32) * 4
            <= usize::MAX,
        forall|i: int|
            0 <= i < shots@.len() ==> i32::MIN <= (#[trigger] shots@[i]).0 - fold_min_x(
                shot_rects(shots@),
            ) <= i32::MAX && i32::MIN <= shots@[i].1 - fold_min_y(shot_rects(shots@)) <= i32::MAX,
    ensures
        match r {
            Ok(f) => {
                let rects = shot_rects(shots@);
                let w = (fold_max_x(rects) - fold_min_x(rects)) as u32;
                let h = (fold_max_y(rects) - fold_min_y(rects)) as u32;
                &&& shots@.len() > 0
                &&& f.wf()
                &&& f.width == w
                &&& f.height == h
                &&& f.rgba@ == overlay_all(
                    w,
                    h,
                    Seq::new((w * h * 4) as nat, |i: int| 0u8),
                    shots@,
                    fold_min_x(rects),
                    fold_min_y(rects),
                )
                &&& forall|cx: int, cy: int, i: int|
                    #![trigger pixel(f.rgba@, w as int, cx, cy), shots@[i]]
                    inside(w as int, h as int, cx, cy) && 0 <= i < shots@.len() && covers(
                        shots@[i],
                        fold_min_x(rects) as int,
                        fold_min_y(rects) as int,
                        cx,
                        cy,
                    ) && shot_opaque(shots@[i], fold_min_x(rects) as int, fold_min_y(rects) as int, cx, cy)
                        && (forall|j: int|
                        i < j < shots@.len() ==> !#[trigger] covers(
                            shots@[j],
                            fold_min_x(rects) as int,
                            fold_min_y(rects) as int,
                            cx,
                            cy,
                        )) ==> pixel(f.rgba@, w as int, cx, cy) == shot_pixel(
                        shots@[i],
                        fold_min_x(rects) as int,
                        fold_min_y(rects) as int,
                        cx,
                        cy,
                    )
                &&& forall|cx: int, cy: int|
                    #![trigger pixel(f.rgba@, w as int, cx, cy)]
                    inside(w as int, h as int, cx, cy) && (forall|j: int|
                        0 <= j < shots@.len() ==> !#[trigger] covers(
                            shots@[j],
                            fold_min_x(rects) as int,
                            fold_min_y(rects) as int,
                            cx,
                            cy,
                        )) ==> pixel(f.rgba@, w as int, cx, cy) == seq![0u8, 0u8, 0u8, 0u8]
            },
            Err(e) => shots@.len() == 0 && e@ == "no monitors found"@,
        },
{
    let ghost rects = shot_rects(shots@);
    let n = shots.len();
    let mut geo: Vec<MonitorRect> = Vec::new();
    let mut i: usize = 0;
    while i < n
        invariant
            n == shots@.len(),
            rects == shot_rects(shots@),
            i <= n,
            geo@ == rects.take(i as int),
        decreases n - i,
    {
        let s = &shots[i];
        geo.push((s.0, s.1, s.2.width, s.2.height));
        assert(geo@ =~= rects.take(i + 1));
        i = i + 1;
    }
    assert(rects.take(n as int) =~= rects);
    let b = desktop_bounds(&geo)?;
    let mut canvas = blank_frame(b.width, b.height);
    let ghost base = canvas.rgba@;
    let mut k: usize = 0;
    assert(shots@.take(0) =~= Seq::<Shot>::empty());
    while k < n
        invariant
            n == shots@.len(),
            rects == shot_rects(shots@),
            k <= n,
            forall|i: int| 0 <= i < shots@.len() ==> (#[trigger] shots@[i]).2.wf(),
            forall|i: int|
                0 <= i < shots@.len() ==> i32::MIN <= (#[trigger] shots@[i]).0 - b.min_x <= i32::MAX
                    && i32::MIN <= shots@[i].1 - b.min_y <= i32::MAX,
            b.min_x == fold_min_x(rects),
            b.min_y == fold_min_y(rects),
            canvas.wf(),
            canvas.width == b.width,
            canvas.height == b.height,
            canvas.rgba@ == overlay_all(b.width, b.height, base, shots@.take(k as int), b.min_x, b.min_y),
            base == Seq::new((b.width * b.height * 4) as nat, |i: int| 0u8),
            forall|cx: int, cy: int, i: int|
                #![trigger pixel(canvas.rgba@, b.width as int, cx, cy), shots@[i]]
                inside(b.width as int, b.height as int, cx, cy) && 0 <= i < k && covers(
                    shots@[i],
                    b.min_x as int,
                    b.min_y as int,
                    cx,
                    cy,
                ) && shot_opaque(shots@[i], b.min_x as int, b.min_y as int, cx, cy) && (forall|j: int|
                    i < j < k ==> !#[trigger] covers(shots@[j], b.min_x as int, b.min_y as int, cx, cy))
                    ==> pixel(canvas.rgba@, b.width as int, cx, cy) == shot_pixel(
                    shots@[i],
                    b.min_x as int,
                    b.min_y as int,
                    cx,
                    cy,
                ),
            forall|cx: int, cy: int|
                #![trigger pixel(canvas.rgba@, b.width as int, cx, cy)]
                inside(b.width as int, b.height as int, cx, cy) && (forall|j: int|
                    0 <= j < k ==> !#[trigger] covers(shots@[j], b.min_x as int, b.min_y as int, cx, cy))
                    ==> pixel(canvas.rgba@, b.width as int, cx, cy) == pixel(base, b.width as int, cx, cy),
        decreases n - k,
    {
        let s = &shots[k];
        assert(shots@.take(k + 1).drop_last() =~= shots@.take(k as int));
        let dx = (s.0 - b.min_x) as i64;
        let dy = (s.1 - b.min_y) as i64;
        let ghost prev = canvas.rgba@;
        let ghost bw = b.width as int;
        let ghost bh = b.height as int;
        let ghost mx = b.min_x as int;
        let ghost my = b.min_y as int;
        overlay_frame(&mut canvas, &s.2, dx, dy);
        proof {
            assert(shots@[k as int] == *s);
            assert forall|cx: int, cy: int, i: int|
                #![trigger pixel(canvas.rgba@, bw, cx, cy), shots@[i]]
                inside(bw, bh, cx, cy) && 0 <= i < k + 1 && covers(shots@[i], mx, my, cx, cy)
                    && shot_opaque(shots@[i], mx, my, cx, cy) && (forall|j: int|
                    i < j < k + 1 ==> !#[trigger] covers(shots@[j], mx, my, cx, cy))
                    implies pixel(canvas.rgba@, bw, cx, cy) == shot_pixel(shots@[i], mx, my, cx, cy) by {
                if i == k {
                } else {
                    assert(!covers(shots@[k as int], mx, my, cx, cy));
                    assert(pixel(prev, bw, cx, cy) == shot_pixel(shots@[i], mx, my, cx, cy));
                }
            }
            assert forall|cx: int, cy: int|
                #![trigger pixel(canvas.rgba@, bw, cx, cy)]
                inside(bw, bh, cx, cy) && (forall|j: int|
                    0 <= j < k + 1 ==> !#[trigger] covers(shots@[j], mx, my, cx, cy))
                    implies pixel(canvas.rgba@, bw, cx, cy) == pixel(base, bw, cx, cy) by {
                assert(!covers(shots@[k as int], mx, my, cx, cy));
                assert(pixel(prev, bw, cx, cy) == pixel(base, bw, cx, cy));
            }
        }
        k = k + 1;
    }
    proof {
        let bw = b.width as int;
        let bh = b.height as int;
        assert forall|cx: int, cy: int| #![trigger pixel(canvas.rgba@, bw, cx, cy)] inside(bw, bh, cx, cy)
            implies pixel(base, bw, cx, cy) == seq![0u8, 0u8, 0u8, 0u8] by {
            lemma_pixel_in_buffer(bw, bh, cx, cy);
            assert(pixel(base, bw, cx, cy) =~= seq![0u8, 0u8, 0u8, 0u8]);
        }
    }
    assert(shots@.take(n as int) =~= shots@);
    Ok(canvas)
}

} // verus!
