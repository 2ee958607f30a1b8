//! Turning a captured window frame into the normalised 960 x 540 RGBA screen that
//! the recognisers read.
use vstd::prelude::*;

verus! {

/// The width by which a client area is offset from its window: `pt - origin`, at
/// least 0.
pub fn client_offset(pt: i32, origin: i32) -> (r: u32)
    requires
        i32::MIN <= pt - origin <= i32::MAX,
    ensures
        r == if pt - origin > 0 { pt - origin } else { 0 },
{
    let d = pt - origin;
    if d > 0 { d as u32 } else { 0 }
}

/// Byte `i` of the `aw` x `ah` RGBA image cut from the BGRA frame of `cw` x `ch`
/// pixels at offset `(ox, oy)`: a pixel inside the frame is copied with red and blue
/// swapped and full opacity; any other pixel is zero.
pub open spec fn composed_byte(frame: Seq<u8>, cw: int, ch: int, ox: int, oy: int, aw: int, i: int) -> u8 {
    let p = i / 4;
    let c = i % 4;
    let y = p / aw;
    let x = p % aw;
    let sy = y + oy;
    let width = if cw > ox { if cw - ox <= aw { cw - ox } else { aw } } else { 0 };
    if sy < ch && x < width {
        let src = (sy * cw + ox + x) * 4;
        if c == 0 {
            frame[src + 2]
        } else if c == 1 {
            frame[src + 1]
        } else if c == 2 {
            frame[src]
        } else {
            255u8
        }
    } else {
        0u8
    }
}

/// The `aw` x `ah` RGBA image cut from the frame.
pub open spec fn composed(frame: Seq<u8>, cw: int, ch: int, ox: int, oy: int, aw: int, ah: int) -> Seq<u8> {
    Seq::new((aw * ah * 4) as nat, |i: int| composed_byte(frame, cw, ch, ox, oy, aw, i))
}

/// Cuts the `aw` x `ah` client area at offset `(ox, oy)` out of a BGRA frame of
/// `cw` x `ch` pixels, as RGBA.
pub fn compose_client_image(frame: &[u8], cw: u32, ch: u32, ox: u32, oy: u32, aw: u32, ah: u32) -> (r: Vec<u8>)
    requires
        frame@.len() >= cw * ch * 4,
        aw * ah * 4 <= usize::MAX,
    ensures
        r@ == composed(frame@, cw as int, ch as int, ox as int, oy as int, aw as int, ah as int),
{
    let n = (aw as usize) * (ah as usize) * 4;
    let mut out: Vec<u8> = vec![0u8; n];
    let width: usize = if cw > ox { if cw - ox <= aw { (cw - ox) as usize } else { aw as usize } } else { 0 };
    let flen = frame.len();
    let mut y: usize = 0;
    while y < ah as usize && (y as u64) + (oy as u64) < ch as u64
        invariant
            n == aw * ah * 4,
            flen == frame@.len(),
            frame@.len() >= cw * ch * 4,
            out@.len() == n,
            y <= ah,
            width == if cw > ox { if cw - ox <= aw { cw - ox } else { aw as int } } else { 0 },
            forall|i: int|
                0 <= i < n ==> #[trigger] out@[i] == if (i / 4) / (aw as int) < y {
                    composed_byte(frame@, cw as int, ch as int, ox as int, oy as int, aw as int, i)
                } else {
                    0u8
                },
        decreases ah - y,
    {
        let sy = y + oy as usize;
        proof {
            if aw == 0 {
                assert(aw * ah * 4 == 0) by (nonlinear_arith)
                    requires
                        aw == 0,
                ;
            }
        }
        let mut x: usize = 0;
        while x < width
            invariant
                n == aw * ah * 4,
                flen == frame@.len(),
                frame@.len() >= cw * ch * 4,
                out@.len() == n,
                y < ah,
                sy == y + oy,
                sy < ch,
                width == if cw > ox { if cw - ox <= aw { cw - ox } else { aw as int } } else { 0 },
                x <= width,
                forall|i: int|
                    0 <= i < n ==> #[trigger] out@[i] == if (i / 4) / (aw as int) < y || ((i / 4) / (aw as int) == y
                        && (i / 4) % (aw as int) < x) {
                        composed_byte(frame@, cw as int, ch as int, ox as int, oy as int, aw as int, i)
                    } else {
                        0u8
                    },
            decreases width - x,
        {
            proof {
                assert(y * aw + x < aw * ah) by (nonlinear_arith)
                    requires
                        y < ah,
                        x < width,
                        width <= aw,
                ;
                assert((y * aw + x) * 4 + 3 < n) by (nonlinear_arith)
                    requires
                        y * aw + x < aw * ah,
                        n == aw * ah * 4,
                ;
                assert((sy * cw + ox + x) * 4 + 2 < cw * ch * 4) by (nonlinear_arith)
                    requires
                        sy < ch,
                        ox + x < cw,
                ;
            }
            let p = y * (aw as usize) + x;
            let src = (sy * (cw as usize) + ox as usize + x) * 4;
            let d = p * 4;
            let b = frame[src];
            let g = frame[src + 1];
            let r = frame[src + 2];
            out.set(d, r);
            out.set(d + 1, g);
            out.set(d + 2, b);
            out.set(d + 3, 255);
            proof {
                vstd::arithmetic::div_mod::lemma_fundamental_div_mod_converse(p as int, aw as int, y as int, x as int);
                assert forall|i: int| 0 <= i < n implies #[trigger] out@[i] == if (i / 4) / (aw as int) < y || ((i / 4) / (aw as int) == y
                    && (i / 4) % (aw as int) < x + 1) {
                    composed_byte(frame@, cw as int, ch as int, ox as int, oy as int, aw as int, i)
                } else {
                    0u8
                } by {
                    vstd::arithmetic::div_mod::lemma_fundamental_div_mod(i, 4);
                    vstd::arithmetic::div_mod::lemma_fundamental_div_mod(i / 4, aw as int);
                    assert((aw as int) * (y as int) == (y as int) * (aw as int)) by (nonlinear_arith);
                    if d <= i < d + 4 {
                        vstd::arithmetic::div_mod::lemma_fundamental_div_mod_converse(i, 4, p as int, i - d);
                    } else if i / 4 == p {
                        vstd::arithmetic::div_mod::lemma_fundamental_div_mod_converse(i, 4, p as int, i % 4);
                    }
                }
            }
            x = x + 1;
        }
        proof {
            assert forall|i: int| 0 <= i < n implies #[trigger] out@[i] == if (i / 4) / (aw as int) < y + 1 {
                composed_byte(frame@, cw as int, ch as int, ox as int, oy as int, aw as int, i)
            } else {
                0u8
            } by {
                let q = i / 4;
                vstd::arithmetic::div_mod::lemma_fundamental_div_mod(q, aw as int);
            }
        }
        y = y + 1;
    }
    proof {
        assert forall|i: int| 0 <= i < n implies #[trigger] out@[i] == composed_byte(frame@, cw as int, ch as int, ox as int, oy as int, aw as int, i) by {
            if aw > 0 {
                assert((i / 4) / (aw as int) < ah) by (nonlinear_arith)
                    requires
                        0 <= i < aw * ah * 4,
                        aw > 0,
                ;
            }
        }
    }
    assert(out@ =~= composed(frame@, cw as int, ch as int, ox as int, oy as int, aw as int, ah as int));
    out
}

} // verus!

verus! {

/// The RGBA pixels of a `width` x `height` image resized to 960 x 540 by
/// nearest-neighbour sampling (`image::imageops::resize` with `FilterType::Nearest`).
pub uninterp spec fn resized_nearest(width: u32, height: u32, pixels: Seq<u8>) -> Seq<u8>;

/// Resizes an RGBA image of `width` x `height` pixels to 960 x 540 with the `image`
/// crate's nearest-neighbour filter. Claimed: the result is `resized_nearest` of the
/// arguments and holds 960 x 540 pixels of 4 bytes (the buffer that `resize` builds
/// has the new dimensions).
#[verifier::external_body]
fn resize_nearest_960x540(width: u32, height: u32, pixels: Vec<u8>) -> (r: Vec<u8>)
    requires
        pixels@.len() == width * height * 4,
    ensures
        r@ == resized_nearest(width, height, pixels@),
        r@.len() == 960 * 540 * 4,
{
    let img: image::RgbaImage = image::ImageBuffer::from_raw(width, height, pixels).unwrap();
    image::imageops::resize(&img, 960, 540, image::imageops::FilterType::Nearest).into_raw()
}

/// The client area is 4 or more pixels off 960 x 540 in width or height.
pub open spec fn needs_resize(aw: int, ah: int) -> bool {
    aw - 960 >= 4 || 960 - aw >= 4 || ah - 540 >= 4 || 540 - ah >= 4
}

/// The screen that the recognisers read: the client image resized to 960 x 540 where
/// it is 4 or more pixels off in either dimension, and unchanged otherwise.
pub open spec fn normalized(aw: u32, ah: u32, img: Seq<u8>) -> Seq<u8> {
    if needs_resize(aw as int, ah as int) {
        resized_nearest(aw, ah, img)
    } else {
        img
    }
}

/// Brings an `aw` x `ah` RGBA client image to the 960 x 540 screen size, unless it is
/// less than 4 pixels off it in both dimensions.
pub fn normalize_screen(aw: u32, ah: u32, img: Vec<u8>) -> (r: Vec<u8>)
    requires
        img@.len() == aw * ah * 4,
        aw <= i32::MAX,
        ah <= i32::MAX,
    ensures
        r@ == normalized(aw, ah, img@),
        needs_resize(aw as int, ah as int) ==> r@.len() == 960 * 540 * 4,
{
    let dw: i32 = aw as i32 - 960;
    let dh: i32 = ah as i32 - 540;
    let diff_w = if dw < 0 { -dw } else { dw };
    let diff_h = if dh < 0 { -dh } else { dh };
    if diff_w >= 4 || diff_h >= 4 {
        resize_nearest_960x540(aw, ah, img)
    } else {
        img
    }
}

/// The normalised screen of a captured frame: the `aw` x `ah` client area at offset
/// `(ox, oy)` cut from the BGRA frame of `cw` x `ch` pixels, brought to 960 x 540.
pub fn screen_from_frame(frame: &[u8], cw: u32, ch: u32, ox: u32, oy: u32, aw: u32, ah: u32) -> (r: Vec<u8>)
    requires
        frame@.len() >= cw * ch * 4,
        aw * ah * 4 <= usize::MAX,
        aw <= i32::MAX,
        ah <= i32::MAX,
    ensures
        r@ == normalized(aw, ah, composed(frame@, cw as int, ch as int, ox as int, oy as int, aw as int, ah as int)),
        needs_resize(aw as int, ah as int) ==> r@.len() == 960 * 540 * 4,
        !needs_resize(aw as int, ah as int) ==> r@.len() == aw * ah * 4,
{
    let img = compose_client_image(frame, cw, ch, ox, oy, aw, ah);
    normalize_screen(aw, ah, img)
}

/// A capture session made for a window of `gw` x `gh` pixels is stale once the window's
/// client area, when known (non-zero), has another size.
pub fn grabber_stale(current_w: u32, current_h: u32, gw: u32, gh: u32) -> (r: bool)
    ensures
        r == (current_w != 0 && current_h != 0 && (current_w != gw || current_h != gh)),
{
    current_w != 0 && current_h != 0 && (current_w != gw || current_h != gh)
}

/// The width of the frame around the render area along one axis: the window's
/// extent (`win_hi - win_lo`) less the render window's.
pub open spec fn frame_extra(win_lo: int, win_hi: int, ren_lo: int, ren_hi: int) -> int {
    (win_hi - win_lo) - (ren_hi - ren_lo)
}

/// Each step of the window-size arithmetic stays in the `i32` range.
pub open spec fn frame_fits(win_lo: int, win_hi: int, ren_lo: int, ren_hi: int, base: int) -> bool {
    &&& i32::MIN <= win_hi - win_lo <= i32::MAX
    &&& i32::MIN <= ren_hi - ren_lo <= i32::MAX
    &&& i32::MIN <= frame_extra(win_lo, win_hi, ren_lo, ren_hi) <= i32::MAX
    &&& i32::MIN <= base + frame_extra(win_lo, win_hi, ren_lo, ren_hi) <= i32::MAX
}

/// The window size that gives a 960 x 540 render area, from the window's rectangle
/// and the render window's (left, top, right, bottom): 960 x 540 plus the frame
/// around the render area.
pub fn window_size_for_render(win: (i32, i32, i32, i32), ren: (i32, i32, i32, i32)) -> (r: (i32, i32))
    requires
        frame_fits(win.0 as int, win.2 as int, ren.0 as int, ren.2 as int, 960),
        frame_fits(win.1 as int, win.3 as int, ren.1 as int, ren.3 as int, 540),
    ensures
        r.0 == 960 + frame_extra(win.0 as int, win.2 as int, ren.0 as int, ren.2 as int),
        r.1 == 540 + frame_extra(win.1 as int, win.3 as int, ren.1 as int, ren.3 as int),
{
    let ew = (win.2 - win.0) - (ren.2 - ren.0);
    let eh = (win.3 - win.1) - (ren.3 - ren.1);
    (960 + ew, 540 + eh)
}

/// Whether the window-size arithmetic for these rectangles stays in the `i32` range.
pub fn window_size_fits(win: (i32, i32, i32, i32), ren: (i32, i32, i32, i32)) -> (r: bool)
    ensures
        r == (frame_fits(win.0 as int, win.2 as int, ren.0 as int, ren.2 as int, 960) && frame_fits(
            win.1 as int,
            win.3 as int,
            ren.1 as int,
            ren.3 as int,
            540,
        )),
{
    let ww = (win.2 as i64) - (win.0 as i64);
    let wh = (win.3 as i64) - (win.1 as i64);
    let rw = (ren.2 as i64) - (ren.0 as i64);
    let rh = (ren.3 as i64) - (ren.1 as i64);
    let lo = i32::MIN as i64;
    let hi = i32::MAX as i64;
    let in_range = |v: i64| -> (b: bool)
        ensures
            b == (lo <= v <= hi),
        { lo <= v && v <= hi };
    if !(in_range(ww) && in_range(wh) && in_range(rw) && in_range(rh)) {
        return false;
    }
    let ew = ww - rw;
    let eh = wh - rh;
    in_range(ew) && in_range(eh) && in_range(960 + ew) && in_range(540 + eh)
}

/// Whether an `aw` x `ah` client image is resized to 960 x 540.
pub fn resize_needed(aw: u32, ah: u32) -> (r: bool)
    ensures
        r == needs_resize(aw as int, ah as int),
{
    let dw: i64 = aw as i64 - 960;
    let dh: i64 = ah as i64 - 540;
    dw >= 4 || -dw >= 4 || dh >= 4 || -dh >= 4
}

} // verus!

verus! {

/// The PNG encoding of a `width` x `height` RGBA image, where encoding succeeds.
pub uninterp spec fn encoded_png(width: u32, height: u32, pixels: Seq<u8>) -> Option<Seq<u8>>;

/// Encodes an RGBA image as PNG with `ImageBuffer::write_to`. Claimed: the result is
/// `encoded_png` of the arguments (`None` where encoding fails); nothing is claimed of
/// its bytes.
#[verifier::external_body]
fn encode_png_rgba(width: u32, height: u32, pixels: Vec<u8>) -> (r: Option<Vec<u8>>)
    requires
        pixels@.len() == width * height * 4,
    ensures
        match r {
            Some(b) => encoded_png(width, height, pixels@) == Some(b@),
            None => encoded_png(width, height, pixels@) is None,
        },
{
    let img: image::RgbaImage = image::ImageBuffer::from_raw(width, height, pixels).unwrap();
    let mut out = std::io::Cursor::new(Vec::new());
    match img.write_to(&mut out, image::ImageFormat::Png) {
        Ok(()) => Some(out.into_inner()),
        Err(_) => None,
    }
}

/// The PNG file of the normalised screen of an `aw` x `ah` client image (the image
/// itself where it is not resized).
pub fn screen_png(aw: u32, ah: u32, img: Vec<u8>) -> (r: Option<Vec<u8>>)
    requires
        img@.len() == aw * ah * 4,
        aw <= i32::MAX,
        ah <= i32::MAX,
    ensures
        match r {
            Some(b) => if needs_resize(aw as int, ah as int) {
                encoded_png(960, 540, normalized(aw, ah, img@)) == Some(b@)
            } else {
                encoded_png(aw, ah, img@) == Some(b@)
            },
            None => if needs_resize(aw as int, ah as int) {
                encoded_png(960, 540, normalized(aw, ah, img@)) is None
            } else {
                encoded_png(aw, ah, img@) is None
            },
        },
{
    let resize = resize_needed(aw, ah);
    let norm = normalize_screen(aw, ah, img);
    if resize {
        encode_png_rgba(960, 540, norm)
    } else {
        encode_png_rgba(aw, ah, norm)
    }
}

} // verus!
