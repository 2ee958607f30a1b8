//! The earlier, corner-probing recogniser: five probe points at the corners and the
//! centre, scanning the full image width.
use vstd::prelude::*;
use crate::matching::{Scan, mk_scan, scan_result, scan_first, found_view, scanner_ok};
use crate::recognize::{sample_step, lemma_empty_scan};

verus! {

/// The recogniser with five probe points: the corners and the centre.
pub struct FastRecognizer;

/// The five probe points of a `tw` x `th` template: its four corners and its centre.
pub open spec fn corner_points(tw: int, th: int) -> Seq<(usize, usize)> {
    seq![
        (0usize, 0usize),
        ((tw - 1) as usize, 0usize),
        ((tw / 2) as usize, (th / 2) as usize),
        (0usize, (th - 1) as usize),
        ((tw - 1) as usize, (th - 1) as usize),
    ]
}

/// The scan that this `find_template_step` performs.
pub open spec fn corner_scan(
    img: Seq<u8>,
    img_w: int,
    img_h: int,
    stride: int,
    tpl: Seq<u8>,
    tw: int,
    th: int,
    threshold: int,
) -> Scan {
    mk_scan(
        img,
        img_w,
        stride,
        tpl,
        tw,
        th,
        threshold,
        sample_step(tw, th),
        corner_points(tw, th),
        0,
        img_w - tw,
        img_h - th,
    )
}

/// The result: the first window, row by row, whose corner probes pass and whose mean
/// difference is below the threshold, with that mean.
pub open spec fn spec_find_template_step(
    img: Seq<u8>,
    img_w: int,
    img_h: int,
    stride: int,
    tpl: Seq<u8>,
    tw: int,
    th: int,
    threshold: int,
) -> Option<(int, int, int)> {
    if tw > img_w || th > img_h {
        None
    } else {
        scan_result(corner_scan(img, img_w, img_h, stride, tpl, tw, th, threshold))
    }
}

/// What a visiting scan needs: buffers that cover the stated sizes, a non-empty
/// template, a threshold whose double fits in `u32`, and a difference sum that fits
/// in `u64`.
pub open spec fn corner_inputs_ok(
    img_len: int,
    img_w: int,
    img_h: int,
    stride: int,
    tpl_len: int,
    tw: int,
    th: int,
    threshold: int,
) -> bool {
    &&& stride >= 3
    &&& img_w * img_h * stride <= img_len
    &&& tw * th * 3 <= tpl_len
    &&& tw >= 1 && th >= 1
    &&& 2 * threshold <= u32::MAX
    &&& tw * th * 255 <= u64::MAX
}

proof fn lemma_corner_sizes(w: int, h: int, stride: int, tw: int, th: int)
    requires
        w >= 0,
        h >= 0,
        stride >= 3,
        tw >= 1,
        th >= 1,
    ensures
        w * h * stride == h * w * stride,
        tw + 2 <= tw * th * 3,
        th + 2 <= tw * th * 3,
        tw * th <= tw * th * 3,
{
    assert(w * h * stride == h * w * stride) by (nonlinear_arith);
    assert(tw + 2 <= tw * th * 3 && th + 2 <= tw * th * 3 && tw * th <= tw * th * 3)
        by (nonlinear_arith)
        requires
            tw >= 1,
            th >= 1,
    ;
}

impl FastRecognizer {
    /// Finds the first window of the image, row by row and left to right, that matches
    /// the RGB template; returns its top-left corner and score.
    pub fn find_template_step(
        img_rgb: &[u8],
        img_w: usize,
        img_h: usize,
        img_stride: usize,
        tpl_rgb: &[u8],
        tpl_w: usize,
        tpl_h: usize,
        threshold: u32,
    ) -> (r: Option<(usize, usize, u32)>)
        requires
            (tpl_w < img_w && tpl_h < img_h) ==> corner_inputs_ok(img_rgb@.len() as int, img_w as int,
                img_h as int, img_stride as int, tpl_rgb@.len() as int, tpl_w as int, tpl_h as int,
                threshold as int),
        ensures
            found_view(r) == spec_find_template_step(
                img_rgb@,
                img_w as int,
                img_h as int,
                img_stride as int,
                tpl_rgb@,
                tpl_w as int,
                tpl_h as int,
                threshold as int,
            ),
    {
        if tpl_w > img_w || tpl_h > img_h {
            return None;
        }
        let ghost s = corner_scan(img_rgb@, img_w as int, img_h as int, img_stride as int,
            tpl_rgb@, tpl_w as int, tpl_h as int, threshold as int);
        if img_h - tpl_h == 0 || img_w - tpl_w == 0 {
            proof {
                lemma_empty_scan(s);
            }
            return None;
        }
        let tpl_len = tpl_rgb.len();
        let img_len = img_rgb.len();
        proof {
            lemma_corner_sizes(img_w as int, img_h as int, img_stride as int, tpl_w as int, tpl_h as int);
        }
        let mut points: Vec<(usize, usize)> = Vec::new();
        points.push((0, 0));
        points.push((tpl_w - 1, 0));
        points.push((tpl_w / 2, tpl_h / 2));
        points.push((0, tpl_h - 1));
        points.push((tpl_w - 1, tpl_h - 1));
        let skip: usize = if tpl_w * tpl_h > 5000 { 2 } else { 1 };
        proof {
            assert(points@ =~= corner_points(tpl_w as int, tpl_h as int));
            assert(img_h * img_w * img_stride <= img_len);
            assert(forall|k: int| 0 <= k < 5 ==> (#[trigger] points@[k]).0 < tpl_w && points@[k].1 < tpl_h);
            assert(scanner_ok(s));
        }
        scan_first(img_rgb, img_w, img_stride, tpl_rgb, tpl_w, tpl_h, threshold, skip,
            points.as_slice(), 0, img_w - tpl_w, img_h - tpl_h)
    }
}

} // verus!
