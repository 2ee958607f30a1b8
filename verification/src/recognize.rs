//! The template recogniser used by the scripts: nine probe points, an optional
//! limit on the scanned width, and a coarser sample grid for large templates.
use vstd::prelude::*;
use crate::matching::{Scan, mk_scan, scan_result, scan_first, found_view, scanner_ok, in_scan, window_matches, lemma_scan_result_none,
    same_windows, same_colour, channel, lemma_higher_threshold, lemma_colour_only, uniform, colour_distance,
    lemma_uniform_score, sampled, in_bounds, img_index, tpl_index};

verus! {

/// The recogniser with nine probe points and a limit on the scanned width.
pub struct FastRecognizer;

/// The larger of `a / 6` and `1`: how far the corner probes sit inside the template.
pub open spec fn inset(a: int) -> int {
    if a / 6 >= 1 { a / 6 } else { 1 }
}

/// The nine probe points of a `tw` x `th` template: four inset corners, the centre,
/// and the four points at the thirds.
pub open spec fn nine_points(tw: int, th: int) -> Seq<(usize, usize)> {
    let ix = inset(tw);
    let iy = inset(th);
    seq![
        (ix as usize, iy as usize),
        ((tw - 1 - ix) as usize, iy as usize),
        (ix as usize, (th - 1 - iy) as usize),
        ((tw - 1 - ix) as usize, (th - 1 - iy) as usize),
        ((tw / 2) as usize, (th / 2) as usize),
        ((tw / 3) as usize, (th / 3) as usize),
        ((tw * 2 / 3) as usize, (th / 3) as usize),
        ((tw / 3) as usize, (th * 2 / 3) as usize),
        ((tw * 2 / 3) as usize, (th * 2 / 3) as usize),
    ]
}

/// Every second row and column is sampled in templates of more than 5000 pixels.
pub open spec fn sample_step(tw: int, th: int) -> int {
    if tw * th > 5000 { 2 } else { 1 }
}

/// The scanned width: `max_scan_w` (default: the whole width), at most the image width.
pub open spec fn scan_limit(img_w: int, max_scan_w: Option<usize>) -> int {
    let m = match max_scan_w {
        Some(v) => v as int,
        None => img_w,
    };
    if m <= img_w { m } else { img_w }
}

/// The scan that `find_template_step` performs.
pub open spec fn template_scan(
    img: Seq<u8>,
    img_w: int,
    img_h: int,
    stride: int,
    tpl: Seq<u8>,
    tw: int,
    th: int,
    threshold: int,
    limit: int,
) -> Scan {
    mk_scan(
        img,
        img_w,
        stride,
        tpl,
        tw,
        th,
        threshold,
        sample_step(tw, th),
        nine_points(tw, th),
        0,
        limit - tw,
        img_h - th,
    )
}

/// The result of `find_template_step`: the first window, row by row, whose probes pass
/// and whose mean difference is below the threshold, with that mean.
pub open spec fn spec_find_template_step(
    img: Seq<u8>,
    img_w: int,
    img_h: int,
    stride: int,
    tpl: Seq<u8>,
    tw: int,
    th: int,
    threshold: int,
    max_scan_w: Option<usize>,
) -> Option<(int, int, int)> {
    let limit = scan_limit(img_w, max_scan_w);
    if tw > img_w || th > img_h || tw > limit {
        None
    } else {
        scan_result(template_scan(img, img_w, img_h, stride, tpl, tw, th, threshold, limit))
    }
}

/// Windows are visited: the template fits with at least one row and column to spare.
pub open spec fn scan_visits(img_w: int, img_h: int, tw: int, th: int, limit: int) -> bool {
    tw <= img_w && th <= img_h && tw <= limit && img_h - th > 0 && limit - tw > 0
}

/// What a visiting scan needs: buffers that cover the stated sizes, templates of at
/// least 2 x 2 pixels, a threshold whose double fits in `u32`, and a difference sum
/// that fits in `u64`.
pub open spec fn step_inputs_ok(
    img_len: int,
    img_w: int,
    img_h: int,
    stride: int,
    tpl_len: int,
    tw: int,
    th: int,
    threshold: int,
) -> bool {
    &&& stride >= 3
    &&& img_w * img_h * stride <= img_len
    &&& tw * th * 3 <= tpl_len
    &&& tw >= 2 && th >= 2
    &&& 2 * threshold <= u32::MAX
    &&& tw * th * 255 <= u64::MAX
}

/// A find lies in the scanned part of the image — the template fits with at least one
/// column to spare before the scan width, and one row before the bottom — and scores
/// below the threshold.
pub proof fn lemma_find_within_scan(
    img: Seq<u8>,
    img_w: int,
    img_h: int,
    stride: int,
    tpl: Seq<u8>,
    tw: int,
    th: int,
    threshold: int,
    max_scan_w: Option<usize>,
)
    ensures
        spec_find_template_step(img, img_w, img_h, stride, tpl, tw, th, threshold, max_scan_w) matches Some(f) ==> {
            &&& 0 <= f.0 && f.0 + tw < scan_limit(img_w, max_scan_w)
            &&& 0 <= f.1 && f.1 + th < img_h
            &&& f.2 < threshold
        },
{
    let limit = scan_limit(img_w, max_scan_w);
    if !(tw > img_w || th > img_h || tw > limit) {
        crate::matching::lemma_scan_result_in_scan(template_scan(img, img_w, img_h, stride, tpl, tw, th, threshold, limit));
    }
}

/// An empty scan finds nothing.
pub proof fn lemma_empty_scan(s: Scan)
    requires
        s.x_end <= s.x0 || s.y_end <= 0,
    ensures
        scan_result(s) is None,
{
    assert forall|x: int, y: int| in_scan(s, x, y) implies !#[trigger] window_matches(s, x, y) by {}
    lemma_scan_result_none(s);
}

/// Raising the threshold never loses a find and never moves it later in scan order:
/// where the search finds a window at threshold `t1`, it finds one at any threshold
/// `t2 >= t1`, in the same row and no further right, or in an earlier row.
pub proof fn lemma_raising_threshold_keeps_find(
    img: Seq<u8>,
    img_w: int,
    img_h: int,
    stride: int,
    tpl: Seq<u8>,
    tw: int,
    th: int,
    t1: int,
    t2: int,
    max_scan_w: Option<usize>,
)
    requires
        t1 <= t2,
        spec_find_template_step(img, img_w, img_h, stride, tpl, tw, th, t1, max_scan_w) is Some,
    ensures
        spec_find_template_step(img, img_w, img_h, stride, tpl, tw, th, t2, max_scan_w) matches Some(f2) && {
            let f1 = spec_find_template_step(img, img_w, img_h, stride, tpl, tw, th, t1, max_scan_w).unwrap();
            f2.1 < f1.1 || (f2.1 == f1.1 && f2.0 <= f1.0)
        },
{
    let limit = scan_limit(img_w, max_scan_w);
    let s1 = template_scan(img, img_w, img_h, stride, tpl, tw, th, t1, limit);
    let s2 = template_scan(img, img_w, img_h, stride, tpl, tw, th, t2, limit);
    assert(same_colour(img, img, stride));
    assert(same_windows(s1, s2));
    lemma_higher_threshold(s1, s2);
}

/// The alpha byte of an RGBA screen never affects the search: two screens of one
/// length that differ only in the fourth byte of some pixels give the same result.
pub proof fn lemma_alpha_ignored(
    img1: Seq<u8>,
    img2: Seq<u8>,
    img_w: int,
    img_h: int,
    tpl: Seq<u8>,
    tw: int,
    th: int,
    threshold: int,
    max_scan_w: Option<usize>,
)
    requires
        img1.len() == img2.len(),
        forall|i: int| 0 <= i < img1.len() && i % 4 != 3 ==> img1[i] == img2[i],
    ensures
        spec_find_template_step(img1, img_w, img_h, 4, tpl, tw, th, threshold, max_scan_w)
            == spec_find_template_step(img2, img_w, img_h, 4, tpl, tw, th, threshold, max_scan_w),
{
    let limit = scan_limit(img_w, max_scan_w);
    let s1 = template_scan(img1, img_w, img_h, 4, tpl, tw, th, threshold, limit);
    let s2 = template_scan(img2, img_w, img_h, 4, tpl, tw, th, threshold, limit);
    lemma_rgba_colour(img1, img2);
    lemma_colour_only(s1, s2);
}

/// RGBA images of one length that differ only in alpha bytes have the same colours.
pub proof fn lemma_rgba_colour(img1: Seq<u8>, img2: Seq<u8>)
    requires
        img1.len() == img2.len(),
        forall|i: int| 0 <= i < img1.len() && i % 4 != 3 ==> img1[i] == img2[i],
    ensures
        same_colour(img1, img2, 4),
{
    assert forall|p: int, c: int| 0 <= c < 3 && 0 <= p * 4 + c < img1.len() implies #[trigger] channel(
        img1,
        4,
        p,
        c,
    ) == channel(img2, 4, p, c) by {
        assert((p * 4 + c) % 4 == c);
    }
}

/// The score compares colours, not grey levels. On an RGBA image whose pixels all
/// have colour `a`, with an RGB template whose pixels all have colour `b`, any find
/// scores exactly the distance between the two colours (the mean of their red, green
/// and blue differences, rounded down); so where that distance is not below the
/// threshold nothing is found, even if the two colours have the same grey level.
pub proof fn lemma_uniform_colours(
    img: Seq<u8>,
    img_w: int,
    img_h: int,
    tpl: Seq<u8>,
    tw: int,
    th: int,
    threshold: int,
    max_scan_w: Option<usize>,
    a: (u8, u8, u8),
    b: (u8, u8, u8),
)
    requires
        img_w >= 0,
        img_h >= 0,
        tw >= 1,
        th >= 1,
        img.len() >= img_w * img_h * 4,
        tpl.len() >= tw * th * 3,
        uniform(img, 4, a),
        uniform(tpl, 3, b),
    ensures
        spec_find_template_step(img, img_w, img_h, 4, tpl, tw, th, threshold, max_scan_w) matches Some(f) ==> f.2
            == colour_distance(a, b),
        colour_distance(a, b) >= threshold ==> spec_find_template_step(img, img_w, img_h, 4, tpl, tw, th, threshold, max_scan_w) is None,
{
    lemma_find_within_scan(img, img_w, img_h, 4, tpl, tw, th, threshold, max_scan_w);
    let limit = scan_limit(img_w, max_scan_w);
    if !(tw > img_w || th > img_h || tw > limit) {
        let s = template_scan(img, img_w, img_h, 4, tpl, tw, th, threshold, limit);
        crate::matching::lemma_scan_result_in_scan(s);
        if let Some(f) = scan_result(s) {
            let x = f.0;
            let y = f.1;
            assert(0 <= y * img_w + x < img_h * img_w) by (nonlinear_arith)
                requires
                    0 <= x < img_w,
                    0 <= y < img_h,
            ;
            assert((y * img_w + x) * 4 + 2 < img_h * img_w * 4) by (nonlinear_arith)
                requires
                    y * img_w + x < img_h * img_w,
            ;
            assert(img_w * img_h * 4 == img_h * img_w * 4) by (nonlinear_arith);
            assert(tw * th * 3 >= 3) by (nonlinear_arith)
                requires
                    tw >= 1,
                    th >= 1,
            ;
            assert(img_index(s, x + 0, y + 0) == (y * img_w + x) * 4);
            assert(tpl_index(s, 0, 0) == 0);
            assert(in_bounds(s, img_index(s, x + 0, y + 0), tpl_index(s, 0, 0)));
            assert(sampled(s, x, y, 0, 0));
            lemma_uniform_score(s, a, b, x, y);
        }
    }
}

impl FastRecognizer {
    /// Finds the first window of the image, row by row and left to right within the
    /// first `max_scan_w` columns, that matches the RGB template; returns its top-left
    /// corner and score.
    pub fn find_template_step(
        img_rgb: &[u8],
        img_w: usize,
        img_h: usize,
        img_stride: usize,
        tpl_rgb: &[u8],
        tpl_w: usize,
        tpl_h: usize,
        threshold: u32,
        max_scan_w: Option<usize>,
    ) -> (r: Option<(usize, usize, u32)>)
        requires
            scan_visits(img_w as int, img_h as int, tpl_w as int, tpl_h as int, scan_limit(img_w as int, max_scan_w))
                ==> step_inputs_ok(img_rgb@.len() as int, img_w as int, img_h as int, img_stride as int,
                    tpl_rgb@.len() as int, tpl_w as int, tpl_h as int, threshold as int),
        ensures
            found_view(r) == spec_find_template_step(
                img_rgb@,
                img_w as int,
                img_h as int,
                img_stride as int,
                tpl_rgb@,
                tpl_w as int,
                tpl_h as int,
                threshold as int,
                max_scan_w,
            ),
    {
        if tpl_w > img_w || tpl_h > img_h {
            return None;
        }
        let wanted = match max_scan_w {
            Some(v) => v,
            None => img_w,
        };
        let limit = if wanted <= img_w { wanted } else { img_w };
        if tpl_w > limit {
            return None;
        }
        let ghost s = template_scan(img_rgb@, img_w as int, img_h as int, img_stride as int,
            tpl_rgb@, tpl_w as int, tpl_h as int, threshold as int, limit as int);
        if img_h - tpl_h == 0 || limit - tpl_w == 0 {
            proof {
                lemma_empty_scan(s);
            }
            return None;
        }
        assert(limit == scan_limit(img_w as int, max_scan_w));
        assert(scan_visits(img_w as int, img_h as int, tpl_w as int, tpl_h as int, limit as int));
        let tpl_len = tpl_rgb.len();
        let img_len = img_rgb.len();
        assert(tpl_w * tpl_h * 3 <= tpl_len);
        proof {
            lemma_sizes(img_w as int, img_h as int, img_stride as int, tpl_w as int, tpl_h as int);
        }
        assert(tpl_w * 2 <= tpl_w * tpl_h * 3);
        let ix = if tpl_w / 6 >= 1 { tpl_w / 6 } else { 1 };
        let iy = if tpl_h / 6 >= 1 { tpl_h / 6 } else { 1 };
        let mut points: Vec<(usize, usize)> = Vec::new();
        points.push((ix, iy));
        points.push((tpl_w - 1 - ix, iy));
        points.push((ix, tpl_h - 1 - iy));
        points.push((tpl_w - 1 - ix, tpl_h - 1 - iy));
        points.push((tpl_w / 2, tpl_h / 2));
        points.push((tpl_w / 3, tpl_h / 3));
        points.push((tpl_w * 2 / 3, tpl_h / 3));
        points.push((tpl_w / 3, tpl_h * 2 / 3));
        points.push((tpl_w * 2 / 3, tpl_h * 2 / 3));
        let skip: usize = if tpl_w * tpl_h > 5000 { 2 } else { 1 };
        proof {
            assert(points@ =~= nine_points(tpl_w as int, tpl_h as int));
            assert(img_h * img_w * img_stride <= img_len);
            assert(forall|k: int| 0 <= k < 9 ==> (#[trigger] points@[k]).0 < tpl_w && points@[k].1 < tpl_h);
            assert(scanner_ok(s));
        }
        scan_first(img_rgb, img_w, img_stride, tpl_rgb, tpl_w, tpl_h, threshold, skip,
            points.as_slice(), 0, limit - tpl_w, img_h - tpl_h)
    }
}

proof fn lemma_sizes(w: int, h: int, stride: int, tw: int, th: int)
    requires
        w >= 0,
        h >= 0,
        stride >= 3,
        tw >= 2,
        th >= 2,
    ensures
        h <= w * h * stride || w == 0,
        w * h * stride == h * w * stride,
        tw + 2 <= tw * th * 3,
        th + 2 <= tw * th * 3,
        tw * 2 <= tw * th * 3,
        th * 2 <= tw * th * 3,
        tw * th <= tw * th * 3,
{
    assert(tw * 2 <= tw * th * 3 && th * 2 <= tw * th * 3 && tw * th <= tw * th * 3) by (nonlinear_arith)
        requires
            tw >= 2,
            th >= 2,
    ;
    assert(w * h * stride == h * w * stride) by (nonlinear_arith);
    assert(w == 0 || h <= w * h * stride) by (nonlinear_arith)
        requires
            w >= 0,
            h >= 0,
            stride >= 3,
    ;
    assert(tw + 2 <= tw * th * 3) by (nonlinear_arith)
        requires
            tw >= 2,
            th >= 2,
    ;
    assert(th + 2 <= tw * th * 3) by (nonlinear_arith)
        requires
            tw >= 2,
            th >= 2,
    ;
}

} // verus!
