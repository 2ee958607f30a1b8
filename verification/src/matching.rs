//! The model of sum-of-absolute-differences template matching, and the one
//! scanner that the recognisers share.
//!
//! A scan slides an RGB template (3 bytes per pixel, rows of `tw` pixels) over an
//! image whose pixels are `stride` bytes apart (rows of `iw` pixels). At every
//! window position, in row-major order, a quick test compares the grey levels at a
//! few probe points; where it passes, the mean per-pixel difference over the
//! sampled template pixels is the window's score. The first window whose quick
//! test passes and whose score is below the threshold is the match.
//!
//! A byte triple that would lie outside the image or the template takes no part:
//! a probe there passes, and a sampled pixel there is not counted.
use vstd::prelude::*;

verus! {

/// Everything that fixes one scan.
pub struct Scan {
    pub img: Seq<u8>,
    pub iw: int,
    pub stride: int,
    pub tpl: Seq<u8>,
    pub tw: int,
    pub th: int,
    pub threshold: int,
    pub skip: int,
    pub points: Seq<(usize, usize)>,
    pub x0: int,
    pub x_end: int,
    pub y_end: int,
}

/// The index of the first byte of image pixel `(x, y)`.
pub open spec fn img_index(s: Scan, x: int, y: int) -> int {
    (y * s.iw + x) * s.stride
}

/// The index of the first byte of template pixel `(tx, ty)`.
pub open spec fn tpl_index(s: Scan, tx: int, ty: int) -> int {
    (ty * s.tw + tx) * 3
}

/// Both byte triples lie inside their buffers.
pub open spec fn in_bounds(s: Scan, ii: int, ti: int) -> bool {
    0 <= ii && ii + 2 < s.img.len() && 0 <= ti && ti + 2 < s.tpl.len()
}

/// The grey level of the pixel whose bytes start at `i`: the mean of its three channels, rounded down.
pub open spec fn gray(b: Seq<u8>, i: int) -> int {
    (b[i] + b[i + 1] + b[i + 2]) / 3
}

/// The absolute difference of `a` and `b`.
pub open spec fn absdiff(a: int, b: int) -> int {
    if a >= b { a - b } else { b - a }
}

/// The probe at template offset `(tx, ty)` of the window at `(x, y)` passes.
pub open spec fn probe_ok(s: Scan, x: int, y: int, tx: int, ty: int) -> bool {
    let ii = img_index(s, x + tx, y + ty);
    let ti = tpl_index(s, tx, ty);
    in_bounds(s, ii, ti) ==> absdiff(gray(s.img, ii), gray(s.tpl, ti)) <= 2 * s.threshold
}

/// Every probe of the window at `(x, y)` passes.
pub open spec fn quick_ok(s: Scan, x: int, y: int) -> bool {
    forall|k: int|
        0 <= k < s.points.len() ==> #[trigger] probe_ok(
            s,
            x,
            y,
            s.points[k].0 as int,
            s.points[k].1 as int,
        )
}

/// The mean of the three channel differences of one pixel.
pub open spec fn pixel_diff(s: Scan, ii: int, ti: int) -> int {
    (absdiff(s.img[ii] as int, s.tpl[ti] as int) + absdiff(s.img[ii + 1] as int, s.tpl[ti + 1] as int)
        + absdiff(s.img[ii + 2] as int, s.tpl[ti + 2] as int)) / 3
}

/// The template pixel `(tx, ty)` is sampled in the window at `(x, y)`.
pub open spec fn sampled(s: Scan, x: int, y: int, tx: int, ty: int) -> bool {
    tx % s.skip == 0 && ty % s.skip == 0 && in_bounds(
        s,
        img_index(s, x + tx, y + ty),
        tpl_index(s, tx, ty),
    )
}

/// What template pixel `(tx, ty)` adds to the difference sum of the window at `(x, y)`.
pub open spec fn contribution(s: Scan, x: int, y: int, tx: int, ty: int) -> int {
    if sampled(s, x, y, tx, ty) {
        pixel_diff(s, img_index(s, x + tx, y + ty), tpl_index(s, tx, ty))
    } else {
        0
    }
}

/// Sum of the differences over the sampled pixels `tx < n` of template row `ty`.
pub open spec fn row_sad(s: Scan, x: int, y: int, ty: int, n: int) -> int
    decreases n,
{
    if n <= 0 {
        0
    } else {
        row_sad(s, x, y, ty, n - 1) + contribution(s, x, y, n - 1, ty)
    }
}

/// Number of sampled pixels `tx < n` in template row `ty`.
pub open spec fn row_cnt(s: Scan, x: int, y: int, ty: int, n: int) -> int
    decreases n,
{
    if n <= 0 {
        0
    } else {
        row_cnt(s, x, y, ty, n - 1) + if sampled(s, x, y, n - 1, ty) { 1int } else { 0int }
    }
}

/// Sum of the differences over the sampled pixels of template rows `ty < m`.
pub open spec fn sad(s: Scan, x: int, y: int, m: int) -> int
    decreases m,
{
    if m <= 0 {
        0
    } else {
        sad(s, x, y, m - 1) + row_sad(s, x, y, m - 1, s.tw)
    }
}

/// Number of sampled pixels in template rows `ty < m`.
pub open spec fn cnt(s: Scan, x: int, y: int, m: int) -> int
    decreases m,
{
    if m <= 0 {
        0
    } else {
        cnt(s, x, y, m - 1) + row_cnt(s, x, y, m - 1, s.tw)
    }
}

/// The score of the window at `(x, y)`: the mean difference over its sampled pixels.
pub open spec fn score(s: Scan, x: int, y: int) -> int {
    let c = cnt(s, x, y, s.th);
    sad(s, x, y, s.th) / if c > 0 { c } else { 1 }
}

/// The window at `(x, y)` matches the template.
pub open spec fn window_matches(s: Scan, x: int, y: int) -> bool {
    quick_ok(s, x, y) && score(s, x, y) < s.threshold
}

/// `(x, y)` is one of the window positions that the scan visits.
pub open spec fn in_scan(s: Scan, x: int, y: int) -> bool {
    s.x0 <= x < s.x_end && 0 <= y < s.y_end
}

/// Position `(x1, y1)` is visited before `(x2, y2)`.
pub open spec fn before(x1: int, y1: int, x2: int, y2: int) -> bool {
    y1 < y2 || (y1 == y2 && x1 < x2)
}

/// `(x, y)` is the first visited position whose window matches.
pub open spec fn is_first(s: Scan, x: int, y: int) -> bool {
    &&& in_scan(s, x, y)
    &&& window_matches(s, x, y)
    &&& forall|x2: int, y2: int|
        #![trigger window_matches(s, x2, y2)]
        in_scan(s, x2, y2) && before(x2, y2, x, y) ==> !window_matches(s, x2, y2)
}

/// The position of the first match of the scan, if any.
pub open spec fn first_match(s: Scan) -> Option<(int, int)> {
    if exists|p: (int, int)| is_first(s, p.0, p.1) {
        Some(choose|p: (int, int)| is_first(s, p.0, p.1))
    } else {
        None
    }
}

/// The outcome of the scan: the first match with its score.
pub open spec fn scan_result(s: Scan) -> Option<(int, int, int)> {
    match first_match(s) {
        Some(p) => Some((p.0, p.1, score(s, p.0, p.1))),
        None => None,
    }
}

/// The view of a matcher's result as integers.
pub open spec fn found_view(r: Option<(usize, usize, u32)>) -> Option<(int, int, int)> {
    match r {
        Some(t) => Some((t.0 as int, t.1 as int, t.2 as int)),
        None => None,
    }
}

/// A scan has at most one first match.
pub proof fn lemma_first_unique(s: Scan, x1: int, y1: int, x2: int, y2: int)
    requires
        is_first(s, x1, y1),
        is_first(s, x2, y2),
    ensures
        x1 == x2 && y1 == y2,
{
    if before(x1, y1, x2, y2) {
        assert(!window_matches(s, x1, y1));
    } else if before(x2, y2, x1, y1) {
        assert(!window_matches(s, x2, y2));
    }
}

/// A found first match is what `scan_result` names.
pub proof fn lemma_scan_result_some(s: Scan, x: int, y: int)
    requires
        is_first(s, x, y),
    ensures
        scan_result(s) == Some((x, y, score(s, x, y))),
{
    assert(is_first(s, (x, y).0, (x, y).1));
    let p = choose|p: (int, int)| is_first(s, p.0, p.1);
    assert(is_first(s, p.0, p.1));
    lemma_first_unique(s, p.0, p.1, x, y);
}

/// With no matching window, `scan_result` is `None`.
pub proof fn lemma_scan_result_none(s: Scan)
    requires
        forall|x: int, y: int| in_scan(s, x, y) ==> !#[trigger] window_matches(s, x, y),
    ensures
        scan_result(s) is None,
{
    if exists|p: (int, int)| is_first(s, p.0, p.1) {
        let p = choose|p: (int, int)| is_first(s, p.0, p.1);
        assert(is_first(s, p.0, p.1));
    }
}

/// A scan result lies inside the scanned range, and its window matches: its quick
/// test passes and its score is below the threshold.
pub proof fn lemma_scan_result_in_scan(s: Scan)
    ensures
        scan_result(s) matches Some(r) ==> in_scan(s, r.0, r.1) && window_matches(s, r.0, r.1) && r.2 == score(s, r.0, r.1),
{
    if exists|p: (int, int)| is_first(s, p.0, p.1) {
        let p = choose|p: (int, int)| is_first(s, p.0, p.1);
        assert(is_first(s, p.0, p.1));
    }
}

/// The scan with the given parts.
pub open spec fn mk_scan(
    img: Seq<u8>,
    iw: int,
    stride: int,
    tpl: Seq<u8>,
    tw: int,
    th: int,
    threshold: int,
    skip: int,
    points: Seq<(usize, usize)>,
    x0: int,
    x_end: int,
    y_end: int,
) -> Scan {
    Scan { img, iw, stride, tpl, tw, th, threshold, skip, points, x0, x_end, y_end }
}

/// What the scanner needs of its arguments.
pub open spec fn scanner_ok(s: Scan) -> bool {
    &&& s.skip == 1 || s.skip == 2
    &&& s.stride >= 3
    &&& s.iw >= 0 && s.tw >= 0 && s.th >= 0 && s.x0 >= 0
    &&& s.x_end + s.tw <= s.iw
    &&& (s.y_end + s.th) * s.iw * s.stride <= usize::MAX
    &&& s.tw * s.th * 3 <= usize::MAX
    &&& s.tw + 2 <= usize::MAX && s.th + 2 <= usize::MAX && s.y_end + s.th <= usize::MAX
    &&& s.tw * s.th * 255 <= u64::MAX
    &&& 2 * s.threshold <= u32::MAX
    &&& s.threshold >= 0
    &&& forall|k: int|
        0 <= k < s.points.len() ==> (#[trigger] s.points[k]).0 < s.tw && s.points[k].1 < s.th
}

proof fn lemma_index_bound(yy: int, xx: int, w: int, h: int, stride: int)
    requires
        0 <= yy < h,
        0 <= xx < w,
        stride >= 3,
    ensures
        0 <= yy * w,
        yy * w + xx < h * w,
        0 <= (yy * w + xx) * stride,
        (yy * w + xx) * stride + 2 < h * w * stride,
        h * w <= h * w * stride,
{
    assert(0 <= yy * w) by (nonlinear_arith)
        requires
            0 <= yy,
            0 <= w,
    ;
    assert(yy * w <= (h - 1) * w) by (nonlinear_arith)
        requires
            yy <= h - 1,
            0 <= w,
    ;
    assert((h - 1) * w == h * w - w) by (nonlinear_arith);
    assert(0 <= (yy * w + xx) * stride) by (nonlinear_arith)
        requires
            0 <= yy * w + xx,
            stride >= 3,
    ;
    assert((yy * w + xx) * stride <= (h * w - 1) * stride) by (nonlinear_arith)
        requires
            yy * w + xx <= h * w - 1,
            stride >= 3,
    ;
    assert((h * w - 1) * stride == h * w * stride - stride) by (nonlinear_arith);
    assert(h * w <= h * w * stride) by (nonlinear_arith)
        requires
            0 <= h * w,
            stride >= 3,
    ;
}

proof fn lemma_mean_bound(total: int, c: int)
    requires
        0 <= total <= 255 * c,
        c > 0,
    ensures
        0 <= total / c <= 255,
{
    assert(total / c <= 255) by (nonlinear_arith)
        requires
            0 <= total <= 255 * c,
            c > 0,
    ;
    assert(0 <= total / c) by (nonlinear_arith)
        requires
            0 <= total,
            c > 0,
    ;
}

proof fn lemma_row_bounds(s: Scan, x: int, y: int, ty: int, n: int)
    requires
        0 <= n,
    ensures
        0 <= row_cnt(s, x, y, ty, n) <= n,
        0 <= row_sad(s, x, y, ty, n) <= 255 * row_cnt(s, x, y, ty, n),
    decreases n,
{
    if n > 0 {
        lemma_row_bounds(s, x, y, ty, n - 1);
        if sampled(s, x, y, n - 1, ty) {
            let ii = img_index(s, x + n - 1, y + ty);
            let ti = tpl_index(s, n - 1, ty);
            assert(0 <= pixel_diff(s, ii, ti) <= 255);
        }
    }
}

proof fn lemma_sad_bounds(s: Scan, x: int, y: int, m: int)
    requires
        0 <= m,
        0 <= s.tw,
    ensures
        0 <= cnt(s, x, y, m) <= m * s.tw,
        0 <= sad(s, x, y, m) <= 255 * cnt(s, x, y, m),
    decreases m,
{
    if m > 0 {
        lemma_sad_bounds(s, x, y, m - 1);
        lemma_row_bounds(s, x, y, m - 1, s.tw);
        assert(m * s.tw == (m - 1) * s.tw + s.tw) by (nonlinear_arith);
    }
}

/// One step of a row sum whose next position is not a sampled column.
proof fn lemma_row_skip(s: Scan, x: int, y: int, ty: int, n: int)
    requires
        n >= 0,
        n % s.skip != 0,
    ensures
        row_sad(s, x, y, ty, n + 1) == row_sad(s, x, y, ty, n),
        row_cnt(s, x, y, ty, n + 1) == row_cnt(s, x, y, ty, n),
{
    assert(!sampled(s, x, y, n, ty));
}

/// One step of a window sum whose next row is not a sampled row.
proof fn lemma_rows_skip(s: Scan, x: int, y: int, ty: int, n: int)
    requires
        n >= 0,
        ty % s.skip != 0,
    ensures
        row_sad(s, x, y, ty, n) == 0,
        row_cnt(s, x, y, ty, n) == 0,
    decreases n,
{
    if n > 0 {
        lemma_rows_skip(s, x, y, ty, n - 1);
        assert(!sampled(s, x, y, n - 1, ty));
    }
}

/// Whether the probe `(tx, ty)` of the window at `(x, y)` passes.
fn probe_passes(
    img: &[u8],
    iw: usize,
    stride: usize,
    tpl: &[u8],
    tw: usize,
    th: usize,
    threshold: u32,
    x: usize,
    y: usize,
    tx: usize,
    ty: usize,
    Ghost(s): Ghost<Scan>,
) -> (ok: bool)
    requires
        scanner_ok(s),
        s.img == img@,
        s.tpl == tpl@,
        s.iw == iw,
        s.stride == stride,
        s.tw == tw,
        s.th == th,
        s.threshold == threshold,
        in_scan(s, x as int, y as int),
        tx < tw,
        ty < th,
    ensures
        ok == probe_ok(s, x as int, y as int, tx as int, ty as int),
{
    proof {
        lemma_index_bound(
            (y + ty) as int,
            (x + tx) as int,
            iw as int,
            s.y_end + th,
            stride as int,
        );
        lemma_index_bound(ty as int, tx as int, tw as int, th as int, 3);
        assert(th * tw * 3 == s.tw * s.th * 3) by (nonlinear_arith)
            requires
                th == s.th,
                tw == s.tw,
        ;
    }
    assert((y + ty) * iw + (x + tx) < (s.y_end + th) * iw);
    assert((s.y_end + th) * iw <= (s.y_end + th) * iw * stride);
    assert((s.y_end + th) * iw * stride <= usize::MAX);
    let row = y + ty;
    let col = x + tx;
    assert(row * iw <= row * iw + col);
    let base = row * iw;
    let lin = base + col;
    assert(lin * stride <= (s.y_end + th) * iw * stride);
    let ii = lin * stride;
    assert((ty * tw + tx) * 3 + 2 < th * tw * 3);
    assert(th * tw * 3 <= usize::MAX);
    assert(ty * tw <= ty * tw + tx);
    let tbase = ty * tw;
    let ti = (tbase + tx) * 3;
    if ii + 2 < img.len() && ti + 2 < tpl.len() {
        let ig = (img[ii] as u32 + img[ii + 1] as u32 + img[ii + 2] as u32) / 3;
        let tg = (tpl[ti] as u32 + tpl[ti + 1] as u32 + tpl[ti + 2] as u32) / 3;
        let d = if ig >= tg { ig - tg } else { tg - ig };
        d <= threshold * 2
    } else {
        true
    }
}

/// Whether every probe of the window at `(x, y)` passes.
fn quick_check(
    img: &[u8],
    iw: usize,
    stride: usize,
    tpl: &[u8],
    tw: usize,
    th: usize,
    threshold: u32,
    points: &[(usize, usize)],
    x: usize,
    y: usize,
    Ghost(s): Ghost<Scan>,
) -> (ok: bool)
    requires
        scanner_ok(s),
        s.img == img@,
        s.tpl == tpl@,
        s.iw == iw,
        s.stride == stride,
        s.tw == tw,
        s.th == th,
        s.threshold == threshold,
        s.points == points@,
        in_scan(s, x as int, y as int),
    ensures
        ok == quick_ok(s, x as int, y as int),
{
    let mut k: usize = 0;
    while k < points.len()
        invariant
            k <= points@.len(),
            scanner_ok(s),
            s.img == img@,
            s.tpl == tpl@,
            s.iw == iw,
            s.stride == stride,
            s.tw == tw,
            s.th == th,
            s.threshold == threshold,
            s.points == points@,
            in_scan(s, x as int, y as int),
            forall|j: int|
                0 <= j < k ==> #[trigger] probe_ok(
                    s,
                    x as int,
                    y as int,
                    s.points[j].0 as int,
                    s.points[j].1 as int,
                ),
        decreases points@.len() - k,
    {
        let (tx, ty) = points[k];
        assert(s.points[k as int] == (tx, ty));
        if !probe_passes(img, iw, stride, tpl, tw, th, threshold, x, y, tx, ty, Ghost(s)) {
            return false;
        }
        k = k + 1;
    }
    true
}

/// The score of the window at `(x, y)`.
fn window_score(
    img: &[u8],
    iw: usize,
    stride: usize,
    tpl: &[u8],
    tw: usize,
    th: usize,
    skip: usize,
    x: usize,
    y: usize,
    Ghost(s): Ghost<Scan>,
) -> (sc: u32)
    requires
        scanner_ok(s),
        s.img == img@,
        s.tpl == tpl@,
        s.iw == iw,
        s.stride == stride,
        s.tw == tw,
        s.th == th,
        s.skip == skip,
        in_scan(s, x as int, y as int),
    ensures
        sc == score(s, x as int, y as int),
{
    let mut total: u64 = 0;
    let mut count: u64 = 0;
    let mut ty: usize = 0;
    proof {
        lemma_sad_bounds(s, x as int, y as int, th as int);
        assert(th * tw <= s.tw * s.th) by (nonlinear_arith)
            requires
                th == s.th,
                tw == s.tw,
        ;
    }
    while ty < th
        invariant
            scanner_ok(s),
            s.img == img@,
            s.tpl == tpl@,
            s.iw == iw,
            s.stride == stride,
            s.tw == tw,
            s.th == th,
            s.skip == skip,
            in_scan(s, x as int, y as int),
            ty % skip == 0,
            ty <= th + skip - 1,
            total == sad(s, x as int, y as int, ty as int),
            count == cnt(s, x as int, y as int, ty as int),
            cnt(s, x as int, y as int, th as int) <= th * tw,
            th * tw * 255 <= u64::MAX,
        decreases th + skip - ty,
    {
        let mut row_total: u64 = 0;
        let mut row_count: u64 = 0;
        let mut tx: usize = 0;
        proof {
            lemma_sad_bounds(s, x as int, y as int, ty as int);
            lemma_row_bounds(s, x as int, y as int, ty as int, tw as int);
            assert(ty * tw + tw <= th * tw) by (nonlinear_arith)
                requires
                    ty < th,
            ;
        }
        while tx < tw
            invariant
                scanner_ok(s),
                s.img == img@,
                s.tpl == tpl@,
                s.iw == iw,
                s.stride == stride,
                s.tw == tw,
                s.th == th,
                s.skip == skip,
                in_scan(s, x as int, y as int),
                ty < th,
                ty % skip == 0,
                tx % skip == 0,
                tx <= tw + skip - 1,
                row_total == row_sad(s, x as int, y as int, ty as int, tx as int),
                row_count == row_cnt(s, x as int, y as int, ty as int, tx as int),
                row_cnt(s, x as int, y as int, ty as int, tw as int) <= tw,
                tw <= th * tw,
                th * tw * 255 <= u64::MAX,
            decreases tw + skip - tx,
        {
            proof {
                lemma_index_bound(
                    (y + ty) as int,
                    (x + tx) as int,
                    iw as int,
                    s.y_end + th,
                    stride as int,
                );
                lemma_index_bound(ty as int, tx as int, tw as int, th as int, 3);
                assert(th * tw * 3 == s.tw * s.th * 3) by (nonlinear_arith)
                    requires
                        th == s.th,
                        tw == s.tw,
                ;
                lemma_row_bounds(s, x as int, y as int, ty as int, tx as int);
                lemma_row_bounds(s, x as int, y as int, ty as int, tx as int + 1);
                if tx as int + 1 < tw {
                    lemma_row_bounds(s, x as int, y as int, ty as int, tx as int + 2);
                }
                lemma_row_mono(s, x as int, y as int, ty as int, tx as int + 1, tw as int);
            }
            assert((y + ty) * iw + (x + tx) < (s.y_end + th) * iw);
            assert((s.y_end + th) * iw <= (s.y_end + th) * iw * stride);
            let row = y + ty;
    let col = x + tx;
    assert(row * iw <= row * iw + col);
    let base = row * iw;
    let lin = base + col;
    assert(lin * stride <= (s.y_end + th) * iw * stride);
    let ii = lin * stride;
            assert((ty * tw + tx) * 3 + 2 < th * tw * 3);
            assert(ty * tw <= ty * tw + tx);
    let tbase = ty * tw;
    let ti = (tbase + tx) * 3;
            if ii + 2 < img.len() && ti + 2 < tpl.len() {
                let rd = if img[ii] >= tpl[ti] { img[ii] - tpl[ti] } else { tpl[ti] - img[ii] };
                let gd = if img[ii + 1] >= tpl[ti + 1] { img[ii + 1] - tpl[ti + 1] } else { tpl[ti + 1] - img[ii + 1] };
                let bd = if img[ii + 2] >= tpl[ti + 2] { img[ii + 2] - tpl[ti + 2] } else { tpl[ti + 2] - img[ii + 2] };
                let diff = (rd as u64 + gd as u64 + bd as u64) / 3;
                row_total = row_total + diff;
                row_count = row_count + 1;
            }
            proof {
                assert(row_sad(s, x as int, y as int, ty as int, tx as int + 1) == row_total);
                assert(row_cnt(s, x as int, y as int, ty as int, tx as int + 1) == row_count);
                if skip == 2 {
                    lemma_row_skip(s, x as int, y as int, ty as int, tx as int + 1);
                    assert((tx + 2) % 2 == 0);
                }
            }
            tx = tx + skip;
        }
        proof {
            if tx > tw {
                lemma_row_skip(s, x as int, y as int, ty as int, tw as int);
            }
            lemma_sad_bounds(s, x as int, y as int, ty as int + 1);
            lemma_cnt_mono(s, x as int, y as int, ty as int + 1, th as int);
        }
        total = total + row_total;
        count = count + row_count;
        proof {
            assert(sad(s, x as int, y as int, ty as int + 1) == total);
            assert(cnt(s, x as int, y as int, ty as int + 1) == count);
            if skip == 2 {
                lemma_rows_skip(s, x as int, y as int, ty as int + 1, tw as int);
                assert(sad(s, x as int, y as int, ty as int + 2) == total);
                assert(cnt(s, x as int, y as int, ty as int + 2) == count);
                assert((ty + 2) % 2 == 0);
            }
        }
        ty = ty + skip;
    }
    proof {
        if ty > th {
            lemma_rows_skip(s, x as int, y as int, th as int, tw as int);
            assert(sad(s, x as int, y as int, th as int + 1) == sad(s, x as int, y as int, th as int));
            assert(cnt(s, x as int, y as int, th as int + 1) == cnt(s, x as int, y as int, th as int));
        }
        lemma_sad_bounds(s, x as int, y as int, th as int);
    }
    let c = if count > 0 { count } else { 1 };
    proof {
        lemma_mean_bound(total as int, c as int);
    }
    (total / c) as u32
}

proof fn lemma_row_mono(s: Scan, x: int, y: int, ty: int, a: int, b: int)
    requires
        0 <= a <= b,
    ensures
        row_cnt(s, x, y, ty, a) <= row_cnt(s, x, y, ty, b),
        row_sad(s, x, y, ty, a) <= row_sad(s, x, y, ty, b),
    decreases b - a,
{
    if a < b {
        lemma_row_mono(s, x, y, ty, a, b - 1);
        lemma_row_bounds(s, x, y, ty, b);
        lemma_row_bounds(s, x, y, ty, b - 1);
        if sampled(s, x, y, b - 1, ty) {
            let ii = img_index(s, x + b - 1, y + ty);
            let ti = tpl_index(s, b - 1, ty);
            assert(0 <= pixel_diff(s, ii, ti));
        }
    }
}

proof fn lemma_cnt_mono(s: Scan, x: int, y: int, a: int, b: int)
    requires
        0 <= a <= b,
        0 <= s.tw,
    ensures
        cnt(s, x, y, a) <= cnt(s, x, y, b),
    decreases b - a,
{
    if a < b {
        lemma_cnt_mono(s, x, y, a, b - 1);
        lemma_row_bounds(s, x, y, b - 1, s.tw);
    }
}

/// Scans the windows `x0 <= x < x_end`, `0 <= y < y_end` in row-major order and
/// returns the first match with its score.
pub fn scan_first(
    img: &[u8],
    iw: usize,
    stride: usize,
    tpl: &[u8],
    tw: usize,
    th: usize,
    threshold: u32,
    skip: usize,
    points: &[(usize, usize)],
    x0: usize,
    x_end: usize,
    y_end: usize,
) -> (r: Option<(usize, usize, u32)>)
    requires
        scanner_ok(
            mk_scan(
                img@,
                iw as int,
                stride as int,
                tpl@,
                tw as int,
                th as int,
                threshold as int,
                skip as int,
                points@,
                x0 as int,
                x_end as int,
                y_end as int,
            ),
        ),
    ensures
        found_view(r) == scan_result(
            mk_scan(
                img@,
                iw as int,
                stride as int,
                tpl@,
                tw as int,
                th as int,
                threshold as int,
                skip as int,
                points@,
                x0 as int,
                x_end as int,
                y_end as int,
            ),
        ),
{
    let ghost s = mk_scan(
        img@,
        iw as int,
        stride as int,
        tpl@,
        tw as int,
        th as int,
        threshold as int,
        skip as int,
        points@,
        x0 as int,
        x_end as int,
        y_end as int,
    );
    let mut y: usize = 0;
    while y < y_end
        invariant
            scanner_ok(s),
            s == mk_scan(
                img@,
                iw as int,
                stride as int,
                tpl@,
                tw as int,
                th as int,
                threshold as int,
                skip as int,
                points@,
                x0 as int,
                x_end as int,
                y_end as int,
            ),
            y <= y_end,
            forall|x2: int, y2: int|
                in_scan(s, x2, y2) && y2 < y ==> !#[trigger] window_matches(s, x2, y2),
        decreases y_end - y,
    {
        let mut x: usize = x0;
        while x < x_end
            invariant
                scanner_ok(s),
                s == mk_scan(
                    img@,
                    iw as int,
                    stride as int,
                    tpl@,
                    tw as int,
                    th as int,
                    threshold as int,
                    skip as int,
                    points@,
                    x0 as int,
                    x_end as int,
                    y_end as int,
                ),
                y < y_end,
                x0 <= x,
                x <= x_end || x == x0,
                forall|x2: int, y2: int|
                    in_scan(s, x2, y2) && (y2 < y || (y2 == y && x2 < x)) ==> !#[trigger] window_matches(
                        s,
                        x2,
                        y2,
                    ),
            decreases x_end - x,
        {
            let q = quick_check(img, iw, stride, tpl, tw, th, threshold, points, x, y, Ghost(s));
            if q {
                let sc = window_score(img, iw, stride, tpl, tw, th, skip, x, y, Ghost(s));
                if sc < threshold {
                    proof {
                        assert(is_first(s, x as int, y as int));
                        lemma_scan_result_some(s, x as int, y as int);
                    }
                    return Some((x, y, sc));
                }
            }
            x = x + 1;
        }
        y = y + 1;
    }
    proof {
        lemma_scan_result_none(s);
    }
    None
}

} // verus!

verus! {

/// Byte `c` of pixel `p` of an image whose pixels are `stride` bytes apart.
pub open spec fn channel(img: Seq<u8>, stride: int, p: int, c: int) -> u8 {
    img[p * stride + c]
}

/// Two images of one length whose pixels agree in their first three bytes (their
/// colour); any further bytes of a pixel may differ.
pub open spec fn same_colour(a: Seq<u8>, b: Seq<u8>, stride: int) -> bool {
    &&& a.len() == b.len()
    &&& forall|p: int, c: int|
        0 <= c < 3 && 0 <= p * stride + c < a.len() ==> #[trigger] channel(a, stride, p, c) == channel(b, stride, p, c)
}

/// Two scans that compare the same template with images of the same colours, on the
/// same layout and sample grid.
pub open spec fn same_windows(s1: Scan, s2: Scan) -> bool {
    &&& s1.iw == s2.iw
    &&& s1.stride == s2.stride
    &&& s1.tpl == s2.tpl
    &&& s1.tw == s2.tw
    &&& s1.th == s2.th
    &&& s1.skip == s2.skip
    &&& same_colour(s1.img, s2.img, s1.stride)
}

/// Such scans give every template pixel the same part in every window, and every
/// probe the same grey levels.
proof fn lemma_pixel_same(s1: Scan, s2: Scan, x: int, y: int, tx: int, ty: int)
    requires
        same_windows(s1, s2),
    ensures
        sampled(s1, x, y, tx, ty) == sampled(s2, x, y, tx, ty),
        contribution(s1, x, y, tx, ty) == contribution(s2, x, y, tx, ty),
        in_bounds(s1, img_index(s1, x + tx, y + ty), tpl_index(s1, tx, ty)) ==> gray(
            s1.img,
            img_index(s1, x + tx, y + ty),
        ) == gray(s2.img, img_index(s2, x + tx, y + ty)),
{
    let p = (y + ty) * s1.iw + (x + tx);
    let ii = img_index(s1, x + tx, y + ty);
    assert(ii == p * s1.stride + 0);
    assert(img_index(s2, x + tx, y + ty) == ii);
    if in_bounds(s1, ii, tpl_index(s1, tx, ty)) {
        assert(channel(s1.img, s1.stride, p, 0) == channel(s2.img, s1.stride, p, 0));
        assert(channel(s1.img, s1.stride, p, 1) == channel(s2.img, s1.stride, p, 1));
        assert(channel(s1.img, s1.stride, p, 2) == channel(s2.img, s1.stride, p, 2));
        assert(s1.img[ii] == s2.img[ii]);
        assert(s1.img[ii + 1] == s2.img[ii + 1]);
        assert(s1.img[ii + 2] == s2.img[ii + 2]);
    }
}

proof fn lemma_row_same(s1: Scan, s2: Scan, x: int, y: int, ty: int, n: int)
    requires
        same_windows(s1, s2),
    ensures
        row_sad(s1, x, y, ty, n) == row_sad(s2, x, y, ty, n),
        row_cnt(s1, x, y, ty, n) == row_cnt(s2, x, y, ty, n),
    decreases n,
{
    if n > 0 {
        lemma_row_same(s1, s2, x, y, ty, n - 1);
        lemma_pixel_same(s1, s2, x, y, n - 1, ty);
    }
}

proof fn lemma_sums_same(s1: Scan, s2: Scan, x: int, y: int, m: int)
    requires
        same_windows(s1, s2),
    ensures
        sad(s1, x, y, m) == sad(s2, x, y, m),
        cnt(s1, x, y, m) == cnt(s2, x, y, m),
    decreases m,
{
    if m > 0 {
        lemma_sums_same(s1, s2, x, y, m - 1);
        lemma_row_same(s1, s2, x, y, m - 1, s1.tw);
    }
}

/// Such scans score every window alike, and a window that matches in the first
/// matches in the second where the second's threshold is no lower and its probes
/// are the same.
pub proof fn lemma_window_same(s1: Scan, s2: Scan, x: int, y: int)
    requires
        same_windows(s1, s2),
    ensures
        score(s1, x, y) == score(s2, x, y),
        s1.points == s2.points && s1.threshold <= s2.threshold && window_matches(s1, x, y) ==> window_matches(s2, x, y),
{
    lemma_sums_same(s1, s2, x, y, s1.th);
    if s1.points == s2.points && s1.threshold <= s2.threshold && window_matches(s1, x, y) {
        assert forall|k: int| 0 <= k < s2.points.len() implies #[trigger] probe_ok(
            s2,
            x,
            y,
            s2.points[k].0 as int,
            s2.points[k].1 as int,
        ) by {
            let tx = s1.points[k].0 as int;
            let ty = s1.points[k].1 as int;
            assert(probe_ok(s1, x, y, tx, ty));
            lemma_pixel_same(s1, s2, x, y, tx, ty);
        }
    }
}

/// A matching window in the scanned range means a first match, at it or before it.
pub proof fn lemma_first_not_after(s: Scan, x: int, y: int)
    requires
        in_scan(s, x, y),
        window_matches(s, x, y),
    ensures
        first_match(s) matches Some(p) && in_scan(s, p.0, p.1) && (p == (x, y) || before(p.0, p.1, x, y)),
    decreases y, x - s.x0,
{
    if is_first(s, x, y) {
        lemma_scan_result_some(s, x, y);
        assert(first_match(s) == Some((x, y)));
    } else {
        let (x2, y2) = choose|x2: int, y2: int|
            in_scan(s, x2, y2) && before(x2, y2, x, y) && #[trigger] window_matches(s, x2, y2);
        assert(in_scan(s, x2, y2) && before(x2, y2, x, y) && window_matches(s, x2, y2));
        lemma_first_not_after(s, x2, y2);
    }
}

/// Scans that agree on everything but the threshold, the second's being no lower:
/// where the first finds a match, the second finds one at the same position or
/// earlier.
pub proof fn lemma_higher_threshold(s1: Scan, s2: Scan)
    requires
        same_windows(s1, s2),
        s1.points == s2.points,
        s1.x0 == s2.x0 && s1.x_end == s2.x_end && s1.y_end == s2.y_end,
        s1.threshold <= s2.threshold,
        scan_result(s1) is Some,
    ensures
        scan_result(s2) matches Some(r2) && {
            let r1 = scan_result(s1).unwrap();
            r2.1 < r1.1 || (r2.1 == r1.1 && r2.0 <= r1.0)
        },
{
    lemma_scan_result_in_scan(s1);
    let r1 = scan_result(s1).unwrap();
    lemma_window_same(s1, s2, r1.0, r1.1);
    lemma_first_not_after(s2, r1.0, r1.1);
}

/// Scans that differ only in the bytes of their images past the colour of each pixel
/// have the same outcome.
pub proof fn lemma_colour_only(s1: Scan, s2: Scan)
    requires
        same_windows(s1, s2),
        s1.points == s2.points,
        s1.threshold == s2.threshold,
        s1.x0 == s2.x0 && s1.x_end == s2.x_end && s1.y_end == s2.y_end,
    ensures
        scan_result(s1) == scan_result(s2),
{
    assert(same_windows(s2, s1)) by {
        assert forall|p: int, c: int| 0 <= c < 3 && 0 <= p * s2.stride + c < s2.img.len() implies #[trigger] channel(
            s2.img,
            s2.stride,
            p,
            c,
        ) == channel(s1.img, s2.stride, p, c) by {
            assert(channel(s1.img, s1.stride, p, c) == channel(s2.img, s1.stride, p, c));
        }
    }
    if scan_result(s1) is Some {
        lemma_higher_threshold(s1, s2);
        lemma_higher_threshold(s2, s1);
        let r1 = scan_result(s1).unwrap();
        lemma_scan_result_in_scan(s1);
        lemma_window_same(s1, s2, r1.0, r1.1);
    } else if scan_result(s2) is Some {
        lemma_higher_threshold(s2, s1);
    }
}

} // verus!

verus! {

/// Channel `c` (0: red, 1: green, 2: blue) of a colour.
pub open spec fn colour_channel(a: (u8, u8, u8), c: int) -> int {
    if c == 0 {
        a.0 as int
    } else if c == 1 {
        a.1 as int
    } else {
        a.2 as int
    }
}

/// How far apart two colours are: the sum of the distances between their red, green
/// and blue channels, divided by three and rounded down.
pub open spec fn colour_distance(a: (u8, u8, u8), b: (u8, u8, u8)) -> int {
    ((if a.0 >= b.0 { a.0 - b.0 } else { b.0 - a.0 }) + (if a.1 >= b.1 { a.1 - b.1 } else { b.1 - a.1 }) + (if a.2
        >= b.2 { a.2 - b.2 } else { b.2 - a.2 })) / 3
}

/// Every pixel of the image (pixels `stride` bytes apart) has colour `a` in its first
/// three bytes.
pub open spec fn uniform(img: Seq<u8>, stride: int, a: (u8, u8, u8)) -> bool {
    forall|p: int, c: int|
        0 <= c < 3 && 0 <= p * stride + c < img.len() ==> #[trigger] channel(img, stride, p, c) as int == colour_channel(
            a,
            c,
        )
}

proof fn lemma_uniform_pixel(s: Scan, a: (u8, u8, u8), b: (u8, u8, u8), x: int, y: int, tx: int, ty: int)
    requires
        uniform(s.img, s.stride, a),
        uniform(s.tpl, 3, b),
    ensures
        contribution(s, x, y, tx, ty) == if sampled(s, x, y, tx, ty) { colour_distance(a, b) } else { 0 },
{
    if sampled(s, x, y, tx, ty) {
        let p = (y + ty) * s.iw + (x + tx);
        let q = ty * s.tw + tx;
        let ii = img_index(s, x + tx, y + ty);
        let ti = tpl_index(s, tx, ty);
        assert(ii == p * s.stride + 0);
        assert(ti == q * 3 + 0);
        assert(channel(s.img, s.stride, p, 0) as int == colour_channel(a, 0));
        assert(channel(s.img, s.stride, p, 1) as int == colour_channel(a, 1));
        assert(channel(s.img, s.stride, p, 2) as int == colour_channel(a, 2));
        assert(channel(s.tpl, 3, q, 0) as int == colour_channel(b, 0));
        assert(channel(s.tpl, 3, q, 1) as int == colour_channel(b, 1));
        assert(channel(s.tpl, 3, q, 2) as int == colour_channel(b, 2));
        assert(s.img[ii] == a.0 && s.img[ii + 1] == a.1 && s.img[ii + 2] == a.2);
        assert(s.tpl[ti] == b.0 && s.tpl[ti + 1] == b.1 && s.tpl[ti + 2] == b.2);
    }
}

proof fn lemma_uniform_row(s: Scan, a: (u8, u8, u8), b: (u8, u8, u8), x: int, y: int, ty: int, n: int)
    requires
        uniform(s.img, s.stride, a),
        uniform(s.tpl, 3, b),
    ensures
        row_sad(s, x, y, ty, n) == colour_distance(a, b) * row_cnt(s, x, y, ty, n),
    decreases n,
{
    if n > 0 {
        lemma_uniform_row(s, a, b, x, y, ty, n - 1);
        lemma_uniform_pixel(s, a, b, x, y, n - 1, ty);
        let d = colour_distance(a, b);
        let c = row_cnt(s, x, y, ty, n - 1);
        assert(d * c + d == d * (c + 1)) by (nonlinear_arith);
    }
}

proof fn lemma_uniform_sums(s: Scan, a: (u8, u8, u8), b: (u8, u8, u8), x: int, y: int, m: int)
    requires
        uniform(s.img, s.stride, a),
        uniform(s.tpl, 3, b),
    ensures
        sad(s, x, y, m) == colour_distance(a, b) * cnt(s, x, y, m),
    decreases m,
{
    if m > 0 {
        lemma_uniform_sums(s, a, b, x, y, m - 1);
        lemma_uniform_row(s, a, b, x, y, m - 1, s.tw);
        let d = colour_distance(a, b);
        let c1 = cnt(s, x, y, m - 1);
        let c2 = row_cnt(s, x, y, m - 1, s.tw);
        assert(d * c1 + d * c2 == d * (c1 + c2)) by (nonlinear_arith);
    }
}

/// A uniform image and a uniform template: every window in which the template's
/// top-left pixel is sampled scores exactly the distance between the two colours.
pub proof fn lemma_uniform_score(s: Scan, a: (u8, u8, u8), b: (u8, u8, u8), x: int, y: int)
    requires
        uniform(s.img, s.stride, a),
        uniform(s.tpl, 3, b),
        sampled(s, x, y, 0, 0),
        s.tw >= 1,
        s.th >= 1,
    ensures
        score(s, x, y) == colour_distance(a, b),
{
    lemma_uniform_sums(s, a, b, x, y, s.th);
    lemma_row_mono(s, x, y, 0, 1, s.tw);
    lemma_cnt_mono(s, x, y, 1, s.th);
    assert(row_cnt(s, x, y, 0, 0) == 0);
    assert(row_cnt(s, x, y, 0, 1) == row_cnt(s, x, y, 0, 0) + 1);
    assert(cnt(s, x, y, 0) == 0);
    assert(cnt(s, x, y, 1) == cnt(s, x, y, 0) + row_cnt(s, x, y, 0, s.tw));
    let c = cnt(s, x, y, s.th);
    let d = colour_distance(a, b);
    assert(c >= 1);
    vstd::arithmetic::div_mod::lemma_div_multiples_vanish(d, c);
    assert(d * c == c * d) by (nonlinear_arith);
}

} // verus!
