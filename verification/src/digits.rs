//! Reading the quantity printed above the purchase slider: a 120 x 35 strip of the
//! screen is searched for each digit template, and the digits found are read left
//! to right.
use vstd::prelude::*;
use crate::matching::{Scan, mk_scan, scan_result, scan_first, found_view, scanner_ok, lemma_scan_result_in_scan};
use crate::recognize::{inset, lemma_empty_scan};
use crate::templates::{TemplateStore, TemplateView, lookup, BASE_H};

verus! {

/// The five probe points of a digit template: four inset corners and the centre.
pub open spec fn digit_points(tw: int, th: int) -> Seq<(usize, usize)> {
    let ix = inset(tw);
    let iy = inset(th);
    seq![
        (ix as usize, iy as usize),
        ((tw - 1 - ix) as usize, iy as usize),
        (ix as usize, (th - 1 - iy) as usize),
        ((tw - 1 - ix) as usize, (th - 1 - iy) as usize),
        ((tw / 2) as usize, (th / 2) as usize),
    ]
}

/// The scan of a digit template over a `sw` x `sh` RGBA strip from column `start_x`.
pub open spec fn digit_scan(sub: Seq<u8>, sw: int, sh: int, tpl: Seq<u8>, tw: int, th: int, threshold: int, start_x: int) -> Scan {
    mk_scan(sub, sw, 4, tpl, tw, th, threshold, 1, digit_points(tw, th), start_x, sw - tw, sh - th)
}

/// The result of `find_digit_in_subimage`.
pub open spec fn spec_find_digit(sub: Seq<u8>, sw: int, sh: int, tpl: Seq<u8>, tw: int, th: int, threshold: int, start_x: int) -> Option<(int, int, int)> {
    if tw > sw || th > sh {
        None
    } else {
        scan_result(digit_scan(sub, sw, sh, tpl, tw, th, threshold, start_x))
    }
}

/// The digit scan visits at least one window.
pub open spec fn digit_visits(sw: int, sh: int, tw: int, th: int, start_x: int) -> bool {
    tw <= sw && th <= sh && sh - th > 0 && start_x < sw - tw
}

/// Finds the first window, row by row and from column `start_x` on, where the RGB
/// digit template matches the RGBA strip; out-of-range pixels take no part.
pub fn find_digit_in_subimage(
    sub_rgba: &[u8],
    sub_w: usize,
    sub_h: usize,
    tpl_rgb: &[u8],
    tpl_w: usize,
    tpl_h: usize,
    threshold: u32,
    start_x: usize,
) -> (r: Option<(usize, usize, u32)>)
    requires
        digit_visits(sub_w as int, sub_h as int, tpl_w as int, tpl_h as int, start_x as int) ==> {
            &&& tpl_w >= 2 && tpl_h >= 2
            &&& 2 * threshold <= u32::MAX
            &&& tpl_w * tpl_h * 255 <= u64::MAX
            &&& tpl_w * tpl_h * 3 <= usize::MAX
            &&& sub_h * sub_w * 4 <= usize::MAX
        },
    ensures
        found_view(r) == spec_find_digit(sub_rgba@, sub_w as int, sub_h as int, tpl_rgb@, tpl_w as int, tpl_h as int, threshold as int, start_x as int),
{
    if tpl_w > sub_w || tpl_h > sub_h {
        return None;
    }
    let ghost s = digit_scan(sub_rgba@, sub_w as int, sub_h as int, tpl_rgb@, tpl_w as int, tpl_h as int, threshold as int, start_x as int);
    if sub_h - tpl_h == 0 || start_x >= sub_w - tpl_w {
        proof {
            lemma_empty_scan(s);
        }
        return None;
    }
    proof {
        assert(tpl_w + 2 <= tpl_w * tpl_h * 3 && tpl_h + 2 <= tpl_w * tpl_h * 3) by (nonlinear_arith)
            requires
                tpl_w >= 2,
                tpl_h >= 2,
        ;
    }
    let ix = if tpl_w / 6 >= 1 { tpl_w / 6 } else { 1 };
    let iy = if tpl_h / 6 >= 1 { tpl_h / 6 } else { 1 };
    let mut points: Vec<(usize, usize)> = Vec::new();
    points.push((ix, iy));
    points.push((tpl_w - 1 - ix, iy));
    points.push((ix, tpl_h - 1 - iy));
    points.push((tpl_w - 1 - ix, tpl_h - 1 - iy));
    points.push((tpl_w / 2, tpl_h / 2));
    proof {
        assert(points@ =~= digit_points(tpl_w as int, tpl_h as int));
        assert(forall|k: int| 0 <= k < 5 ==> (#[trigger] points@[k]).0 < tpl_w && points@[k].1 < tpl_h);
        assert(scanner_ok(s));
    }
    scan_first(sub_rgba, sub_w, 4, tpl_rgb, tpl_w, tpl_h, threshold, 1, points.as_slice(), start_x, sub_w - tpl_w, sub_h - tpl_h)
}

/// Row offset of the strip's top above the slider.
pub open spec fn strip_top(slider_y: int) -> int {
    if slider_y >= 45 { slider_y - 45 } else { 0 }
}

/// Row offset of the strip's bottom (exclusive) above the slider.
pub open spec fn strip_bottom(slider_y: int) -> int {
    if slider_y >= 10 { slider_y - 10 } else { 0 }
}

/// Height of the strip above the slider.
pub open spec fn strip_height(slider_y: int) -> int {
    strip_bottom(slider_y) - strip_top(slider_y)
}

/// Byte `i` of the 120-pixel-wide RGBA strip whose top row is screen row `min_y`:
/// a strip row is copied from columns 420..540 of its screen row when that row lies
/// on the 960 x 540 screen and inside the buffer, and is zero otherwise.
pub open spec fn strip_byte(screen: Seq<u8>, min_y: int, i: int) -> u8 {
    let y = i / 480;
    let c = i % 480;
    let sy = min_y + y;
    let src = (sy * 960 + 420) * 4;
    if sy < 540 && src + 480 <= screen.len() {
        screen[src + c]
    } else {
        0
    }
}

/// The strip of `sub_h` rows above the slider.
pub open spec fn strip(screen: Seq<u8>, min_y: int, sub_h: int) -> Seq<u8> {
    Seq::new((480 * sub_h) as nat, |i: int| strip_byte(screen, min_y, i))
}

/// Copies the 120 x `sub_h` strip whose top row is screen row `min_y`.
fn extract_strip(screen_rgba: &[u8], min_y: usize, sub_h: usize) -> (r: Vec<u8>)
    requires
        sub_h <= 35,
        min_y + sub_h <= usize::MAX,
    ensures
        r@ == strip(screen_rgba@, min_y as int, sub_h as int),
{
    let n = 480 * sub_h;
    let mut out: Vec<u8> = vec![0u8; n];
    let len = screen_rgba.len();
    let mut y: usize = 0;
    while y < sub_h
        invariant
            sub_h <= 35,
            n == 480 * sub_h,
            min_y + sub_h <= usize::MAX,
            len == screen_rgba@.len(),
            y <= sub_h,
            out@.len() == n,
            forall|i: int|
                0 <= i < n ==> #[trigger] out@[i] == if i / 480 < y {
                    strip_byte(screen_rgba@, min_y as int, i)
                } else {
                    0u8
                },
        decreases sub_h - y,
    {
        let sy = min_y + y;
        if sy < BASE_H as usize {
            let src = (sy * 960 + 420) * 4;
            if src + 480 <= len {
                let mut c: usize = 0;
                while c < 480
                    invariant
                        sub_h <= 35,
                        n == 480 * sub_h,
                        len == screen_rgba@.len(),
                        y < sub_h,
                        sy == min_y + y,
                        sy < 540,
                        src == (sy * 960 + 420) * 4,
                        src + 480 <= len,
                        c <= 480,
                        out@.len() == n,
                        forall|i: int|
                            0 <= i < n ==> #[trigger] out@[i] == if i / 480 < y || (i / 480 == y && i % 480 < c) {
                                strip_byte(screen_rgba@, min_y as int, i)
                            } else {
                                0u8
                            },
                    decreases 480 - c,
                {
                    let d = y * 480 + c;
                    proof {
                        vstd::arithmetic::div_mod::lemma_fundamental_div_mod_converse(d as int, 480, y as int, c as int);
                    }
                    out.set(d, screen_rgba[src + c]);
                    proof {
                        assert forall|i: int| 0 <= i < n implies #[trigger] out@[i] == if i / 480 < y || (i / 480 == y && i % 480 < c + 1) {
                            strip_byte(screen_rgba@, min_y as int, i)
                        } else {
                            0u8
                        } by {
                            if i != d {
                                if i / 480 == y && i % 480 == c {
                                    vstd::arithmetic::div_mod::lemma_fundamental_div_mod(i, 480);
                                }
                            }
                        }
                    }
                    c = c + 1;
                }
                proof {
                    assert forall|i: int| 0 <= i < n implies #[trigger] out@[i] == if i / 480 < y + 1 {
                        strip_byte(screen_rgba@, min_y as int, i)
                    } else {
                        0u8
                    } by {
                        vstd::arithmetic::div_mod::lemma_fundamental_div_mod(i, 480);
                    }
                }
            } else {
                proof {
                    assert forall|i: int| 0 <= i < n implies #[trigger] out@[i] == if i / 480 < y + 1 {
                        strip_byte(screen_rgba@, min_y as int, i)
                    } else {
                        0u8
                    } by {
                        vstd::arithmetic::div_mod::lemma_fundamental_div_mod(i, 480);
                    }
                }
            }
        } else {
            proof {
                assert forall|i: int| 0 <= i < n implies #[trigger] out@[i] == if i / 480 < y + 1 {
                    strip_byte(screen_rgba@, min_y as int, i)
                } else {
                    0u8
                } by {
                    vstd::arithmetic::div_mod::lemma_fundamental_div_mod(i, 480);
                }
            }
        }
        y = y + 1;
    }
    proof {
        assert forall|i: int| 0 <= i < n implies #[trigger] out@[i] == strip_byte(screen_rgba@, min_y as int, i) by {
            assert(i / 480 < sub_h) by (nonlinear_arith)
                requires
                    0 <= i < 480 * sub_h,
            ;
        }
    }
    assert(out@ =~= strip(screen_rgba@, min_y as int, sub_h as int));
    out
}

} // verus!

verus! {

/// The key `seeds/digits/<d>.png` of the template of digit `d`.
pub open spec fn digit_key(d: int) -> Seq<char> {
    seq!['s', 'e', 'e', 'd', 's', '/', 'd', 'i', 'g', 'i', 't', 's', '/']
        + seq![crate::text::digit_char(d)] + seq!['.', 'p', 'n', 'g']
}

/// The threshold of the digit search.
pub open spec fn digit_threshold() -> int {
    24
}

/// The strip columns at which the template `tv` is found, scanning from `start_x` and
/// resuming one template width past each find.
pub open spec fn digit_hits(sub: Seq<u8>, sh: int, tv: TemplateView, start_x: int) -> Seq<int>
    decreases 121 - start_x,
{
    if start_x < 0 || start_x + tv.width > 120 || start_x > 120 {
        seq![]
    } else {
        match spec_find_digit(sub, 120, sh, tv.data, tv.width as int, tv.height as int, digit_threshold(), start_x) {
            Some(f) => {
                proof {
                    lemma_scan_result_in_scan(
                        digit_scan(sub, 120, sh, tv.data, tv.width as int, tv.height as int, digit_threshold(), start_x),
                    );
                }
                let next = f.0 + if tv.width >= 1 { tv.width as int } else { 1 };
                seq![f.0] + digit_hits(sub, sh, tv, next)
            },
            None => seq![],
        }
    }
}

/// The (screen column, digit) pairs found for the digits `d < n`, digit by digit.
pub open spec fn found_digits(e: Seq<(Seq<char>, TemplateView)>, sub: Seq<u8>, sh: int, n: int) -> Seq<(int, int)>
    decreases n,
{
    if n <= 0 {
        seq![]
    } else {
        found_digits(e, sub, sh, n - 1) + match lookup(e, digit_key(n - 1)) {
            Some(tv) => tag_hits(digit_hits(sub, sh, tv, 0), n - 1),
            None => seq![],
        }
    }
}

/// The (screen column, digit) pairs of digit `d` found at strip columns `hits`.
pub open spec fn tag_hits(hits: Seq<int>, d: int) -> Seq<(int, int)> {
    hits.map_values(|x: int| (420 + x, d))
}

/// Left-to-right order of found digits: by column, then by digit.
pub open spec fn pair_leq(a: (int, int), b: (int, int)) -> bool {
    a.0 < b.0 || (a.0 == b.0 && a.1 <= b.1)
}

/// The number whose decimal digits are the digits of `s`, in order.
pub open spec fn digits_value(s: Seq<(int, int)>) -> int
    decreases s.len(),
{
    if s.len() == 0 {
        0
    } else {
        digits_value(s.drop_last()) * 10 + s.last().1
    }
}

/// The reading order as a relation.
pub open spec fn pair_order() -> spec_fn((int, int), (int, int)) -> bool {
    |a: (int, int), b: (int, int)| pair_leq(a, b)
}

/// The digits found in the strip above the slider at `slider_y`, in reading order.
pub open spec fn reading(e: Seq<(Seq<char>, TemplateView)>, screen: Seq<u8>, slider_y: int) -> Seq<(int, int)> {
    let sh = strip_height(slider_y);
    found_digits(e, strip(screen, strip_top(slider_y), sh), sh, 10).sort_by(pair_order())
}

/// The quantity read above the slider at `slider_y`: `None` where the strip is empty
/// or no digit is found.
pub open spec fn spec_recognize_number(e: Seq<(Seq<char>, TemplateView)>, screen: Seq<u8>, slider_y: int) -> Option<int> {
    if strip_height(slider_y) == 0 {
        None
    } else if reading(e, screen, slider_y).len() == 0 {
        None
    } else {
        Some(digits_value(reading(e, screen, slider_y)))
    }
}

/// A digit template is scanned only where it is at least 2 x 2 pixels.
pub open spec fn digit_template_ok(tv: TemplateView, sh: int) -> bool {
    (tv.width < 120 && tv.height < sh) ==> (tv.width >= 2 && tv.height >= 2)
}

/// The key of the template of digit `d`.
pub fn digit_key_string(d: u32) -> (r: String)
    requires
        d < 10,
    ensures
        r@ == digit_key(d as int),
{
    let c = if d == 0 { '0' } else if d == 1 { '1' } else if d == 2 { '2' } else if d == 3 { '3' }
        else if d == 4 { '4' } else if d == 5 { '5' } else if d == 6 { '6' } else if d == 7 { '7' }
        else if d == 8 { '8' } else { '9' };
    let cs: [char; 18] = ['s', 'e', 'e', 'd', 's', '/', 'd', 'i', 'g', 'i', 't', 's', '/', c, '.', 'p', 'n', 'g'];
    let r = crate::text::string_from_chars(&cs);
    assert(r@ =~= digit_key(d as int));
    r
}

proof fn lemma_pair_order_total()
    ensures
        vstd::relations::total_ordering(pair_order()),
{
}

} // verus!

verus! {

/// Appends `(420 + x, d)` for each strip column `x` at which the digit template is found.
fn collect_hits(
    sub: &[u8],
    sh: usize,
    tv: &crate::templates::CachedTemplate,
    d: u32,
    out: &mut Vec<(usize, u32)>,
)
    requires
        sh <= 35,
        sub@.len() == 480 * sh,
        digit_template_ok(tv.tview(), sh as int),
    ensures
        pairs_view(final(out)@) == pairs_view(old(out)@) + tag_hits(digit_hits(sub@, sh as int, tv.tview(), 0), d as int),
{
    let (w, h) = tv.dimensions;
    let tw = w as usize;
    let th = h as usize;
    let data: &Vec<u8> = &*tv.data;
    let ghost tvv = tv.tview();
    let ghost base = pairs_view(out@);
    let ghost mut done: Seq<int> = seq![];
    let mut start_x: usize = 0;
    while (start_x as u64) + (w as u64) <= 120
        invariant
            sh <= 35,
            sub@.len() == 480 * sh,
            digit_template_ok(tvv, sh as int),
            tvv == tv.tview(),
            tw == tvv.width,
            th == tvv.height,
            data@ == tvv.data,
            start_x <= 120,
            w == tvv.width,
            digit_hits(sub@, sh as int, tvv, 0) == done + digit_hits(sub@, sh as int, tvv, start_x as int),
            pairs_view(out@) == base + tag_hits(done, d as int),
        ensures
            digit_hits(sub@, sh as int, tvv, 0) == done,
            pairs_view(out@) == base + tag_hits(done, d as int),
        decreases 121 - start_x,
    {
        proof {
            if digit_visits(120, sh as int, tw as int, th as int, start_x as int) {
                assert(tw * th * 255 <= u64::MAX && tw * th * 3 <= usize::MAX) by (nonlinear_arith)
                    requires
                        tw < 120,
                        th < 35,
                ;
            }
        }
        let f = find_digit_in_subimage(sub, 120, sh, data.as_slice(), tw, th, 24, start_x);
        match f {
            Some((fx, _fy, _score)) => {
                proof {
                    lemma_scan_result_in_scan(
                        digit_scan(sub@, 120, sh as int, tvv.data, tw as int, th as int, 24, start_x as int),
                    );
                }
                let step = if tw >= 1 { tw } else { 1 };
                let ghost old_out = pairs_view(out@);
                out.push((420 + fx, d));
                proof {
                    let next = fx + step;
                    assert(digit_hits(sub@, sh as int, tvv, start_x as int) == seq![fx as int] + digit_hits(sub@, sh as int, tvv, next));
                    let nd = done.push(fx as int);
                    assert(done + digit_hits(sub@, sh as int, tvv, start_x as int) =~= nd + digit_hits(sub@, sh as int, tvv, next));
                    assert(pairs_view(out@) =~= old_out.push((420 + fx as int, d as int)));
                    assert(tag_hits(nd, d as int) =~= tag_hits(done, d as int).push((420 + fx as int, d as int)));
                    done = nd;
                }
                start_x = fx + step;
                if start_x > 120 {
                    proof {
                        assert(digit_hits(sub@, sh as int, tvv, start_x as int) =~= seq![]);
                        assert(done + seq![] =~= done);
                    }
                    break;
                }
            },
            None => {
                proof {
                    assert(digit_hits(sub@, sh as int, tvv, start_x as int) =~= seq![]);
                    assert(done + seq![] =~= done);
                }
                break;
            },
        }
    }
}

/// The view of found (column, digit) pairs.
pub open spec fn pairs_view(v: Seq<(usize, u32)>) -> Seq<(int, int)> {
    v.map_values(|p: (usize, u32)| (p.0 as int, p.1 as int))
}

} // verus!

verus! {

/// Inserts `p` into the reading-ordered `v`, keeping it in reading order.
fn insert_in_order(v: &mut Vec<(usize, u32)>, p: (usize, u32))
    requires
        vstd::relations::sorted_by(pairs_view(old(v)@), pair_order()),
    ensures
        vstd::relations::sorted_by(pairs_view(final(v)@), pair_order()),
        pairs_view(final(v)@).to_multiset() == pairs_view(old(v)@).to_multiset().insert((p.0 as int, p.1 as int)),
{
    let ghost pv = (p.0 as int, p.1 as int);
    let ghost old_v = pairs_view(v@);
    let mut j: usize = 0;
    while j < v.len()
        invariant
            j <= v@.len(),
            old_v == pairs_view(v@),
            pv == (p.0 as int, p.1 as int),
            vstd::relations::sorted_by(old_v, pair_order()),
            forall|k: int| 0 <= k < j ==> pair_leq(#[trigger] old_v[k], pv),
        ensures
            j <= v@.len(),
            old_v == pairs_view(v@),
            forall|k: int| 0 <= k < j ==> pair_leq(#[trigger] old_v[k], pv),
            j < v@.len() ==> pair_leq(pv, old_v[j as int]) && pv != old_v[j as int],
        decreases v@.len() - j,
    {
        let q = v[j];
        assert(old_v[j as int] == (q.0 as int, q.1 as int));
        if p.0 < q.0 || (p.0 == q.0 && p.1 < q.1) {
            assert(pair_leq(pv, old_v[j as int]) && pv != old_v[j as int]);
            break;
        }
        assert(pair_leq(old_v[j as int], pv));
        j = j + 1;
    }
    let ghost jj = j as int;
    proof {
        assert forall|k: int| jj <= k < old_v.len() implies pair_leq(pv, #[trigger] old_v[k]) && pv != old_v[k] by {
            if k > jj {
                assert((pair_order())(old_v[jj], old_v[k]));
            }
        }
    }
    v.insert(j, p);
    proof {
        let nv = pairs_view(v@);
        assert(nv =~= old_v.insert(jj, pv));
        vstd::seq_lib::to_multiset_insert(old_v, jj, pv);
        assert forall|a: int, b: int| 0 <= a < b < nv.len() implies #[trigger] (pair_order())(nv[a], nv[b]) by {
            if b < jj {
                assert((pair_order())(old_v[a], old_v[b]));
            } else if b == jj {
                assert(pair_leq(old_v[a], pv));
            } else if a < jj {
                assert(pair_leq(old_v[a], pv));
                assert(pair_leq(pv, old_v[b - 1]));
            } else if a == jj {
                assert(pair_leq(pv, old_v[b - 1]));
            } else {
                assert((pair_order())(old_v[a - 1], old_v[b - 1]));
            }
        }
    }
}

/// Every prefix of a digit sequence reads as a number no larger than the whole.
proof fn lemma_value_prefix(s: Seq<(int, int)>, k: int)
    requires
        0 <= k <= s.len(),
        forall|i: int| 0 <= i < s.len() ==> 0 <= #[trigger] s[i].1,
    ensures
        0 <= digits_value(s.subrange(0, k)) <= digits_value(s),
    decreases s.len() - k,
{
    if k < s.len() {
        lemma_value_prefix(s, k + 1);
        assert(s.subrange(0, k + 1).drop_last() =~= s.subrange(0, k));
        lemma_value_nonneg(s.subrange(0, k));
        let v = digits_value(s.subrange(0, k));
        assert(v <= v * 10 + s[k].1) by (nonlinear_arith)
            requires
                v >= 0,
                s[k].1 >= 0,
        ;
    } else {
        assert(s.subrange(0, k) =~= s);
        lemma_value_nonneg(s);
    }
}

proof fn lemma_value_nonneg(s: Seq<(int, int)>)
    requires
        forall|i: int| 0 <= i < s.len() ==> 0 <= #[trigger] s[i].1,
    ensures
        0 <= digits_value(s),
    decreases s.len(),
{
    if s.len() > 0 {
        lemma_value_nonneg(s.drop_last());
    }
}

/// The digits found in the strip above the slider at row `slider_y`, in reading order.
fn read_digits(screen_rgba: &[u8], templates: &TemplateStore, slider_y: usize) -> (r: Vec<(usize, u32)>)
    requires
        forall|d: int|
            0 <= d < 10 ==> (lookup(templates@, #[trigger] digit_key(d)) matches Some(tv) ==> digit_template_ok(
                tv,
                strip_height(slider_y as int),
            )),
        strip_height(slider_y as int) > 0,
    ensures
        pairs_view(r@) == reading(templates@, screen_rgba@, slider_y as int),
        forall|k: int| 0 <= k < r@.len() ==> 0 <= #[trigger] pairs_view(r@)[k].1 < 10,
{
    let min_y = if slider_y >= 45 { slider_y - 45 } else { 0 };
    let max_y = if slider_y >= 10 { slider_y - 10 } else { 0 };
    let sub_h = if max_y >= min_y { max_y - min_y } else { 0 };
    assert(sub_h == strip_height(slider_y as int));
    let sub = extract_strip(screen_rgba, min_y, sub_h);
    let ghost e = templates@;
    let ghost sv = sub@;
    let mut found: Vec<(usize, u32)> = Vec::new();
    let mut digit: u32 = 0;
    while digit < 10
        invariant
            digit <= 10,
            e == templates@,
            sv == sub@,
            sub_h == strip_height(slider_y as int),
            sub_h <= 35,
            sub@.len() == 480 * sub_h,
            forall|d: int|
                0 <= d < 10 ==> (lookup(e, #[trigger] digit_key(d)) matches Some(tv) ==> digit_template_ok(
                    tv,
                    sub_h as int,
                )),
            pairs_view(found@) == found_digits(e, sv, sub_h as int, digit as int),
            forall|i: int| 0 <= i < found@.len() ==> (#[trigger] found@[i]).1 < 10,
        decreases 10 - digit,
    {
        let key = digit_key_string(digit);
        let ghost before = pairs_view(found@);
        match templates.get(key.as_str()) {
            Some(t) => {
                assert(lookup(e, digit_key(digit as int)) == Some(t.tview()));
                collect_hits(sub.as_slice(), sub_h, t, digit, &mut found);
                proof {
                    let hits = digit_hits(sv, sub_h as int, t.tview(), 0);
                    let added = tag_hits(hits, digit as int);
                    assert(pairs_view(found@) == before + added);
                    assert forall|i: int| 0 <= i < found@.len() implies (#[trigger] found@[i]).1 < 10 by {
                        assert(pairs_view(found@)[i] == (found@[i].0 as int, found@[i].1 as int));
                        if i >= before.len() {
                            assert((before + added)[i] == added[i - before.len()]);
                            assert(pairs_view(found@)[i] == added[i - before.len()]);
                            assert(added[i - before.len()].1 == digit);
                        } else {
                            assert(pairs_view(found@)[i] == before[i]);
                        }
                    }
                }
            },
            None => {
                assert(found_digits(e, sv, sub_h as int, digit as int + 1) =~= found_digits(e, sv, sub_h as int, digit as int));
            },
        }
        digit = digit + 1;
    }
    let mut sorted: Vec<(usize, u32)> = Vec::new();
    let mut i: usize = 0;
    assert(pairs_view(sorted@) =~= pairs_view(found@).subrange(0, 0));
    while i < found.len()
        invariant
            i <= found@.len(),
            vstd::relations::sorted_by(pairs_view(sorted@), pair_order()),
            pairs_view(sorted@).to_multiset() == pairs_view(found@).subrange(0, i as int).to_multiset(),
            forall|k: int| 0 <= k < sorted@.len() ==> (#[trigger] sorted@[k]).1 < 10,
            forall|k: int| 0 <= k < found@.len() ==> (#[trigger] found@[k]).1 < 10,
        decreases found@.len() - i,
    {
        let ghost before = pairs_view(sorted@);
        insert_in_order(&mut sorted, found[i]);
        proof {
            let fv = pairs_view(found@);
            assert(fv.subrange(0, i as int + 1) =~= fv.subrange(0, i as int).push(fv[i as int]));
            vstd::seq_lib::to_multiset_build(fv.subrange(0, i as int), fv[i as int]);
            assert forall|k: int| 0 <= k < sorted@.len() implies (#[trigger] sorted@[k]).1 < 10 by {
                let sv2 = pairs_view(sorted@);
                assert(sv2.to_multiset().count(sv2[k]) > 0) by {
                    vstd::seq_lib::to_multiset_contains(sv2, sv2[k]);
                    assert(sv2.contains(sv2[k]));
                }
                if sv2[k] != (found@[i as int].0 as int, found@[i as int].1 as int) {
                    assert(before.to_multiset().count(sv2[k]) > 0);
                    vstd::seq_lib::to_multiset_contains(before, sv2[k]);
                    let m = choose|m: int| 0 <= m < before.len() && before[m] == sv2[k];
                    assert(sorted@[k].1 as int == before[m].1);
                }
            }
        }
        i = i + 1;
    }
    let ghost fsorted = pairs_view(sorted@);
    proof {
        let f = found_digits(e, sv, sub_h as int, 10);
        assert(pairs_view(found@).subrange(0, found@.len() as int) =~= f);
        lemma_pair_order_total();
        f.lemma_sort_by_ensures(pair_order());
        vstd::seq_lib::lemma_sorted_unique(fsorted, f.sort_by(pair_order()), pair_order());
        assert(fsorted =~= reading(e, screen_rgba@, slider_y as int));
        fsorted.to_multiset_ensures();
        pairs_view(found@).to_multiset_ensures();
        assert forall|k: int| 0 <= k < fsorted.len() implies 0 <= #[trigger] fsorted[k].1 by {}
    }
    sorted
}

/// Reads the quantity printed above the purchase slider whose centre row is
/// `slider_y`: finds every occurrence of each digit template in the 120 x 35 strip
/// above it and reads the digits found from left to right.
pub fn recognize_number_above_slider(
    screen_rgba: &[u8],
    templates: &TemplateStore,
    slider_y: usize,
) -> (r: Option<u32>)
    requires
        forall|d: int|
            0 <= d < 10 ==> (lookup(templates@, #[trigger] digit_key(d)) matches Some(tv) ==> digit_template_ok(
                tv,
                strip_height(slider_y as int),
            )),
        spec_recognize_number(templates@, screen_rgba@, slider_y as int) matches Some(v) ==> v <= u32::MAX,
    ensures
        match r {
            Some(v) => spec_recognize_number(templates@, screen_rgba@, slider_y as int) == Some(v as int),
            None => spec_recognize_number(templates@, screen_rgba@, slider_y as int) is None,
        },
{
    let min_y = if slider_y >= 45 { slider_y - 45 } else { 0 };
    let max_y = if slider_y >= 10 { slider_y - 10 } else { 0 };
    if max_y <= min_y {
        return None;
    }
    let sorted = read_digits(screen_rgba, templates, slider_y);
    if sorted.len() == 0 {
        return None;
    }
    let ghost fsorted = pairs_view(sorted@);
    assert(spec_recognize_number(templates@, screen_rgba@, slider_y as int) == Some(digits_value(fsorted)));
    let mut number: u32 = 0;
    let mut k: usize = 0;
    while k < sorted.len()
        invariant
            k <= sorted@.len(),
            fsorted == pairs_view(sorted@),
            digits_value(fsorted) <= u32::MAX,
            forall|m: int| 0 <= m < fsorted.len() ==> 0 <= #[trigger] fsorted[m].1 < 10,
            number == digits_value(fsorted.subrange(0, k as int)),
        decreases sorted@.len() - k,
    {
        proof {
            lemma_value_prefix(fsorted, k as int + 1);
            assert(fsorted.subrange(0, k as int + 1).drop_last() =~= fsorted.subrange(0, k as int));
            assert(fsorted.subrange(0, k as int + 1).last() == fsorted[k as int]);
        }
        number = number * 10 + sorted[k].1;
        k = k + 1;
    }
    proof {
        assert(fsorted.subrange(0, fsorted.len() as int) =~= fsorted);
    }
    Some(number)
}

/// Whether the quantity above the slider at row `slider_y`, where one is read, fits
/// in a `u32`.
pub fn quantity_fits(screen_rgba: &[u8], templates: &TemplateStore, slider_y: usize) -> (r: bool)
    requires
        forall|d: int|
            0 <= d < 10 ==> (lookup(templates@, #[trigger] digit_key(d)) matches Some(tv) ==> digit_template_ok(
                tv,
                strip_height(slider_y as int),
            )),
    ensures
        r == (spec_recognize_number(templates@, screen_rgba@, slider_y as int) matches Some(v) ==> v <= u32::MAX),
{
    let min_y = if slider_y >= 45 { slider_y - 45 } else { 0 };
    let max_y = if slider_y >= 10 { slider_y - 10 } else { 0 };
    if max_y <= min_y {
        return true;
    }
    let sorted = read_digits(screen_rgba, templates, slider_y);
    let ghost fsorted = pairs_view(sorted@);
    let mut number: u64 = 0;
    let mut k: usize = 0;
    while k < sorted.len()
        invariant
            k <= sorted@.len(),
            fsorted == pairs_view(sorted@),
            fsorted == reading(templates@, screen_rgba@, slider_y as int),
            strip_height(slider_y as int) > 0,
            forall|m: int| 0 <= m < fsorted.len() ==> 0 <= #[trigger] fsorted[m].1 < 10,
            number == digits_value(fsorted.subrange(0, k as int)),
            number <= u32::MAX,
        decreases sorted@.len() - k,
    {
        proof {
            assert(fsorted.subrange(0, k as int + 1).drop_last() =~= fsorted.subrange(0, k as int));
            assert(fsorted.subrange(0, k as int + 1).last() == fsorted[k as int]);
            assert(fsorted[k as int].1 == sorted@[k as int].1 as int);
        }
        number = number * 10 + sorted[k].1 as u64;
        if number > 0xffff_ffff {
            proof {
                assert(number == digits_value(fsorted.subrange(0, k as int + 1)));
                lemma_value_prefix(fsorted, k as int + 1);
                assert(fsorted.subrange(0, fsorted.len() as int) =~= fsorted);
                assert(strip_height(slider_y as int) > 0);
                assert(spec_recognize_number(templates@, screen_rgba@, slider_y as int) == Some(digits_value(fsorted)));
            }
            return false;
        }
        k = k + 1;
    }
    proof {
        assert(fsorted.subrange(0, fsorted.len() as int) =~= fsorted);
    }
    true
}

} // verus!

verus! {

/// Whether every digit template present can be scanned in the strip above a slider
/// at row `slider_y`.
pub fn digits_readable(templates: &TemplateStore, slider_y: usize) -> (r: bool)
    ensures
        r == forall|d: int|
            0 <= d < 10 ==> (lookup(templates@, #[trigger] digit_key(d)) matches Some(tv) ==> digit_template_ok(
                tv,
                strip_height(slider_y as int),
            )),
{
    let min_y = if slider_y >= 45 { slider_y - 45 } else { 0 };
    let max_y = if slider_y >= 10 { slider_y - 10 } else { 0 };
    let sh = if max_y >= min_y { max_y - min_y } else { 0 };
    assert(sh == strip_height(slider_y as int));
    let mut d: u32 = 0;
    while d < 10
        invariant
            d <= 10,
            sh == strip_height(slider_y as int),
            forall|k: int|
                0 <= k < d ==> (lookup(templates@, #[trigger] digit_key(k)) matches Some(tv) ==> digit_template_ok(
                    tv,
                    sh as int,
                )),
        decreases 10 - d,
    {
        let key = digit_key_string(d);
        match templates.get(key.as_str()) {
            Some(t) => {
                let (w, h) = t.dimensions;
                if (w as usize) < 120 && (h as usize) < sh && !(w >= 2 && h >= 2) {
                    assert(!digit_template_ok(t.tview(), sh as int));
                    return false;
                }
            },
            None => {},
        }
        d = d + 1;
    }
    true
}

} // verus!

verus! {

/// Byte `i` of a 960-pixel-wide RGBA screen is a colour byte (not alpha) of a pixel of
/// the box the quantity is read from: columns 420 to 539 of the rows from
/// `strip_top(slider_y)` up to `strip_bottom(slider_y)`.
pub open spec fn in_digit_box(slider_y: int, i: int) -> bool {
    let p = i / 4;
    &&& i % 4 != 3
    &&& strip_top(slider_y) <= p / 960 < strip_bottom(slider_y)
    &&& 420 <= p % 960 < 540
}

/// Screens of one length that agree on the colour bytes of the box give strips that
/// differ in alpha bytes at most.
proof fn lemma_strip_colour(s1: Seq<u8>, s2: Seq<u8>, slider_y: int)
    requires
        s1.len() == s2.len(),
        forall|i: int| 0 <= i < s1.len() && #[trigger] in_digit_box(slider_y, i) ==> s1[i] == s2[i],
    ensures
        crate::matching::same_colour(
            strip(s1, strip_top(slider_y), strip_height(slider_y)),
            strip(s2, strip_top(slider_y), strip_height(slider_y)),
            4,
        ),
{
    let top = strip_top(slider_y);
    let sh = strip_height(slider_y);
    let a = strip(s1, top, sh);
    let b = strip(s2, top, sh);
    assert forall|i: int| 0 <= i < a.len() && i % 4 != 3 implies a[i] == b[i] by {
        let y = i / 480;
        let c = i % 480;
        let sy = top + y;
        let src = (sy * 960 + 420) * 4;
        if sy < 540 && src + 480 <= s1.len() {
            let j = src + c;
            vstd::arithmetic::div_mod::lemma_fundamental_div_mod(i, 480);
            vstd::arithmetic::div_mod::lemma_fundamental_div_mod(c, 4);
            assert(0 <= y < sh) by {
                vstd::arithmetic::div_mod::lemma_div_pos_is_pos(i, 480);
                vstd::arithmetic::div_mod::lemma_div_is_ordered(i, 480 * sh, 480);
                vstd::arithmetic::div_mod::lemma_div_multiples_vanish(sh, 480);
                if y == sh {
                    assert(i >= 480 * sh);
                }
            }
            assert(j == (sy * 960 + 420 + c / 4) * 4 + c % 4);
            vstd::arithmetic::div_mod::lemma_fundamental_div_mod_converse(j, 4, sy * 960 + 420 + c / 4, c % 4);
            vstd::arithmetic::div_mod::lemma_fundamental_div_mod_converse(
                sy * 960 + 420 + c / 4,
                960,
                sy,
                420 + c / 4,
            );
            assert(i == (120 * y + c / 4) * 4 + c % 4);
            vstd::arithmetic::div_mod::lemma_fundamental_div_mod_converse(i, 4, 120 * y + c / 4, c % 4);
            assert(in_digit_box(slider_y, j));
        }
    }
    crate::recognize::lemma_rgba_colour(a, b);
}

/// The columns found for a digit template agree on strips of the same colours.
proof fn lemma_hits_same(sub1: Seq<u8>, sub2: Seq<u8>, sh: int, tv: TemplateView, start_x: int)
    requires
        crate::matching::same_colour(sub1, sub2, 4),
    ensures
        digit_hits(sub1, sh, tv, start_x) == digit_hits(sub2, sh, tv, start_x),
    decreases 121 - start_x,
{
    if !(start_x < 0 || start_x + tv.width > 120 || start_x > 120) {
        let d1 = digit_scan(sub1, 120, sh, tv.data, tv.width as int, tv.height as int, digit_threshold(), start_x);
        let d2 = digit_scan(sub2, 120, sh, tv.data, tv.width as int, tv.height as int, digit_threshold(), start_x);
        crate::matching::lemma_colour_only(d1, d2);
        match spec_find_digit(sub1, 120, sh, tv.data, tv.width as int, tv.height as int, digit_threshold(), start_x) {
            Some(f) => {
                lemma_scan_result_in_scan(d1);
                let next = f.0 + if tv.width >= 1 { tv.width as int } else { 1 };
                lemma_hits_same(sub1, sub2, sh, tv, next);
            },
            None => {},
        }
    }
}

/// The digits found for `d < n` agree on strips of the same colours, with the same
/// digit templates.
proof fn lemma_found_same(
    e1: Seq<(Seq<char>, TemplateView)>,
    e2: Seq<(Seq<char>, TemplateView)>,
    sub1: Seq<u8>,
    sub2: Seq<u8>,
    sh: int,
    n: int,
)
    requires
        n <= 10,
        crate::matching::same_colour(sub1, sub2, 4),
        forall|d: int| 0 <= d < 10 ==> lookup(e1, #[trigger] digit_key(d)) == lookup(e2, digit_key(d)),
    ensures
        found_digits(e1, sub1, sh, n) == found_digits(e2, sub2, sh, n),
    decreases n,
{
    if n > 0 {
        lemma_found_same(e1, e2, sub1, sub2, sh, n - 1);
        assert(lookup(e1, digit_key(n - 1)) == lookup(e2, digit_key(n - 1)));
        match lookup(e1, digit_key(n - 1)) {
            Some(tv) => lemma_hits_same(sub1, sub2, sh, tv, 0),
            None => {},
        }
    }
}

/// Only the colour of the box above the slider and the ten digit templates affect
/// the quantity read: screens of one length that agree on the colour bytes of the
/// box, read with template sets that agree on the digit keys, give the same reading.
pub proof fn lemma_reading_depends_on_box(
    e1: Seq<(Seq<char>, TemplateView)>,
    e2: Seq<(Seq<char>, TemplateView)>,
    s1: Seq<u8>,
    s2: Seq<u8>,
    slider_y: int,
)
    requires
        s1.len() == s2.len(),
        forall|i: int| 0 <= i < s1.len() && #[trigger] in_digit_box(slider_y, i) ==> s1[i] == s2[i],
        forall|d: int| 0 <= d < 10 ==> lookup(e1, #[trigger] digit_key(d)) == lookup(e2, digit_key(d)),
    ensures
        spec_recognize_number(e1, s1, slider_y) == spec_recognize_number(e2, s2, slider_y),
{
    let top = strip_top(slider_y);
    let sh = strip_height(slider_y);
    lemma_strip_colour(s1, s2, slider_y);
    lemma_found_same(e1, e2, strip(s1, top, sh), strip(s2, top, sh), sh, 10);
    assert(reading(e1, s1, slider_y) == reading(e2, s2, slider_y));
}

} // verus!

verus! {

/// The digits found for `d < n` include those of digit `k < n`.
proof fn lemma_found_includes(e: Seq<(Seq<char>, TemplateView)>, sub: Seq<u8>, sh: int, n: int, k: int, p: (int, int))
    requires
        0 <= k < n,
        lookup(e, digit_key(k)) matches Some(tv) && tag_hits(digit_hits(sub, sh, tv, 0), k).contains(p),
    ensures
        found_digits(e, sub, sh, n).contains(p),
    decreases n,
{
    let prev = found_digits(e, sub, sh, n - 1);
    let part = match lookup(e, digit_key(n - 1)) {
        Some(tv) => tag_hits(digit_hits(sub, sh, tv, 0), n - 1),
        None => seq![],
    };
    assert(found_digits(e, sub, sh, n) == prev + part);
    if k == n - 1 {
        let j = choose|j: int| 0 <= j < part.len() && part[j] == p;
        assert((prev + part)[prev.len() + j] == p);
    } else {
        lemma_found_includes(e, sub, sh, n - 1, k, p);
        let j = choose|j: int| 0 <= j < prev.len() && prev[j] == p;
        assert((prev + part)[j] == p);
    }
}

/// Every digit from 0 to 9 whose template is stored is read where it is found: when
/// the search of the strip above the slider, from its left edge, finds the template
/// of digit `d` at strip column `c`, the reading holds digit `d` at screen column
/// `420 + c`, and a quantity is read.
pub proof fn lemma_found_digit_is_read(e: Seq<(Seq<char>, TemplateView)>, screen: Seq<u8>, slider_y: int, d: int)
    requires
        0 <= d <= 9,
        lookup(e, digit_key(d)) is Some,
        spec_find_digit(
            strip(screen, strip_top(slider_y), strip_height(slider_y)),
            120,
            strip_height(slider_y),
            lookup(e, digit_key(d)).unwrap().data,
            lookup(e, digit_key(d)).unwrap().width as int,
            lookup(e, digit_key(d)).unwrap().height as int,
            24,
            0,
        ) is Some,
    ensures
        ({
            let tv = lookup(e, digit_key(d)).unwrap();
            let sh = strip_height(slider_y);
            let f = spec_find_digit(strip(screen, strip_top(slider_y), sh), 120, sh, tv.data, tv.width as int,
                tv.height as int, 24, 0).unwrap();
            reading(e, screen, slider_y).contains((420 + f.0, d))
        }),
        spec_recognize_number(e, screen, slider_y) is Some,
{
    let tv = lookup(e, digit_key(d)).unwrap();
    let sh = strip_height(slider_y);
    let sub = strip(screen, strip_top(slider_y), sh);
    let f = spec_find_digit(sub, 120, sh, tv.data, tv.width as int, tv.height as int, 24, 0).unwrap();
    assert(tv.width <= 120);
    let hits = digit_hits(sub, sh, tv, 0);
    assert(hits[0] == f.0);
    let tagged = tag_hits(hits, d);
    assert(tagged[0] == (420 + f.0, d));
    assert(tagged.contains((420 + f.0, d)));
    lemma_found_includes(e, sub, sh, 10, d, (420 + f.0, d));
    let found = found_digits(e, sub, sh, 10);
    lemma_pair_order_total();
    found.lemma_sort_by_ensures(pair_order());
    found.to_multiset_ensures();
    found.sort_by(pair_order()).to_multiset_ensures();
    assert(reading(e, screen, slider_y) == found.sort_by(pair_order()));
    assert(found.to_multiset().count((420 + f.0, d)) > 0);
    assert(found.sort_by(pair_order()).to_multiset().count((420 + f.0, d)) > 0);
    assert(reading(e, screen, slider_y).contains((420 + f.0, d)));
    if sh == 0 {
        if tv.height as int <= sh {
            lemma_empty_scan(digit_scan(sub, 120, sh, tv.data, tv.width as int, tv.height as int, 24, 0));
        }
    }
}

/// The digits are read from left to right: along the reading, screen columns never
/// decrease, and digits found at one column come in increasing order.
pub proof fn lemma_reading_left_to_right(e: Seq<(Seq<char>, TemplateView)>, screen: Seq<u8>, slider_y: int)
    ensures
        forall|i: int, j: int|
            #![trigger reading(e, screen, slider_y)[i], reading(e, screen, slider_y)[j]]
            0 <= i < j < reading(e, screen, slider_y).len() ==> reading(e, screen, slider_y)[i].0 < reading(
                e,
                screen,
                slider_y,
            )[j].0 || (reading(e, screen, slider_y)[i].0 == reading(e, screen, slider_y)[j].0 && reading(
                e,
                screen,
                slider_y,
            )[i].1 <= reading(e, screen, slider_y)[j].1),
{
    let sh = strip_height(slider_y);
    let found = found_digits(e, strip(screen, strip_top(slider_y), sh), sh, 10);
    lemma_pair_order_total();
    found.lemma_sort_by_ensures(pair_order());
    let r = reading(e, screen, slider_y);
    assert(r == found.sort_by(pair_order()));
    assert forall|i: int, j: int| 0 <= i < j < r.len() implies r[i].0 < r[j].0 || (r[i].0 == r[j].0 && r[i].1
        <= r[j].1) by {
        assert((pair_order())(r[i], r[j]));
    }
}

} // verus!
