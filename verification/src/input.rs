//! Turning finds into clicks and swipes: which buttons are clicked three times, the
//! scaling from the 960 x 540 screen to the window's client area, and the points of
//! a swipe.
use vstd::prelude::*;
use crate::templates::{TemplateStore, first_variant_found, searchable, BASE_W, BASE_H};
use crate::utils::{Located, locate, located_matches, needs_npc_bypass, npc_bypass_needed};

verus! {

/// A click on a found button.
pub struct ClickPlan {
    pub found: Located,
    /// Click twice more, 300 ms apart, to skip the NPC dialogue that follows.
    pub repeat: bool,
}

/// Looks for button `key` (described as `name_vi`) on the screen and plans the click on
/// its centre.
pub fn plan_click(
    templates: &TemplateStore,
    screen_rgba: &[u8],
    key: &str,
    name_vi: &str,
    threshold: u32,
) -> (r: Option<ClickPlan>)
    requires
        searchable(templates@, key@, screen_rgba@.len() as int, threshold as int, None),
    ensures
        match r {
            Some(p) => {
                &&& located_matches(Some(p.found), first_variant_found(templates@, key@, screen_rgba@, threshold as int, None, 0))
                &&& p.repeat == needs_npc_bypass(key@, name_vi@)
            },
            None => first_variant_found(templates@, key@, screen_rgba@, threshold as int, None, 0) is None,
        },
{
    match locate(templates, screen_rgba, key, threshold, None) {
        Some(found) => Some(ClickPlan { found, repeat: npc_bypass_needed(key, name_vi) }),
        None => None,
    }
}

/// `v * actual / base` truncated toward zero, saturated to the `i32` range: a
/// coordinate of the 960 x 540 screen in a client area of `actual` pixels.
pub open spec fn scaled(v: int, actual: int, base: int) -> int {
    let p = v * actual;
    let q = if p >= 0 { p / base } else { -((-p) / base) };
    if q > i32::MAX { i32::MAX as int } else if q < i32::MIN { i32::MIN as int } else { q }
}

/// Scales coordinate `v` of a `base`-pixel axis to an axis of `actual` pixels.
pub fn scale_coord(v: i32, actual: u32, base: u32) -> (r: i32)
    requires
        base > 0,
    ensures
        r == scaled(v as int, actual as int, base as int),
{
    let mag: u128 = if v >= 0 { v as u128 } else { (-(v as i128)) as u128 };
    assert(mag * (actual as u128) <= 0x8000_0000u128 * 0xffff_ffffu128) by (nonlinear_arith)
        requires
            mag <= 0x8000_0000u128,
            actual <= 0xffff_ffffu32,
    ;
    let p: u128 = mag * (actual as u128);
    let q: u128 = p / (base as u128);
    proof {
        let pi = (v as int) * (actual as int);
        if v >= 0 {
            assert(pi == (mag as int) * (actual as int));
            assert(pi >= 0) by (nonlinear_arith)
                requires
                    v >= 0,
                    pi == (v as int) * (actual as int),
            ;
        } else {
            assert(-pi == (mag as int) * (actual as int)) by (nonlinear_arith)
                requires
                    mag as int == -(v as int),
                    pi == (v as int) * (actual as int),
            ;
            if actual > 0 {
                assert(pi < 0) by (nonlinear_arith)
                    requires
                        v < 0,
                        actual > 0,
                        pi == (v as int) * (actual as int),
                ;
            } else {
                assert(pi == 0);
            }
        }
    }
    if v >= 0 || actual == 0 {
        if q > (i32::MAX as u128) { i32::MAX } else { q as i32 }
    } else {
        if q > 0x8000_0000u128 { i32::MIN } else { (-(q as i128)) as i32 }
    }
}

/// A point of the 960 x 540 screen in a client area of `aw` x `ah` pixels.
pub fn to_client(x: i32, y: i32, aw: u32, ah: u32) -> (r: (i32, i32))
    ensures
        r.0 == scaled(x as int, aw as int, BASE_W as int),
        r.1 == scaled(y as int, ah as int, BASE_H as int),
{
    (scale_coord(x, aw, BASE_W), scale_coord(y, ah, BASE_H))
}

/// The number of moves of a swipe.
pub const SWIPE_STEPS: i32 = 10;

/// `a + (b - a) * i / 10`, the division truncated toward zero.
pub open spec fn swipe_coord(a: int, b: int, i: int) -> int {
    let p = (b - a) * i;
    a + if p >= 0 { p / 10 } else { -((-p) / 10) }
}

/// Coordinates whose swipe arithmetic stays in the `i32` range.
pub open spec fn swipe_fits(a: int, b: int) -> bool {
    &&& i32::MIN <= b - a && (b - a) * 10 <= i32::MAX && (b - a) * 10 >= i32::MIN
}

/// The intermediate point `i` (of 10) on the way from `a` to `b`.
fn swipe_step(a: i32, b: i32, i: i32) -> (r: i32)
    requires
        1 <= i <= 10,
        swipe_fits(a as int, b as int),
    ensures
        r == swipe_coord(a as int, b as int, i as int),
{
    let d: i64 = (b as i64) - (a as i64);
    assert(d * (i as i64) <= 10 * 0x8000_0000i64 && d * (i as i64) >= -10 * 0x8000_0000i64) by (nonlinear_arith)
        requires
            -0x8000_0000 <= d <= 0x8000_0000,
            1 <= i <= 10,
    ;
    let p: i64 = d * (i as i64);
    let off: i64 = if p >= 0 { p / 10 } else { -((-p) / 10) };
    proof {
        if d >= 0 {
            assert(0 <= p <= d * 10) by (nonlinear_arith)
                requires
                    p == d * (i as i64),
                    d >= 0,
                    1 <= i <= 10,
            ;
            assert(0 <= off <= d) by (nonlinear_arith)
                requires
                    0 <= p <= d * 10,
                    off == p / 10,
            ;
        } else {
            assert(d * 10 <= p < 0) by (nonlinear_arith)
                requires
                    p == d * (i as i64),
                    d < 0,
                    1 <= i <= 10,
            ;
            assert(d <= off <= 0) by (nonlinear_arith)
                requires
                    d * 10 <= p < 0,
                    off == -((-p) / 10),
            ;
        }
    }
    let r: i64 = (a as i64) + off;
    r as i32
}

/// Whether the swipe arithmetic from `(x1, y1)` to `(x2, y2)` stays in the `i32` range.
pub fn swipe_in_range(x1: i32, y1: i32, x2: i32, y2: i32) -> (r: bool)
    ensures
        r == (swipe_fits(x1 as int, x2 as int) && swipe_fits(y1 as int, y2 as int)),
{
    let dx: i64 = (x2 as i64) - (x1 as i64);
    let dy: i64 = (y2 as i64) - (y1 as i64);
    dx * 10 <= (i32::MAX as i64) && dx * 10 >= (i32::MIN as i64) && dy * 10 <= (i32::MAX as i64) && dy * 10
        >= (i32::MIN as i64)
}

/// The ten points that a swipe from `(x1, y1)` to `(x2, y2)` moves through, the last
/// one being `(x2, y2)`.
pub fn swipe_moves(x1: i32, y1: i32, x2: i32, y2: i32) -> (r: Vec<(i32, i32)>)
    requires
        swipe_fits(x1 as int, x2 as int),
        swipe_fits(y1 as int, y2 as int),
    ensures
        r@.len() == 10,
        forall|k: int|
            0 <= k < 10 ==> #[trigger] r@[k] == (
                swipe_coord(x1 as int, x2 as int, k + 1) as i32,
                swipe_coord(y1 as int, y2 as int, k + 1) as i32,
            ),
{
    let mut r: Vec<(i32, i32)> = Vec::new();
    let mut i: i32 = 1;
    while i <= SWIPE_STEPS
        invariant
            1 <= i <= 11,
            r@.len() == i - 1,
            swipe_fits(x1 as int, x2 as int),
            swipe_fits(y1 as int, y2 as int),
            forall|k: int|
                0 <= k < i - 1 ==> #[trigger] r@[k] == (
                    swipe_coord(x1 as int, x2 as int, k + 1) as i32,
                    swipe_coord(y1 as int, y2 as int, k + 1) as i32,
                ),
        decreases 11 - i,
    {
        let x = swipe_step(x1, x2, i);
        let y = swipe_step(y1, y2, i);
        r.push((x, y));
        i = i + 1;
    }
    r
}

/// A swipe's last move reaches its end point, and every move lies between its start
/// and end points.
pub proof fn lemma_swipe_path(a: int, b: int, i: int)
    requires
        1 <= i <= 10,
    ensures
        swipe_coord(a, b, 10) == b,
        a <= b ==> a <= swipe_coord(a, b, i) <= b,
        b <= a ==> b <= swipe_coord(a, b, i) <= a,
{
    let d = b - a;
    let p = d * i;
    assert(d * 10 / 10 == d) by (nonlinear_arith);
    assert(-(d * 10) / 10 == -d) by (nonlinear_arith);
    if d >= 0 {
        assert(0 <= p <= d * 10) by (nonlinear_arith)
            requires
                p == d * i,
                d >= 0,
                1 <= i <= 10,
        ;
        assert(0 <= p / 10 <= d) by (nonlinear_arith)
            requires
                0 <= p <= d * 10,
        ;
    } else {
        assert(d * 10 <= p < 0) by (nonlinear_arith)
            requires
                p == d * i,
                d < 0,
                1 <= i <= 10,
        ;
        assert(0 < (-p) / 10 + 1 && (-p) / 10 <= -d) by (nonlinear_arith)
            requires
                d * 10 <= p < 0,
        ;
    }
}

/// On a client area of the screen's own size, coordinates are unchanged.
pub proof fn lemma_scale_identity(v: i32, base: u32)
    requires
        base > 0,
    ensures
        scaled(v as int, base as int, base as int) == v,
{
    let p = (v as int) * (base as int);
    if p >= 0 {
        assert(p / (base as int) == v) by (nonlinear_arith)
            requires
                p == (v as int) * (base as int),
                base > 0,
        ;
    } else {
        assert((-p) / (base as int) == -(v as int)) by (nonlinear_arith)
            requires
                p == (v as int) * (base as int),
                base > 0,
        ;
    }
}

} // verus!
