//! Helpers shared by the scripts: the timing log line, click centres, which buttons
//! need the NPC-dialogue bypass, and locating a template on the screen.
use vstd::prelude::*;
use crate::text::{chars_of, append_chars, string_from_chars, u128_decimal_chars, decimal, signed_decimal, str_eq};
use crate::templates::{TemplateStore, find_template_with_variants, first_variant_found, searchable};

verus! {

/// Appends the characters of `s`.
pub fn push_str(out: &mut Vec<char>, s: &str)
    ensures
        final(out)@ == old(out)@ + s@,
{
    let cs = chars_of(s);
    append_chars(out, cs.as_slice());
}

/// Appends the decimal rendering of `n`.
pub fn push_decimal(out: &mut Vec<char>, n: u128)
    ensures
        final(out)@ == old(out)@ + decimal(n as nat),
{
    let cs = u128_decimal_chars(n);
    append_chars(out, cs.as_slice());
}

/// Appends the decimal rendering of `n`, with a leading `-` when it is negative.
pub fn push_signed(out: &mut Vec<char>, n: i64)
    ensures
        final(out)@ == old(out)@ + signed_decimal(n as int),
{
    if n < 0 {
        out.push('-');
        let m: i128 = -(n as i128);
        push_decimal(out, m as u128);
        assert(final(out)@ =~= old(out)@ + signed_decimal(n as int));
    } else {
        push_decimal(out, n as u128);
    }
}

/// The line that reports how long each phase of a find-and-click took.
pub open spec fn time_log(capture_ms: u128, normalize_ms: u128, scan_ms: u128, click_ms: u128, total_ms: u128) -> Seq<char> {
    "[TIME] Chup anh (Capture): "@ + decimal(capture_ms as nat) + "ms | Chuan hoa (Normalize): "@
        + decimal(normalize_ms as nat) + "ms | Quet (Scan): "@ + decimal(scan_ms as nat)
        + "ms | Gui Click (Win32): "@ + decimal(click_ms as nat) + "ms | Tong (Total): "@
        + decimal(total_ms as nat) + "ms"@
}

/// Formats the timing of the capture, normalisation, scan and click phases and of the
/// whole operation, in milliseconds.
pub fn log_time_diagnostics(
    capture_ms: u128,
    normalize_ms: u128,
    scan_ms: u128,
    click_ms: u128,
    total_ms: u128,
) -> (r: String)
    ensures
        r@ == time_log(capture_ms, normalize_ms, scan_ms, click_ms, total_ms),
{
    let mut out: Vec<char> = Vec::new();
    push_str(&mut out, "[TIME] Chup anh (Capture): ");
    push_decimal(&mut out, capture_ms);
    push_str(&mut out, "ms | Chuan hoa (Normalize): ");
    push_decimal(&mut out, normalize_ms);
    push_str(&mut out, "ms | Quet (Scan): ");
    push_decimal(&mut out, scan_ms);
    push_str(&mut out, "ms | Gui Click (Win32): ");
    push_decimal(&mut out, click_ms);
    push_str(&mut out, "ms | Tong (Total): ");
    push_decimal(&mut out, total_ms);
    push_str(&mut out, "ms");
    assert(out@ =~= time_log(capture_ms, normalize_ms, scan_ms, click_ms, total_ms));
    string_from_chars(out.as_slice())
}

/// The centre coordinate `start + size / 2` of a found template, as the `i32` that
/// the click takes (saturated at `i32::MAX`).
pub open spec fn center(start: int, size: int) -> int {
    if start + size / 2 <= i32::MAX { start + size / 2 } else { i32::MAX as int }
}

/// The click centre lies on the found template: `start <= centre < start + size` for a
/// template at least one pixel wide that ends within the `i32` range.
pub proof fn lemma_center_on_template(start: int, size: int)
    requires
        size >= 1,
        start + size <= i32::MAX,
    ensures
        start <= center(start, size) < start + size,
{
}

/// The centre coordinate of a found template along one axis.
pub fn center_coord(start: usize, size: u32) -> (r: i32)
    ensures
        r == center(start as int, size as int),
{
    let half = (size / 2) as u64;
    if (start as u128) + (half as u128) <= i32::MAX as u128 {
        (start as u64 + half) as i32
    } else {
        i32::MAX
    }
}

/// The buttons after which an NPC dialogue follows: clicking them is repeated twice
/// more, 300 ms apart, to skip the dialogue.
pub open spec fn needs_npc_bypass(key: Seq<char>, name_vi: Seq<char>) -> bool {
    ||| key == "buttons/open-farm-shop.png"@
    ||| key == "buttons/open-seed-shop.png"@
    ||| key == "buttons/open-tool-shop.png"@
    ||| key == "buttons/close-seed.png"@
    ||| key == "buttons/leave.png"@
    ||| (key == "buttons/close-harvest.png"@ && name_vi == "Dong cua hang ban"@)
}

/// Whether clicking button `key` (described as `name_vi`) opens an NPC dialogue that
/// the click must skip.
pub fn npc_bypass_needed(key: &str, name_vi: &str) -> (r: bool)
    ensures
        r == needs_npc_bypass(key@, name_vi@),
{
    str_eq(key, "buttons/open-farm-shop.png") || str_eq(key, "buttons/open-seed-shop.png")
        || str_eq(key, "buttons/open-tool-shop.png") || str_eq(key, "buttons/close-seed.png")
        || str_eq(key, "buttons/leave.png") || (str_eq(key, "buttons/close-harvest.png") && str_eq(
        name_vi,
        "Dong cua hang ban",
    ))
}

/// A find on the screen with its click centre.
pub struct Located {
    pub key: String,
    pub x: usize,
    pub y: usize,
    pub w: u32,
    pub h: u32,
    pub score: u32,
    pub cx: i32,
    pub cy: i32,
}

/// The find of `key` (or a variant) on the screen, with its click centre.
pub open spec fn located_matches(r: Option<Located>, f: Option<(Seq<char>, int, int, int, int, int)>) -> bool {
    match (r, f) {
        (Some(l), Some(f)) => {
            &&& l.key@ == f.0
            &&& l.x == f.1 && l.y == f.2 && l.w == f.3 && l.h == f.4 && l.score == f.5
            &&& l.cx == center(f.1, f.3) && l.cy == center(f.2, f.4)
        },
        (None, None) => true,
        _ => false,
    }
}

/// Finds `key` (or its first variant found) on the 960 x 540 screen and computes the
/// centre to click.
pub fn locate(
    templates: &TemplateStore,
    screen_rgba: &[u8],
    key: &str,
    threshold: u32,
    max_scan_w: Option<usize>,
) -> (r: Option<Located>)
    requires
        searchable(templates@, key@, screen_rgba@.len() as int, threshold as int, max_scan_w),
    ensures
        located_matches(r, first_variant_found(templates@, key@, screen_rgba@, threshold as int, max_scan_w, 0)),
{
    match find_template_with_variants(screen_rgba, templates, key, threshold, max_scan_w) {
        Some((k, x, y, w, h, score)) => {
            let cx = center_coord(x, w);
            let cy = center_coord(y, h);
            Some(Located { key: k, x, y, w, h, score, cx, cy })
        },
        None => None,
    }
}

} // verus!
