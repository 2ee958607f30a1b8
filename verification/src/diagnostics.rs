//! The template tests of the control panel: which threshold and scan width a
//! template is tested with, the test of every template on one frame, the digit test,
//! and their report lines.
use vstd::prelude::*;
use crate::text::{chars_of, chars_eq_at, has_prefix, starts_with_chars, owned, string_from_chars, decimal,
    signed_decimal};
use crate::templates::{CachedTemplate, TemplateStore, TemplateView, lookup};
use crate::recognize::{FastRecognizer, spec_find_template_step, scan_visits, scan_limit, step_inputs_ok};
use crate::digits::digit_key;
use crate::utils::{Located, center, center_coord, push_str, push_decimal, push_signed};

verus! {

/// `p` occurs somewhere in `s`.
pub open spec fn has_infix(s: Seq<char>, p: Seq<char>) -> bool {
    exists|i: int| 0 <= i && i + p.len() <= s.len() && #[trigger] s.subrange(i, i + p.len()) == p
}

/// Whether `p` occurs in `s`.
pub fn contains_chars(s: &[char], p: &[char]) -> (r: bool)
    ensures
        r == has_infix(s@, p@),
{
    if p.len() > s.len() {
        return false;
    }
    if p.len() == 0 {
        assert(s@.subrange(0int, 0int + p@.len()) =~= p@);
        return true;
    }
    let n = s.len();
    let last = n - p.len();
    let mut i: usize = 0;
    while i <= last
        invariant
            last == s@.len() - p@.len(),
            p@.len() >= 1,
            last + 1 <= usize::MAX,
            i <= last + 1,
            forall|j: int| 0 <= j < i ==> #[trigger] s@.subrange(j, j + p@.len()) != p@,
        decreases last + 1 - i,
    {
        if chars_eq_at(s, i, p) {
            return true;
        }
        i = i + 1;
    }
    false
}

/// The threshold a template is tested with: 12 for seeds and for templates whose name
/// contains `_strict`, the configured threshold otherwise.
pub open spec fn test_threshold(name: Seq<char>, default_threshold: u32) -> u32 {
    if has_prefix(name, "seeds/"@) || has_infix(name, "_strict"@) { 12 } else { default_threshold }
}

/// The scan width a template is tested with: the left half of the screen for seeds,
/// the whole width otherwise.
pub open spec fn test_scan_width(name: Seq<char>, norm_w: u32) -> Option<usize> {
    if has_prefix(name, "seeds/"@) { Some((norm_w / 2) as usize) } else { None }
}

/// The threshold and scan width that template `name` is tested with on a screen
/// `norm_w` pixels wide.
pub fn template_test_params(name: &str, norm_w: u32, default_threshold: u32) -> (r: (u32, Option<usize>))
    ensures
        r.0 == test_threshold(name@, default_threshold),
        r.1 == test_scan_width(name@, norm_w),
{
    let n = chars_of(name);
    let seeds = chars_of("seeds/");
    let strict = chars_of("_strict");
    let is_seed = starts_with_chars(n.as_slice(), seeds.as_slice());
    let threshold = if is_seed || contains_chars(n.as_slice(), strict.as_slice()) { 12 } else { default_threshold };
    let width = if is_seed { Some((norm_w / 2) as usize) } else { None };
    (threshold, width)
}

/// The find of template `tv` named `name` on a `norm_w` x `norm_h` RGBA screen, with
/// the test parameters of its name: its centre and score.
pub open spec fn test_find(name: Seq<char>, tv: TemplateView, screen: Seq<u8>, norm_w: u32, norm_h: u32, default_threshold: u32) -> Option<(int, int, int)> {
    match spec_find_template_step(screen, norm_w as int, norm_h as int, 4, tv.data, tv.width as int, tv.height as int,
        test_threshold(name, default_threshold) as int, test_scan_width(name, norm_w)) {
        Some(f) => Some((center(f.0, tv.width as int), center(f.1, tv.height as int), f.2)),
        None => None,
    }
}

/// The test of template `tv` named `name` can run on the screen.
pub open spec fn test_can_run(name: Seq<char>, tv: TemplateView, screen_len: int, norm_w: u32, norm_h: u32, default_threshold: u32) -> bool {
    scan_visits(norm_w as int, norm_h as int, tv.width as int, tv.height as int, scan_limit(norm_w as int, test_scan_width(name, norm_w)))
        ==> step_inputs_ok(screen_len, norm_w as int, norm_h as int, 4, tv.data.len() as int, tv.width as int,
        tv.height as int, test_threshold(name, default_threshold) as int)
}

/// Tests template `t` named `name` on the `norm_w` x `norm_h` screen: its centre and
/// score where it is found.
pub fn test_one_template(
    name: &str,
    t: &CachedTemplate,
    screen_rgba: &[u8],
    norm_w: u32,
    norm_h: u32,
    default_threshold: u32,
) -> (r: Option<(i32, i32, u32)>)
    requires
        test_can_run(name@, t.tview(), screen_rgba@.len() as int, norm_w, norm_h, default_threshold),
    ensures
        match r {
            Some((x, y, s)) => test_find(name@, t.tview(), screen_rgba@, norm_w, norm_h, default_threshold) == Some(
                (x as int, y as int, s as int),
            ),
            None => test_find(name@, t.tview(), screen_rgba@, norm_w, norm_h, default_threshold) is None,
        },
{
    let (threshold, width) = template_test_params(name, norm_w, default_threshold);
    let (w, h) = t.dimensions;
    let data: &Vec<u8> = &*t.data;
    match FastRecognizer::find_template_step(
        screen_rgba,
        norm_w as usize,
        norm_h as usize,
        4,
        data.as_slice(),
        w as usize,
        h as usize,
        threshold,
        width,
    ) {
        Some((x, y, score)) => Some((center_coord(x, w), center_coord(y, h), score)),
        None => None,
    }
}

/// The report line of a template found in the test of all templates.
pub open spec fn found_line_text(name: Seq<char>, tx: i32, ty: i32, ax: i32, ay: i32, score: u32) -> Seq<char> {
    "[TIM THAY] "@ + name + " -> scaled: ("@ + signed_decimal(tx as int) + ", "@ + signed_decimal(ty as int)
        + "), goc: ("@ + signed_decimal(ax as int) + ", "@ + signed_decimal(ay as int) + ") | Score: "@ + decimal(
        score as nat,
    )
}

/// The report line of a template found at `(tx, ty)` on the normalised screen, which is
/// `(ax, ay)` in the window.
pub fn found_line(name: &str, tx: i32, ty: i32, ax: i32, ay: i32, score: u32) -> (r: String)
    ensures
        r@ == found_line_text(name@, tx, ty, ax, ay, score),
{
    let mut out: Vec<char> = Vec::new();
    push_str(&mut out, "[TIM THAY] ");
    push_str(&mut out, name);
    push_str(&mut out, " -> scaled: (");
    push_signed(&mut out, tx as i64);
    push_str(&mut out, ", ");
    push_signed(&mut out, ty as i64);
    push_str(&mut out, "), goc: (");
    push_signed(&mut out, ax as i64);
    push_str(&mut out, ", ");
    push_signed(&mut out, ay as i64);
    push_str(&mut out, ") | Score: ");
    push_decimal(&mut out, score as u128);
    assert(out@ =~= found_line_text(name@, tx, ty, ax, ay, score));
    string_from_chars(out.as_slice())
}

/// The report line of a template not found.
pub fn not_found_line(name: &str) -> (r: String)
    ensures
        r@ == "[KHONG THAY] "@ + name@,
{
    let mut out: Vec<char> = Vec::new();
    push_str(&mut out, "[KHONG THAY] ");
    push_str(&mut out, name);
    string_from_chars(out.as_slice())
}

/// The closing line of the test of all templates: `found` of the `tested` templates
/// were found, in `ms` milliseconds.
pub open spec fn all_templates_summary_text(found: nat, tested: nat, ms: nat) -> Seq<char> {
    "===== HOAN THANH: Tim thay "@ + decimal(found) + "/"@ + decimal(tested) + " anh mau | Tong: "@
        + decimal(ms) + "ms ====="@
}

/// The closing line of the test of all templates.
pub fn all_templates_summary(found: usize, tested: usize, ms: u128) -> (r: String)
    ensures
        r@ == all_templates_summary_text(found as nat, tested as nat, ms as nat),
{
    let mut out: Vec<char> = Vec::new();
    push_str(&mut out, "===== HOAN THANH: Tim thay ");
    push_decimal(&mut out, found as u128);
    push_str(&mut out, "/");
    push_decimal(&mut out, tested as u128);
    push_str(&mut out, " anh mau | Tong: ");
    push_decimal(&mut out, ms);
    push_str(&mut out, "ms =====");
    assert(out@ =~= all_templates_summary_text(found as nat, tested as nat, ms as nat));
    string_from_chars(out.as_slice())
}

/// The row above which the digit test reads: the centre row of the slider where it
/// is found, row 340 otherwise.
pub open spec fn digit_row(slider: Option<(int, int)>) -> int {
    match slider {
        Some((y, h)) => y + h / 2,
        None => 340,
    }
}

/// The row the digit test reads above, given the slider found (if any).
pub fn digit_test_row(slider: &Option<Located>) -> (r: usize)
    requires
        slider matches Some(l) ==> l.y + l.h / 2 <= usize::MAX,
    ensures
        r == digit_row(match slider {
            Some(l) => Some((l.y as int, l.h as int)),
            None => None,
        }),
{
    match slider {
        Some(l) => l.y + (l.h / 2) as usize,
        None => 340,
    }
}

/// The size entry `d:wxh` of a digit template.
pub open spec fn size_entry(d: int, tv: TemplateView) -> Seq<char> {
    decimal(d as nat) + ":"@ + decimal(tv.width as nat) + "x"@ + decimal(tv.height as nat)
}

/// The size entries of the digit templates present, from 0 to `n - 1`, joined by `, `.
pub open spec fn digit_sizes(e: Seq<(Seq<char>, TemplateView)>, n: int) -> Seq<char>
    decreases n,
{
    if n <= 0 {
        Seq::empty()
    } else {
        let rest = digit_sizes(e, n - 1);
        match lookup(e, digit_key(n - 1)) {
            Some(tv) => if rest.len() == 0 { size_entry(n - 1, tv) } else { rest + ", "@ + size_entry(n - 1, tv) },
            None => rest,
        }
    }
}

/// The sizes of the digit templates, as `d:wxh` entries joined by `, `.
pub fn digit_template_sizes(templates: &TemplateStore) -> (r: String)
    ensures
        r@ == digit_sizes(templates@, 10),
{
    let mut out: Vec<char> = Vec::new();
    let mut d: u32 = 0;
    while d < 10
        invariant
            d <= 10,
            out@ == digit_sizes(templates@, d as int),
        decreases 10 - d,
    {
        let key = crate::digits::digit_key_string(d);
        let ghost before = out@;
        match templates.get(key.as_str()) {
            Some(t) => {
                if out.len() > 0 {
                    push_str(&mut out, ", ");
                }
                push_decimal(&mut out, d as u128);
                push_str(&mut out, ":");
                push_decimal(&mut out, t.dimensions.0 as u128);
                push_str(&mut out, "x");
                push_decimal(&mut out, t.dimensions.1 as u128);
                assert(out@ =~= digit_sizes(templates@, d as int + 1));
            },
            None => {
                assert(out@ =~= digit_sizes(templates@, d as int + 1));
            },
        }
        d = d + 1;
    }
    string_from_chars(out.as_slice())
}

/// The answer of the digit test.
pub open spec fn digit_test_text(row: nat, value: Option<u32>, sizes: Seq<char>, time_log: Seq<char>) -> Seq<char> {
    match value {
        Some(v) => "[TEST SỐ] Vùng Y quét: "@ + decimal(row) + " | Nhận dạng: "@ + decimal(v as nat)
            + " hạt | Kích thước ảnh mẫu: ["@ + sizes + "]\n"@ + time_log,
        None => "[TEST SỐ] Vùng Y quét: "@ + decimal(row)
            + " | KHÔNG NHẬN DẠNG ĐƯỢC CHỮ SỐ NÀO trong vùng 120x35 (x: 420..540, y: "@ + decimal(
            if row >= 45 { (row - 45) as nat } else { 0 },
        ) + ".."@ + decimal(if row >= 10 { (row - 10) as nat } else { 0 }) + ") | Kích thước ảnh mẫu: ["@ + sizes
            + "]\n"@ + time_log,
    }
}

/// The answer of the digit test: the row read above, the value read (if any), the
/// digit template sizes and the timing line.
pub fn digit_test_message(row: usize, value: Option<u32>, sizes: &str, time_log: &str) -> (r: String)
    ensures
        r@ == digit_test_text(row as nat, value, sizes@, time_log@),
{
    let mut out: Vec<char> = Vec::new();
    push_str(&mut out, "[TEST SỐ] Vùng Y quét: ");
    push_decimal(&mut out, row as u128);
    match value {
        Some(v) => {
            push_str(&mut out, " | Nhận dạng: ");
            push_decimal(&mut out, v as u128);
            push_str(&mut out, " hạt | Kích thước ảnh mẫu: [");
        },
        None => {
            push_str(&mut out, " | KHÔNG NHẬN DẠNG ĐƯỢC CHỮ SỐ NÀO trong vùng 120x35 (x: 420..540, y: ");
            push_decimal(&mut out, if row >= 45 { (row - 45) as u128 } else { 0 });
            push_str(&mut out, "..");
            push_decimal(&mut out, if row >= 10 { (row - 10) as u128 } else { 0 });
            push_str(&mut out, ") | Kích thước ảnh mẫu: [");
        },
    }
    push_str(&mut out, sizes);
    push_str(&mut out, "]\n");
    push_str(&mut out, time_log);
    assert(out@ =~= digit_test_text(row as nat, value, sizes@, time_log@));
    string_from_chars(out.as_slice())
}

/// The template folders, as key prefixes: the buttons, the seeds and the digits, and
/// the tools where `with_tools`.
pub fn template_categories(with_tools: bool) -> (r: Vec<String>)
    ensures
        r@.len() == if with_tools { 4int } else { 3int },
        r@[0]@ == "buttons"@,
        r@[1]@ == "seeds"@,
        r@[2]@ == "seeds/digits"@,
        with_tools ==> r@[3]@ == "tools"@,
{
    let mut r: Vec<String> = Vec::new();
    r.push(owned("buttons"));
    r.push(owned("seeds"));
    r.push(owned("seeds/digits"));
    if with_tools {
        r.push(owned("tools"));
    }
    r
}

/// The cache key of template file `file_name` in folder `category`: `category/file_name`.
pub fn template_key(category: &str, file_name: &str) -> (r: String)
    ensures
        r@ == category@ + "/"@ + file_name@,
{
    let mut out: Vec<char> = Vec::new();
    push_str(&mut out, category);
    push_str(&mut out, "/");
    push_str(&mut out, file_name);
    string_from_chars(out.as_slice())
}

/// Whether the test of template `t` named `name` can run on the screen.
pub fn test_can_run_check(name: &str, t: &CachedTemplate, screen_len: usize, norm_w: u32, norm_h: u32, default_threshold: u32) -> (r: bool)
    ensures
        r == test_can_run(name@, t.tview(), screen_len as int, norm_w, norm_h, default_threshold),
{
    let (threshold, width) = template_test_params(name, norm_w, default_threshold);
    let (w, h) = t.dimensions;
    let data: &Vec<u8> = &*t.data;
    let nw = norm_w as u64;
    let limit: u64 = match width {
        Some(v) => if (v as u64) <= nw { v as u64 } else { nw },
        None => nw,
    };
    let visits = (w as u64) <= nw && (h as u64) <= (norm_h as u64) && (w as u64) <= limit && (norm_h as u64) - (h as u64)
        > 0 && limit - (w as u64) > 0;
    if !visits {
        return true;
    }
    assert((norm_w as u128) * (norm_h as u128) * 4 <= 0x1_0000_0000u128 * 0x1_0000_0000u128 * 4) by (nonlinear_arith)
        requires
            norm_w <= 0xffff_ffffu32,
            norm_h <= 0xffff_ffffu32,
    ;
    assert((w as u128) * (h as u128) <= 0x1_0000_0000u128 * 0x1_0000_0000u128) by (nonlinear_arith)
        requires
            w <= 0xffff_ffffu32,
            h <= 0xffff_ffffu32,
    ;
    let area: u128 = (w as u128) * (h as u128);
    (norm_w as u128) * (norm_h as u128) * 4 <= (screen_len as u128) && area * 3 <= (data.len() as u128) && w >= 2
        && h >= 2 && 2 * (threshold as u128) <= (u32::MAX as u128) && area * 255 <= (u64::MAX as u128)
}

} // verus!
