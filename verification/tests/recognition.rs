use std::sync::Arc;

use onefarm::digits::{quantity_fits, recognize_number_above_slider};
use onefarm::recognize::FastRecognizer;
use onefarm::recognize_fast::FastRecognizer as CornerRecognizer;
use onefarm::templates::{count_template_occurrences, find_template_with_variants, CachedTemplate, TemplateStore};

const W: usize = 960;
const H: usize = 540;

fn blank_screen(v: u8) -> Vec<u8> {
    let mut s = vec![v; W * H * 4];
    for p in 0..W * H {
        s[p * 4 + 3] = 255;
    }
    s
}

fn pattern(w: usize, h: usize, seed: usize) -> Vec<u8> {
    let mut t = Vec::with_capacity(w * h * 3);
    for y in 0..h {
        for x in 0..w {
            for c in 0..3usize {
                let mut v = (x as u64) * 0x9E37_79B9 ^ (y as u64) * 0x85EB_CA6B ^ (seed as u64) * 0xC2B2_AE35
                    ^ (c as u64) * 0x27D4_EB2F;
                v ^= v >> 15;
                v = v.wrapping_mul(0x2C1B_3C6D);
                v ^= v >> 12;
                v = v.wrapping_mul(0x297A_2D39);
                v ^= v >> 15;
                t.push((v % 200 + 30) as u8);
            }
        }
    }
    t
}

fn paste(screen: &mut [u8], tpl: &[u8], w: usize, h: usize, x0: usize, y0: usize) {
    for y in 0..h {
        for x in 0..w {
            let s = ((y0 + y) * W + x0 + x) * 4;
            let t = (y * w + x) * 3;
            screen[s] = tpl[t];
            screen[s + 1] = tpl[t + 1];
            screen[s + 2] = tpl[t + 2];
        }
    }
}

fn cached(w: u32, h: u32, data: Vec<u8>) -> CachedTemplate {
    CachedTemplate { dimensions: (w, h), data: Arc::new(data) }
}

#[test]
fn nine_point_recognizer_finds_the_exact_copy() {
    let tpl = pattern(20, 10, 1);
    let mut screen = blank_screen(100);
    paste(&mut screen, &tpl, 20, 10, 300, 200);
    let r = FastRecognizer::find_template_step(&screen, W, H, 4, &tpl, 20, 10, 25, None);
    assert_eq!(r, Some((300, 200, 0)));
}

#[test]
fn nine_point_recognizer_respects_the_scan_width() {
    let tpl = pattern(20, 10, 1);
    let mut screen = blank_screen(100);
    paste(&mut screen, &tpl, 20, 10, 300, 200);
    // The window must start before `limit - tw`.
    assert_eq!(FastRecognizer::find_template_step(&screen, W, H, 4, &tpl, 20, 10, 25, Some(320)), None);
    assert_eq!(FastRecognizer::find_template_step(&screen, W, H, 4, &tpl, 20, 10, 25, Some(321)), Some((300, 200, 0)));
    assert_eq!(FastRecognizer::find_template_step(&screen, W, H, 4, &tpl, 20, 10, 25, Some(10)), None);
}

#[test]
fn nine_point_recognizer_returns_the_first_match_row_by_row() {
    let tpl = pattern(16, 8, 2);
    let mut screen = blank_screen(100);
    paste(&mut screen, &tpl, 16, 8, 500, 100);
    paste(&mut screen, &tpl, 16, 8, 40, 300);
    paste(&mut screen, &tpl, 16, 8, 20, 100);
    let r = FastRecognizer::find_template_step(&screen, W, H, 4, &tpl, 16, 8, 25, None);
    assert_eq!(r, Some((20, 100, 0)));
}

#[test]
fn nine_point_recognizer_reports_nothing_on_an_empty_screen() {
    let tpl = pattern(16, 8, 3);
    let screen = blank_screen(100);
    assert_eq!(FastRecognizer::find_template_step(&screen, W, H, 4, &tpl, 16, 8, 25, None), None);
}

#[test]
fn nine_point_recognizer_rejects_templates_larger_than_the_image() {
    let tpl = pattern(4, 4, 3);
    let screen = vec![0u8; 3 * 3 * 4];
    assert_eq!(FastRecognizer::find_template_step(&screen, 3, 3, 4, &tpl, 4, 4, 25, None), None);
}

#[test]
fn nine_point_recognizer_scores_the_mean_difference() {
    // A uniform template on a uniform image: every pixel differs by 6 in each channel.
    let tpl = vec![106u8; 4 * 4 * 3];
    let mut img = vec![100u8; 8 * 8 * 4];
    for p in 0..64 {
        img[p * 4 + 3] = 255;
    }
    assert_eq!(FastRecognizer::find_template_step(&img, 8, 8, 4, &tpl, 4, 4, 7, None), Some((0, 0, 6)));
    assert_eq!(FastRecognizer::find_template_step(&img, 8, 8, 4, &tpl, 4, 4, 6, None), None);
}

#[test]
fn corner_recognizer_finds_the_exact_copy() {
    let tpl = pattern(12, 9, 4);
    let mut screen = blank_screen(90);
    paste(&mut screen, &tpl, 12, 9, 700, 400);
    let r = CornerRecognizer::find_template_step(&screen, W, H, 4, &tpl, 12, 9, 25);
    assert_eq!(r, Some((700, 400, 0)));
}

#[test]
fn corner_recognizer_reports_nothing_on_an_empty_screen() {
    let tpl = pattern(12, 9, 4);
    let screen = blank_screen(90);
    assert_eq!(CornerRecognizer::find_template_step(&screen, W, H, 4, &tpl, 12, 9, 25), None);
}

#[test]
fn variant_search_finds_a_prefixed_variant() {
    let gift = pattern(14, 10, 5);
    let gift_variant = pattern(14, 10, 6);
    let mut store = TemplateStore::new();
    store.insert("buttons/gift.png".to_string(), cached(14, 10, gift));
    store.insert("buttons/1_gift.png".to_string(), cached(14, 10, gift_variant.clone()));
    let mut screen = blank_screen(100);
    paste(&mut screen, &gift_variant, 14, 10, 120, 60);
    let r = find_template_with_variants(&screen, &store, "buttons/gift.png", 25, None);
    assert_eq!(r, Some(("buttons/1_gift.png".to_string(), 120, 60, 14, 10, 0)));
}

#[test]
fn variant_search_ignores_keys_without_an_underscore_prefix() {
    let other = pattern(14, 10, 7);
    let mut store = TemplateStore::new();
    store.insert("buttons/xgift.png".to_string(), cached(14, 10, other.clone()));
    let mut screen = blank_screen(100);
    paste(&mut screen, &other, 14, 10, 120, 60);
    assert_eq!(find_template_with_variants(&screen, &store, "buttons/gift.png", 25, None), None);
    // Looked up by its own key, it is found.
    assert_eq!(
        find_template_with_variants(&screen, &store, "buttons/xgift.png", 25, None),
        Some(("buttons/xgift.png".to_string(), 120, 60, 14, 10, 0))
    );
}

#[test]
fn variant_search_takes_the_first_variant_in_store_order() {
    let a = pattern(10, 10, 8);
    let b = pattern(10, 10, 9);
    let mut store = TemplateStore::new();
    store.insert("seeds/new_carrot.png".to_string(), cached(10, 10, a.clone()));
    store.insert("seeds/carrot.png".to_string(), cached(10, 10, b.clone()));
    let mut screen = blank_screen(100);
    paste(&mut screen, &a, 10, 10, 400, 300);
    paste(&mut screen, &b, 10, 10, 10, 10);
    let r = find_template_with_variants(&screen, &store, "seeds/carrot.png", 12, None);
    assert_eq!(r, Some(("seeds/new_carrot.png".to_string(), 400, 300, 10, 10, 0)));
}

#[test]
fn exact_search_ignores_variants() {
    let a = pattern(10, 10, 8);
    let mut store = TemplateStore::new();
    store.insert("buttons/1_gift.png".to_string(), cached(10, 10, a.clone()));
    let mut screen = blank_screen(100);
    paste(&mut screen, &a, 10, 10, 400, 300);
    assert_eq!(store.find_template_exact(&screen, "buttons/gift.png", 25, None), None);
    assert_eq!(store.find_template_exact(&screen, "buttons/1_gift.png", 25, None), Some((400, 300, 0)));
}

#[test]
fn counting_blanks_out_each_find() {
    let t = pattern(12, 12, 10);
    let mut store = TemplateStore::new();
    store.insert("buttons/single-harvest.png".to_string(), cached(12, 12, t.clone()));
    let mut screen = blank_screen(100);
    for i in 0..9 {
        paste(&mut screen, &t, 12, 12, 100 + i * 40, 250);
    }
    assert_eq!(count_template_occurrences(&store, "buttons/single-harvest.png", &screen, 25), 9);
    let empty = blank_screen(100);
    assert_eq!(count_template_occurrences(&store, "buttons/single-harvest.png", &empty, 25), 0);
}

fn digit_store() -> (TemplateStore, Vec<u8>, Vec<u8>) {
    let two = pattern(8, 12, 20);
    let five = pattern(8, 12, 45);
    let mut store = TemplateStore::new();
    store.insert("seeds/digits/2.png".to_string(), cached(8, 12, two.clone()));
    store.insert("seeds/digits/5.png".to_string(), cached(8, 12, five.clone()));
    (store, two, five)
}

#[test]
fn digits_above_the_slider_are_read_left_to_right() {
    let (store, two, five) = digit_store();
    let mut screen = blank_screen(20);
    // The slider's centre row is 300: the strip covers rows 255..290, columns 420..540.
    paste(&mut screen, &five, 8, 12, 470, 262);
    paste(&mut screen, &two, 8, 12, 450, 260);
    assert_eq!(recognize_number_above_slider(&screen, &store, 300), Some(25));
}

#[test]
fn repeated_digits_are_all_read() {
    let (store, two, five) = digit_store();
    let mut screen = blank_screen(20);
    paste(&mut screen, &two, 8, 12, 430, 265);
    paste(&mut screen, &five, 8, 12, 445, 265);
    paste(&mut screen, &two, 8, 12, 460, 265);
    assert_eq!(recognize_number_above_slider(&screen, &store, 300), Some(252));
}

#[test]
fn no_digit_reads_nothing() {
    let (store, _two, _five) = digit_store();
    let screen = blank_screen(20);
    assert_eq!(recognize_number_above_slider(&screen, &store, 300), None);
    // A slider at the very top leaves no strip to read.
    assert_eq!(recognize_number_above_slider(&screen, &store, 5), None);
}

#[test]
fn digits_outside_the_strip_are_not_read() {
    let (store, two, _five) = digit_store();
    let mut screen = blank_screen(20);
    paste(&mut screen, &two, 8, 12, 300, 260);
    assert_eq!(recognize_number_above_slider(&screen, &store, 300), None);
}

#[test]
fn raising_the_threshold_keeps_the_find_or_moves_it_earlier() {
    let tpl = pattern(20, 10, 5);
    let near: Vec<u8> = tpl.iter().map(|v| v + 10).collect();
    let mut screen = blank_screen(100);
    paste(&mut screen, &tpl, 20, 10, 300, 200);
    paste(&mut screen, &near, 20, 10, 100, 50);
    assert_eq!(FastRecognizer::find_template_step(&screen, W, H, 4, &tpl, 20, 10, 5, None), Some((300, 200, 0)));
    assert_eq!(FastRecognizer::find_template_step(&screen, W, H, 4, &tpl, 20, 10, 10, None), Some((300, 200, 0)));
    assert_eq!(FastRecognizer::find_template_step(&screen, W, H, 4, &tpl, 20, 10, 11, None), Some((100, 50, 10)));
    assert_eq!(FastRecognizer::find_template_step(&screen, W, H, 4, &tpl, 20, 10, 30, None), Some((100, 50, 10)));
}

#[test]
fn alpha_bytes_never_change_the_find() {
    let tpl = pattern(20, 10, 6);
    let mut screen = blank_screen(100);
    paste(&mut screen, &tpl, 20, 10, 300, 200);
    let before = FastRecognizer::find_template_step(&screen, W, H, 4, &tpl, 20, 10, 25, None);
    for p in 0..W * H {
        screen[p * 4 + 3] = (p % 251) as u8;
    }
    assert_eq!(FastRecognizer::find_template_step(&screen, W, H, 4, &tpl, 20, 10, 25, None), before);
    assert_eq!(before, Some((300, 200, 0)));
}

#[test]
fn the_quantity_depends_only_on_the_box_and_the_digit_templates() {
    let (mut store, two, five) = digit_store();
    let mut screen = blank_screen(20);
    paste(&mut screen, &two, 8, 12, 450, 260);
    paste(&mut screen, &five, 8, 12, 470, 262);
    assert_eq!(recognize_number_above_slider(&screen, &store, 300), Some(25));
    // Outside the box: rows above and below it, and columns left and right of it.
    paste(&mut screen, &five, 8, 12, 300, 260);
    paste(&mut screen, &two, 8, 12, 450, 300);
    paste(&mut screen, &two, 8, 12, 560, 262);
    // Inside the box, the alpha bytes only.
    for y in 255..290 {
        for x in 420..540 {
            screen[(y * W + x) * 4 + 3] = 7;
        }
    }
    store.insert("buttons/ok.png".to_string(), cached(8, 12, pattern(8, 12, 77)));
    assert_eq!(recognize_number_above_slider(&screen, &store, 300), Some(25));
}

#[test]
fn quantities_that_overflow_are_reported() {
    let (store, two, five) = digit_store();
    let mut screen = blank_screen(20);
    paste(&mut screen, &two, 8, 12, 450, 260);
    paste(&mut screen, &five, 8, 12, 470, 262);
    assert!(quantity_fits(&screen, &store, 300));
    assert!(quantity_fits(&blank_screen(20), &store, 300));
    // A 2 x 2 nine matches every two columns of a uniform strip: sixty nines.
    let mut nines = TemplateStore::new();
    nines.insert("seeds/digits/9.png".to_string(), cached(2, 2, vec![50u8; 12]));
    assert!(!quantity_fits(&blank_screen(50), &nines, 300));
    assert!(quantity_fits(&blank_screen(50), &nines, 5));
}
