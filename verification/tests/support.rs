use std::sync::Arc;

use onefarm::adb::{device_serials, devices_request, frame_request, reply_length, AdbClient};
use onefarm::config::{
    default_button_timeout_secs, default_click_delay_ms, default_game_launch_delay_secs,
    default_harvest_interval_mins, default_harvest_loop_count, default_match_threshold, default_sell_loop_count,
    default_true, AppConfig,
};
use onefarm::device::{
    connected_message, get_ld_path, is_game_running_output, ld_ports_fit_check, parse_ld_devices, pidof_args,
    runapp_args, DeviceInfo,
};
use onefarm::diagnostics::{
    all_templates_summary, digit_template_sizes, digit_test_message, digit_test_row, found_line, not_found_line,
    template_categories, template_key, template_test_params, test_one_template,
};
use onefarm::input::{scale_coord, swipe_in_range, swipe_moves, to_client};
use onefarm::screen::{client_offset, compose_client_image, normalize_screen, screen_from_frame};
use onefarm::templates::{CachedTemplate, TemplateStore};
use onefarm::utils::{center_coord, log_time_diagnostics, npc_bypass_needed, Located};
use onefarm::ordering::sort_names;
use onefarm::buying::{settle_purchase, PurchaseOutcome};
use onefarm::tally::Tally;
use onefarm::screen::{grabber_stale, resize_needed, window_size_fits, window_size_for_render};
use onefarm::digits::digits_readable;
use onefarm::diagnostics::test_can_run_check;
use onefarm::screen::screen_png;
use onefarm::templates::template_from_png;

fn cached(w: u32, h: u32, data: Vec<u8>) -> CachedTemplate {
    CachedTemplate { dimensions: (w, h), data: Arc::new(data) }
}

#[test]
fn config_defaults() {
    let c = AppConfig::default();
    assert!(c.selected_seeds.is_empty());
    assert_eq!(c.button_timeout_secs, 5);
    assert_eq!(c.click_delay_ms, 1000);
    assert_eq!(c.match_threshold, 25);
    assert_eq!(c.harvest_interval_mins, 30);
    assert_eq!(c.harvest_loop_count, 2);
    assert_eq!(c.sell_loop_count, 2);
    assert!(c.enable_buy_seeds && c.enable_harvest_sell && c.enable_auto_login);
    assert_eq!(c.game_launch_delay_secs, 60);
    assert_eq!(default_button_timeout_secs(), 5);
    assert_eq!(default_click_delay_ms(), 1000);
    assert_eq!(default_match_threshold(), 25);
    assert_eq!(default_harvest_interval_mins(), 30);
    assert_eq!(default_harvest_loop_count(), 2);
    assert_eq!(default_sell_loop_count(), 2);
    assert_eq!(default_game_launch_delay_secs(), 60);
    assert!(default_true());
}

#[test]
fn config_effective_values() {
    let mut c = AppConfig::default();
    c.button_timeout_secs = 0;
    c.click_delay_ms = 0;
    c.match_threshold = 0;
    c.game_launch_delay_secs = 2;
    assert_eq!(c.effective_timeout_secs(), 5);
    assert_eq!(c.shop_timeout_secs(), 30);
    assert_eq!(c.effective_click_delay_ms(), 1000);
    assert_eq!(c.effective_threshold(), 25);
    assert_eq!(c.launch_delay_secs(), 5);
    assert_eq!(c.go_home_timeout_secs(), 5);
    c.button_timeout_secs = 45;
    c.match_threshold = 18;
    c.click_delay_ms = 300;
    c.game_launch_delay_secs = 90;
    assert_eq!(c.effective_timeout_secs(), 45);
    assert_eq!(c.shop_timeout_secs(), 45);
    assert_eq!(c.effective_threshold(), 18);
    assert_eq!(c.effective_click_delay_ms(), 300);
    assert_eq!(c.launch_delay_secs(), 90);
    assert_eq!(c.go_home_timeout_secs(), 45);
}

#[test]
fn timing_log_line() {
    assert_eq!(
        log_time_diagnostics(12, 0, 7, 1, 25),
        "[TIME] Chup anh (Capture): 12ms | Chuan hoa (Normalize): 0ms | Quet (Scan): 7ms | Gui Click (Win32): 1ms | Tong (Total): 25ms"
    );
}

#[test]
fn click_centres() {
    assert_eq!(center_coord(100, 21), 110);
    assert_eq!(center_coord(0, 1), 0);
    assert_eq!(center_coord(usize::MAX, 10), i32::MAX);
}

#[test]
fn buttons_that_skip_the_npc_dialogue() {
    assert!(npc_bypass_needed("buttons/open-farm-shop.png", "x"));
    assert!(npc_bypass_needed("buttons/leave.png", ""));
    assert!(npc_bypass_needed("buttons/close-harvest.png", "Dong cua hang ban"));
    assert!(!npc_bypass_needed("buttons/close-harvest.png", "Nut dong thu hoach"));
    assert!(!npc_bypass_needed("buttons/harvest.png", "Dong cua hang ban"));
}

#[test]
fn client_images_are_cut_and_swapped() {
    // A 3 x 2 BGRA frame; the client area is the 2 x 2 block at (1, 0).
    let mut frame = Vec::new();
    for p in 0..6u8 {
        frame.extend_from_slice(&[p * 10, p * 10 + 1, p * 10 + 2, 7]);
    }
    let img = compose_client_image(&frame, 3, 2, 1, 0, 2, 2);
    assert_eq!(img, vec![12, 11, 10, 255, 22, 21, 20, 255, 42, 41, 40, 255, 52, 51, 50, 255]);
    // Rows below the frame and columns past it stay zero.
    let img = compose_client_image(&frame, 3, 2, 2, 1, 2, 2);
    assert_eq!(img, vec![52, 51, 50, 255, 0, 0, 0, 0, 0, 0, 0, 0, 0, 0, 0, 0]);
    assert_eq!(client_offset(130, 100), 30);
    assert_eq!(client_offset(90, 100), 0);
}

#[test]
fn small_deviations_skip_normalisation() {
    let img = vec![9u8; 958 * 543 * 4];
    let out = normalize_screen(958, 543, img.clone());
    assert_eq!(out, img);
}

#[test]
fn larger_screens_are_resized_to_960_by_540() {
    let mut img = vec![0u8; 1920 * 1080 * 4];
    for p in 0..1920 * 1080 {
        img[p * 4] = 200;
        img[p * 4 + 3] = 255;
    }
    let out = normalize_screen(1920, 1080, img);
    assert_eq!(out.len(), 960 * 540 * 4);
    assert_eq!(&out[0..4], &[200, 0, 0, 255]);
    let frame = vec![1u8; 100 * 50 * 4];
    let screen = screen_from_frame(&frame, 100, 50, 0, 0, 100, 50);
    assert_eq!(screen.len(), 960 * 540 * 4);
    assert_eq!(&screen[0..4], &[1, 1, 1, 255]);
}

#[test]
fn coordinates_scale_to_the_window() {
    assert_eq!(scale_coord(480, 1920, 960), 960);
    assert_eq!(scale_coord(100, 1280, 960), 133);
    assert_eq!(scale_coord(-100, 1280, 960), -133);
    assert_eq!(to_client(480, 270, 1280, 720), (640, 360));
    assert_eq!(to_client(0, 539, 960, 540), (0, 539));
}

#[test]
fn swipes_move_in_ten_steps() {
    let moves = swipe_moves(240, 400, 240, 150);
    assert_eq!(moves.len(), 10);
    assert_eq!(moves[0], (240, 375));
    assert_eq!(moves[9], (240, 150));
    let moves = swipe_moves(0, 0, 7, -7);
    assert_eq!(moves[0], (0, 0));
    assert_eq!(moves[4], (3, -3));
    assert_eq!(moves[9], (7, -7));
    assert!(swipe_in_range(240, 150, 240, 450));
    assert!(!swipe_in_range(i32::MIN, 0, i32::MAX, 0));
}

#[test]
fn console_path_and_commands() {
    assert_eq!(get_ld_path(), "C:\\LDPlayer\\LDPlayer9\\ldconsole.exe");
    assert_eq!(pidof_args(3), vec!["adb", "--index", "3", "--command", "shell pidof com.vng.playtogether"]);
    assert_eq!(runapp_args(0), vec!["runapp", "--index", "0", "--packagename", "com.vng.playtogether"]);
    assert!(is_game_running_output("1234\n"));
    assert!(!is_game_running_output(" \r\n\t"));
    assert!(!is_game_running_output(""));
}

#[test]
fn instance_list_is_parsed() {
    let out = "0,LDPlayer,66666,77777,1,1234,5678,960,540,240\r\n\
               1,LDPlayer-1,0,0,0,-1,-1,960,540,240\r\n\
               2,Farm 2,12345,23456,1,99,100,960,540,240\n\
               3,Short,1,2,1\n\
               4,Stopped,555,556,0,1,1\n\
               x,Odd,888,999,1,1,1";
    assert!(ld_ports_fit_check(out));
    let devices: Vec<DeviceInfo> = parse_ld_devices(out);
    assert_eq!(devices.len(), 3);
    assert_eq!(devices[0].index, 0);
    assert_eq!(devices[0].serial, "127.0.0.1:5555");
    assert_eq!(devices[0].title, "LDPlayer");
    assert_eq!(devices[0].handle, 66666);
    assert_eq!(devices[0].bind_handle, 77777);
    assert_eq!(devices[1].index, 2);
    assert_eq!(devices[1].serial, "127.0.0.1:5559");
    assert_eq!(devices[1].title, "Farm 2");
    assert_eq!(devices[2].index, -1);
    assert_eq!(devices[2].serial, "127.0.0.1:5553");
    assert_eq!(devices[2].handle, 888);
    assert!(parse_ld_devices("").is_empty());
    assert!(!ld_ports_fit_check("2000000000,Big,5,6,1,0,0"));
}

#[test]
fn connected_reply() {
    let d = DeviceInfo {
        index: 1,
        serial: "127.0.0.1:5557".to_string(),
        title: "LDPlayer-1".to_string(),
        handle: 5,
        bind_handle: 6,
    };
    assert_eq!(connected_message(&d), "🎯 Kết nối: LDPlayer-1 | Port: 127.0.0.1:5557");
}

#[test]
fn adb_requests_are_framed() {
    assert_eq!(devices_request(), b"000chost:devices".to_vec());
    assert_eq!(frame_request(""), b"0000".to_vec());
    let c = AdbClient::connect_server("127.0.0.1", 5037).unwrap();
    assert_eq!(c.host(), "127.0.0.1");
    assert_eq!(c.port(), 5037);
    let call = c.tap("127.0.0.1:5555", 120, -3);
    assert_eq!(call.host, "127.0.0.1");
    assert_eq!(call.port, 5037);
    assert_eq!(call.transport, b"001dhost:transport:127.0.0.1:5555".to_vec());
    assert_eq!(call.command, b"0016shell:input tap 120 -3".to_vec());
    let long = "a".repeat(70000);
    let framed = frame_request(&long);
    assert_eq!(&framed[0..5], b"11170");
    assert_eq!(framed.len(), 5 + 70000);
}

#[test]
fn adb_reply_lengths_and_serials() {
    assert_eq!(reply_length(b"001a"), 26);
    assert_eq!(reply_length(b"FFFF"), 65535);
    assert_eq!(reply_length(b"+0ab"), 171);
    assert_eq!(reply_length(b"00 1"), 0);
    assert_eq!(reply_length(b"-001"), 0);
    assert_eq!(
        device_serials("127.0.0.1:5555\tdevice\nemulator-5556 offline\n\n   \n  xyz  \n"),
        vec!["127.0.0.1:5555".to_string(), "emulator-5556".to_string(), "xyz".to_string()]
    );
}

#[test]
fn template_test_parameters() {
    assert_eq!(template_test_params("seeds/carrot.png", 960, 25), (12, Some(480)));
    assert_eq!(template_test_params("buttons/apple_strict.png", 960, 25), (12, None));
    assert_eq!(template_test_params("buttons/gift.png", 958, 30), (30, None));
    assert_eq!(template_test_params("seeds/x.png", 958, 30), (12, Some(479)));
}

#[test]
fn template_test_runs_on_the_given_screen_size() {
    let tpl: Vec<u8> = (0..10 * 10 * 3).map(|i| ((i * 7) % 200 + 30) as u8).collect();
    let t = cached(10, 10, tpl.clone());
    let w = 100usize;
    let h = 60usize;
    let mut screen = vec![100u8; w * h * 4];
    for y in 0..10 {
        for x in 0..10 {
            let s = ((20 + y) * w + 45 + x) * 4;
            let p = (y * 10 + x) * 3;
            screen[s..s + 3].copy_from_slice(&tpl[p..p + 3]);
        }
    }
    assert_eq!(test_one_template("buttons/x.png", &t, &screen, w as u32, h as u32, 25), Some((50, 25, 0)));
    assert_eq!(test_one_template("seeds/x.png", &t, &screen, w as u32, h as u32, 25), None);
}

#[test]
fn template_test_lines() {
    assert_eq!(
        found_line("buttons/ok.png", 100, 50, 200, 100, 3),
        "[TIM THAY] buttons/ok.png -> scaled: (100, 50), goc: (200, 100) | Score: 3"
    );
    assert_eq!(not_found_line("buttons/ok.png"), "[KHONG THAY] buttons/ok.png");
    assert_eq!(all_templates_summary(2, 5, 40), "===== HOAN THANH: Tim thay 2/5 anh mau | Tong: 40ms =====");
    assert_eq!(all_templates_summary(1, 2, 7), "===== HOAN THANH: Tim thay 1/2 anh mau | Tong: 7ms =====");
    assert_eq!(all_templates_summary(0, 0, 3), "===== HOAN THANH: Tim thay 0/0 anh mau | Tong: 3ms =====");
    assert_eq!(template_key("seeds/digits", "7.png"), "seeds/digits/7.png");
    assert_eq!(template_categories(true), vec!["buttons", "seeds", "seeds/digits", "tools"]);
    assert_eq!(template_categories(false), vec!["buttons", "seeds", "seeds/digits"]);
}

#[test]
fn digit_test_reports() {
    let mut store = TemplateStore::new();
    store.insert("seeds/digits/3.png".to_string(), cached(8, 12, vec![0; 8 * 12 * 3]));
    store.insert("seeds/digits/1.png".to_string(), cached(7, 12, vec![0; 7 * 12 * 3]));
    let sizes = digit_template_sizes(&store);
    assert_eq!(sizes, "1:7x12, 3:8x12");
    assert_eq!(
        digit_test_message(300, Some(25), &sizes, "T"),
        "[TEST SỐ] Vùng Y quét: 300 | Nhận dạng: 25 hạt | Kích thước ảnh mẫu: [1:7x12, 3:8x12]\nT"
    );
    assert_eq!(
        digit_test_message(30, None, "", "T"),
        "[TEST SỐ] Vùng Y quét: 30 | KHÔNG NHẬN DẠNG ĐƯỢC CHỮ SỐ NÀO trong vùng 120x35 (x: 420..540, y: 0..20) | Kích thước ảnh mẫu: []\nT"
    );
    let slider = Located { key: "buttons/slider.png".to_string(), x: 400, y: 300, w: 30, h: 21, score: 0, cx: 415, cy: 310 };
    assert_eq!(digit_test_row(&Some(slider)), 310);
    assert_eq!(digit_test_row(&None), 340);
}

#[test]
fn names_are_sorted_by_code_point() {
    let names = vec![
        "seeds/tomato.png".to_string(),
        "seeds/apple.png".to_string(),
        "seeds/Zucchini.png".to_string(),
        "seeds/apple.png".to_string(),
        "seeds/app.png".to_string(),
        "seeds/ớt.png".to_string(),
    ];
    let mut expected = names.clone();
    expected.sort();
    assert_eq!(sort_names(names), expected);
    assert!(sort_names(Vec::new()).is_empty());
}

#[test]
fn store_reads_back_what_was_stored() {
    let mut store = TemplateStore::new();
    assert!(store.is_empty());
    store.insert("buttons/a.png".to_string(), cached(2, 2, vec![1; 12]));
    store.insert("buttons/b.png".to_string(), cached(3, 2, vec![2; 18]));
    store.insert("buttons/a.png".to_string(), cached(4, 2, vec![3; 24]));
    assert_eq!(store.len(), 2);
    assert_eq!(store.keys(), vec!["buttons/a.png".to_string(), "buttons/b.png".to_string()]);
    assert_eq!(store.get("buttons/a.png").unwrap().dimensions, (4, 2));
    assert_eq!(store.get("buttons/b.png").unwrap().dimensions, (3, 2));
    assert!(store.get("buttons/c.png").is_none());
}

#[test]
fn searchability_checks() {
    let mut store = TemplateStore::new();
    store.insert("buttons/gift.png".to_string(), cached(10, 10, vec![0; 300]));
    let full = 960 * 540 * 4;
    assert!(store.is_searchable("buttons/gift.png", full, 25, None));
    assert!(!store.is_searchable("buttons/gift.png", full - 1, 25, None));
    assert!(store.is_scannable("buttons/gift.png", full, 25, None));
    assert!(store.is_scannable("buttons/none.png", 0, 25, None));
    // A one-pixel-high template cannot be scanned.
    store.insert("buttons/line.png".to_string(), cached(10, 1, vec![0; 30]));
    assert!(!store.is_searchable("buttons/line.png", full, 25, None));
    // A key after the category must have a one-byte character: `buttons/é_gift.png` does not.
    store.insert("buttonsé_gift.png".to_string(), cached(10, 10, vec![0; 300]));
    assert!(!store.is_searchable("buttons/gift.png", full, 25, None));
    let route = onefarm::shop::ShopRoute::tool_shop();
    let empty = TemplateStore::new();
    assert!(route.can_be_searched(&empty, 0, 25));
}

#[test]
fn purchases_settle_into_the_done_list_and_totals() {
    let mut done: Vec<String> = Vec::new();
    let mut totals = Tally::new();
    settle_purchase("seeds/apple.png", PurchaseOutcome::Bought(7), &mut done, &mut totals);
    settle_purchase("seeds/corn.png", PurchaseOutcome::OutOfStock, &mut done, &mut totals);
    settle_purchase("seeds/kiwi.png", PurchaseOutcome::NoSlider, &mut done, &mut totals);
    settle_purchase("seeds/pear.png", PurchaseOutcome::NoConfirm, &mut done, &mut totals);
    assert_eq!(done, vec!["seeds/apple.png".to_string(), "seeds/corn.png".to_string()]);
    assert_eq!(totals.entries(), vec![("seeds/apple.png".to_string(), 7)]);
}

#[test]
fn window_geometry() {
    assert!(!grabber_stale(960, 540, 960, 540));
    assert!(grabber_stale(1280, 720, 960, 540));
    assert!(!grabber_stale(0, 720, 960, 540));
    assert!(!resize_needed(963, 537));
    assert!(resize_needed(964, 540));
    assert!(resize_needed(960, 536));
    assert!(resize_needed(965, 540));
    assert!(resize_needed(960, 535));
    let win = (100, 50, 1100, 650);
    let ren = (108, 90, 1068, 630);
    assert!(window_size_fits(win, ren));
    assert_eq!(window_size_for_render(win, ren), (1000, 600));
    assert!(!window_size_fits((i32::MIN, 0, i32::MAX, 10), (0, 0, 1, 1)));
}

#[test]
fn digit_templates_must_be_scannable() {
    let mut store = TemplateStore::new();
    store.insert("seeds/digits/4.png".to_string(), cached(8, 12, vec![0; 8 * 12 * 3]));
    assert!(digits_readable(&store, 300));
    store.insert("seeds/digits/7.png".to_string(), cached(1, 12, vec![0; 12 * 3]));
    assert!(!digits_readable(&store, 300));
    // Above a slider at row 5 there is no strip to scan.
    assert!(digits_readable(&store, 5));
}

#[test]
fn template_test_preconditions() {
    let t = cached(10, 10, vec![0; 300]);
    assert!(test_can_run_check("buttons/x.png", &t, 100 * 60 * 4, 100, 60, 25));
    assert!(!test_can_run_check("buttons/x.png", &t, 100 * 60 * 4 - 1, 100, 60, 25));
    let big = cached(200, 10, vec![0; 6000]);
    assert!(test_can_run_check("buttons/big.png", &big, 0, 100, 60, 25));
}

#[test]
fn screen_png_round_trips_through_the_template_decoder() {
    let rgba = vec![10u8, 20, 30, 255, 40, 50, 60, 255, 70, 80, 90, 255, 100, 110, 120, 255];
    // 2 x 2 is far from 960 x 540, so the image is first resized.
    let png = screen_png(2, 2, rgba.clone()).unwrap();
    assert_eq!(&png[1..4], b"PNG");
    let t = template_from_png(&png).unwrap();
    assert_eq!(t.dimensions, (960, 540));
    assert_eq!(t.data.len(), 960 * 540 * 3);
    assert_eq!(&t.data[0..3], &[10, 20, 30]);
    assert!(template_from_png(b"not a png").is_none());
}

#[test]
fn near_base_screens_are_encoded_unchanged() {
    let mut rgba = vec![0u8; 958 * 538 * 4];
    rgba[0] = 200;
    rgba[3] = 255;
    let png = screen_png(958, 538, rgba).unwrap();
    let t = template_from_png(&png).unwrap();
    assert_eq!(t.dimensions, (958, 538));
    assert_eq!(&t.data[0..3], &[200, 0, 0]);
}
