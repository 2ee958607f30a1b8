use std::sync::Arc;

use onefarm::buying::{
    item_display_name, locate_item, purchase_line, purchase_quantity, remaining_after, seed_list_scroll,
    slider_click, tool_list_scroll, Swipe,
};
use onefarm::cancel::{cancel_message, check_and_clear_cancelled, CancelRequests};
use onefarm::checking::{check_list_scroll, check_seed, find_seed, found_count, seed_line, seed_summary};
use onefarm::harvest::{harvest_next, HarvestEnd, HarvestEvent, HarvestPhase, HarvestState};
use onefarm::buying::PurchaseOutcome;
use onefarm::purchase::{attempt_next, AttemptPhase, BuyEnd, BuyPhase, BuyState};
use onefarm::harvest::{sale_step, SaleStep};
use onefarm::login::{login_next, LoginStep};
use onefarm::config::AppConfig;
use onefarm::shop::{shop_step, ShopAction, ShopProgress, ShopRoute, ShopStage};
use onefarm::tally::Tally;
use onefarm::templates::{CachedTemplate, TemplateStore};

const W: usize = 960;
const H: usize = 540;

fn blank_screen(v: u8) -> Vec<u8> {
    let mut s = vec![v; W * H * 4];
    for p in 0..W * H {
        s[p * 4 + 3] = 255;
    }
    s
}

fn pattern(w: usize, h: usize, seed: usize) -> Vec<u8> {
    let mut t = Vec::with_capacity(w * h * 3);
    for y in 0..h {
        for x in 0..w {
            for c in 0..3usize {
                let mut v = (x as u64) * 0x9E37_79B9 ^ (y as u64) * 0x85EB_CA6B ^ (seed as u64) * 0xC2B2_AE35
                    ^ (c as u64) * 0x27D4_EB2F;
                v ^= v >> 15;
                v = v.wrapping_mul(0x2C1B_3C6D);
                v ^= v >> 12;
                v = v.wrapping_mul(0x297A_2D39);
                v ^= v >> 15;
                t.push((v % 200 + 30) as u8);
            }
        }
    }
    t
}

fn paste(screen: &mut [u8], tpl: &[u8], w: usize, h: usize, x0: usize, y0: usize) {
    for y in 0..h {
        for x in 0..w {
            let s = ((y0 + y) * W + x0 + x) * 4;
            let t = (y * w + x) * 3;
            screen[s] = tpl[t];
            screen[s + 1] = tpl[t + 1];
            screen[s + 2] = tpl[t + 2];
        }
    }
}

fn cached(w: u32, h: u32, data: Vec<u8>) -> CachedTemplate {
    CachedTemplate { dimensions: (w, h), data: Arc::new(data) }
}

fn step(s: HarvestState, ev: HarvestEvent) -> HarvestState {
    harvest_next(s, ev, 2, 2)
}

#[test]
fn harvest_cycle_with_fruit_left_repeats() {
    let mut s = HarvestState::start();
    assert_eq!(s.phase, HarvestPhase::OpenHarvest);
    s = step(s, HarvestEvent::Count(9));
    assert_eq!(s.phase, HarvestPhase::Harvest(1));
    s = step(s, HarvestEvent::Seen(true));
    assert_eq!(s.phase, HarvestPhase::Confirm(1));
    s = step(s, HarvestEvent::Seen(true));
    assert_eq!(s.phase, HarvestPhase::Harvest(2));
    assert_eq!(s.harvested, 1);
    s = step(s, HarvestEvent::Seen(true));
    s = step(s, HarvestEvent::Seen(true));
    assert_eq!(s.phase, HarvestPhase::CloseHarvest);
    assert_eq!(s.harvested, 2);
    s = step(s, HarvestEvent::Done);
    assert_eq!(s.phase, HarvestPhase::OpenShop);
    s = step(s, HarvestEvent::Done);
    assert_eq!(s.phase, HarvestPhase::Pick(1));
    s = step(s, HarvestEvent::Seen(true));
    assert_eq!(s.phase, HarvestPhase::Resolve(1));
    s = step(s, HarvestEvent::Seen(true));
    assert_eq!(s.phase, HarvestPhase::Pick(2));
    s = step(s, HarvestEvent::Seen(false));
    assert_eq!(s.phase, HarvestPhase::CloseShop);
    assert_eq!(s.sold, 1);
    s = step(s, HarvestEvent::Done);
    assert_eq!(s.cycle, 2);
    assert_eq!(s.phase, HarvestPhase::OpenHarvest);
    assert_eq!((s.harvested, s.sold, s.bag_full, s.more_fruit), (0, 0, false, true));
}

#[test]
fn harvest_with_only_locked_fruit_stops_without_selling() {
    let mut s = HarvestState::start();
    s = step(s, HarvestEvent::Count(7));
    assert_eq!(s.phase, HarvestPhase::CloseHarvest);
    assert!(!s.more_fruit && !s.bag_full);
    s = step(s, HarvestEvent::Done);
    assert_eq!(s.phase, HarvestPhase::Finished(HarvestEnd::NothingToSell));
    assert!(s.is_finished());
}

#[test]
fn harvest_without_confirmation_and_many_buttons_means_a_full_bag() {
    let mut s = HarvestState::start();
    s = step(s, HarvestEvent::Count(8));
    s = step(s, HarvestEvent::Seen(true));
    s = step(s, HarvestEvent::Seen(false));
    assert_eq!(s.phase, HarvestPhase::Recount);
    s = step(s, HarvestEvent::Count(12));
    assert_eq!(s.phase, HarvestPhase::CloseHarvest);
    assert!(s.bag_full && s.more_fruit);
    s = step(s, HarvestEvent::Done);
    assert_eq!(s.phase, HarvestPhase::OpenShop);
}

#[test]
fn harvest_without_harvest_button_ends_the_fruit() {
    let mut s = HarvestState::start();
    s = step(s, HarvestEvent::Count(8));
    s = step(s, HarvestEvent::Seen(false));
    assert_eq!(s.phase, HarvestPhase::CloseHarvest);
    assert!(!s.bag_full && !s.more_fruit);
}

#[test]
fn harvest_cycle_that_does_nothing_stops() {
    let mut s = HarvestState::start();
    s = step(s, HarvestEvent::Count(8));
    s = step(s, HarvestEvent::Seen(true));
    s = step(s, HarvestEvent::Seen(false));
    s = step(s, HarvestEvent::Count(9));
    s = step(s, HarvestEvent::Done);
    s = step(s, HarvestEvent::Done);
    s = step(s, HarvestEvent::Seen(false));
    assert_eq!(s.phase, HarvestPhase::CloseShop);
    s = step(s, HarvestEvent::Done);
    assert_eq!(s.phase, HarvestPhase::Finished(HarvestEnd::NoProgress));
}

#[test]
fn harvest_sold_out_after_last_fruit_completes() {
    let mut s = HarvestState::start();
    s = step(s, HarvestEvent::Count(8));
    s = step(s, HarvestEvent::Seen(true));
    s = step(s, HarvestEvent::Seen(true));
    s = step(s, HarvestEvent::Seen(false));
    assert!(!s.more_fruit);
    s = step(s, HarvestEvent::Done);
    s = step(s, HarvestEvent::Done);
    s = step(s, HarvestEvent::Seen(true));
    s = step(s, HarvestEvent::Seen(true));
    s = step(s, HarvestEvent::Seen(true));
    s = step(s, HarvestEvent::Seen(true));
    assert_eq!(s.phase, HarvestPhase::CloseShop);
    assert_eq!(s.sold, 2);
    s = step(s, HarvestEvent::Done);
    assert_eq!(s.phase, HarvestPhase::Finished(HarvestEnd::AllDone));
}

#[test]
fn harvest_stops_after_twenty_cycles() {
    let mut s = HarvestState::start();
    let mut steps = 0;
    while !s.is_finished() {
        let ev = match s.phase {
            HarvestPhase::OpenHarvest | HarvestPhase::Recount => HarvestEvent::Count(10),
            HarvestPhase::Harvest(_) | HarvestPhase::Confirm(_) | HarvestPhase::Pick(_) | HarvestPhase::Resolve(_) => {
                HarvestEvent::Seen(true)
            }
            _ => HarvestEvent::Done,
        };
        s = step(s, ev);
        steps += 1;
        assert!(steps <= 20 * (2 * 2 + 2 * 2 + 6));
    }
    assert_eq!(s.cycle, 20);
    assert_eq!(s.phase, HarvestPhase::Finished(HarvestEnd::CycleLimit));
}

#[test]
fn harvest_with_zero_rounds_goes_straight_to_closing() {
    let mut s = HarvestState::start();
    s = harvest_next(s, HarvestEvent::Count(10), 0, 0);
    assert_eq!(s.phase, HarvestPhase::CloseHarvest);
    assert!(s.more_fruit);
    s = harvest_next(s, HarvestEvent::Done, 0, 0);
    assert_eq!(s.phase, HarvestPhase::OpenShop);
    s = harvest_next(s, HarvestEvent::Done, 0, 0);
    assert_eq!(s.phase, HarvestPhase::CloseShop);
    s = harvest_next(s, HarvestEvent::Done, 0, 0);
    assert_eq!(s.phase, HarvestPhase::Finished(HarvestEnd::NoProgress));
}

fn shop_store() -> (TemplateStore, Vec<u8>, Vec<u8>, Vec<u8>, Vec<u8>) {
    let gift = pattern(14, 10, 31);
    let confirm = pattern(14, 10, 32);
    let npc = pattern(14, 10, 33);
    let walk = pattern(14, 10, 34);
    let mut store = TemplateStore::new();
    store.insert("buttons/gift.png".to_string(), cached(14, 10, gift.clone()));
    store.insert("buttons/open-seed-shop2.png".to_string(), cached(14, 10, confirm.clone()));
    store.insert("buttons/open-seed-shop.png".to_string(), cached(14, 10, npc.clone()));
    store.insert("buttons/seed-shop.png".to_string(), cached(14, 10, walk.clone()));
    (store, gift, confirm, npc, walk)
}

#[test]
fn shop_step_clicks_the_furthest_stage() {
    let (store, gift, confirm, npc, walk) = shop_store();
    let route = ShopRoute::seed_shop();
    let p0 = ShopProgress { npc_seen: false, confirm_seen: false };
    let mut screen = blank_screen(100);
    paste(&mut screen, &walk, 14, 10, 100, 100);
    let (p1, a1) = shop_step(&route, p0, &store, &screen, 25);
    match a1 {
        ShopAction::Press { stage, found, first } => {
            assert_eq!(stage, ShopStage::Walk);
            assert_eq!((found.cx, found.cy), (107, 105));
            assert!(first);
        }
        _ => panic!("expected a press"),
    }
    assert_eq!(p1, p0);

    paste(&mut screen, &npc, 14, 10, 200, 100);
    let (p2, a2) = shop_step(&route, p1, &store, &screen, 25);
    match a2 {
        ShopAction::Press { stage, found, first } => {
            assert_eq!(stage, ShopStage::Npc);
            assert_eq!(found.key, "buttons/open-seed-shop.png");
            assert!(first);
        }
        _ => panic!("expected a press"),
    }
    assert!(p2.npc_seen);
    let (_p3, a3) = shop_step(&route, p2, &store, &screen, 25);
    match a3 {
        ShopAction::Press { stage, first, .. } => {
            assert_eq!(stage, ShopStage::Npc);
            assert!(!first);
        }
        _ => panic!("expected a press"),
    }

    paste(&mut screen, &confirm, 14, 10, 300, 100);
    let (p4, a4) = shop_step(&route, p2, &store, &screen, 25);
    assert!(matches!(a4, ShopAction::Press { stage: ShopStage::Confirm, .. }));
    assert!(p4.confirm_seen);

    paste(&mut screen, &gift, 14, 10, 400, 100);
    let (p5, a5) = shop_step(&route, p4, &store, &screen, 25);
    assert!(matches!(a5, ShopAction::Opened));
    assert_eq!(p5, p4);
}

#[test]
fn shop_step_waits_on_an_unknown_screen() {
    let (store, ..) = shop_store();
    let route = ShopRoute::seed_shop();
    let p0 = ShopProgress { npc_seen: false, confirm_seen: false };
    let screen = blank_screen(100);
    let (p, a) = shop_step(&route, p0, &store, &screen, 25);
    assert!(matches!(a, ShopAction::Wait));
    assert_eq!(p, p0);
}

#[test]
fn exact_seed_shop_has_no_confirm_stage() {
    let (store, _gift, confirm, ..) = shop_store();
    let route = ShopRoute::seed_shop_exact();
    assert!(route.confirm.is_none());
    let p0 = ShopProgress { npc_seen: false, confirm_seen: false };
    let mut screen = blank_screen(100);
    paste(&mut screen, &confirm, 14, 10, 300, 100);
    let (_p, a) = shop_step(&route, p0, &store, &screen, 25);
    assert!(matches!(a, ShopAction::Wait));
}

#[test]
fn tool_shop_route_keys() {
    let r = ShopRoute::tool_shop();
    assert_eq!(r.opened, "buttons/close-seed.png");
    assert_eq!(r.confirm.as_deref(), Some("buttons/open-tool-shop2.png"));
    assert_eq!(r.npc, "buttons/open-tool-shop.png");
    assert_eq!(r.walk, "buttons/tool-shop.png");
}

#[test]
fn slider_click_mirrors_a_left_slider() {
    assert_eq!(slider_click(200, 320), Some((765, 320)));
    assert_eq!(slider_click(480, 300), Some((485, 300)));
    assert_eq!(slider_click(481, 300), None);
    assert_eq!(slider_click(0, 1), Some((965, 1)));
}

#[test]
fn remaining_targets_drop_the_done_ones() {
    let remaining = vec![
        "seeds/carrot.png".to_string(),
        "seeds/apple.png".to_string(),
        "seeds/carrot.png".to_string(),
        "seeds/corn.png".to_string(),
    ];
    let done = vec!["seeds/carrot.png".to_string()];
    assert_eq!(remaining_after(&remaining, &done), vec!["seeds/apple.png".to_string(), "seeds/corn.png".to_string()]);
    assert_eq!(remaining_after(&remaining, &vec![]), remaining);
}

#[test]
fn display_names_strip_category_and_extension() {
    assert_eq!(item_display_name("seeds/carrot.png", "seeds/"), "carrot");
    assert_eq!(item_display_name("tools/hoe.png", "tools/"), "hoe");
    assert_eq!(item_display_name("other/x.png", "seeds/"), "other/x");
    assert_eq!(item_display_name("seeds/readme", "seeds/"), "seeds/readme");
}

#[test]
fn purchase_lines() {
    assert_eq!(purchase_line("seeds/carrot.png", "seeds/", 12, "hạt"), "- Mua thanh cong: carrot x 12 hạt");
    assert_eq!(purchase_line("tools/hoe.png", "tools/", 1, "cái"), "- Mua thanh cong: hoe x 1 cái");
}

#[test]
fn list_scrolling() {
    assert_eq!(tool_list_scroll(true), (false, Swipe::Down));
    assert_eq!(tool_list_scroll(false), (true, Swipe::Up));
    assert_eq!(Swipe::Down.points(), (240, 400, 240, 150));
    assert_eq!(Swipe::Up.points(), (240, 150, 240, 450));

    let jujube = pattern(12, 12, 41);
    let carrot = pattern(12, 12, 42);
    let mut store = TemplateStore::new();
    store.insert("seeds/jujube.png".to_string(), cached(12, 12, jujube.clone()));
    store.insert("seeds/carrot.png".to_string(), cached(12, 12, carrot.clone()));
    let empty = blank_screen(100);
    assert_eq!(seed_list_scroll(&store, &empty, true), (true, Swipe::Down));
    assert_eq!(seed_list_scroll(&store, &empty, false), (false, Swipe::Up));
    let mut bottom = blank_screen(100);
    paste(&mut bottom, &jujube, 12, 12, 100, 400);
    assert_eq!(seed_list_scroll(&store, &bottom, true), (false, Swipe::Up));
    let mut top = blank_screen(100);
    paste(&mut top, &carrot, 12, 12, 100, 100);
    assert_eq!(seed_list_scroll(&store, &top, false), (true, Swipe::Down));
    // The list ends are only looked for in the left half.
    let mut right = blank_screen(100);
    paste(&mut right, &jujube, 12, 12, 700, 400);
    assert_eq!(seed_list_scroll(&store, &right, true), (true, Swipe::Down));

    assert_eq!(check_list_scroll(&store, &empty, true), Some((true, Swipe::Down)));
    assert_eq!(check_list_scroll(&store, &bottom, true), Some((false, Swipe::Up)));
    assert_eq!(check_list_scroll(&store, &empty, false), Some((false, Swipe::Up)));
    assert_eq!(check_list_scroll(&store, &top, false), None);
    assert_eq!(check_list_scroll(&store, &top, true), Some((true, Swipe::Down)));
}

#[test]
fn items_are_found_in_the_left_half_only() {
    let item = pattern(16, 16, 50);
    let mut store = TemplateStore::new();
    store.insert("seeds/apple.png".to_string(), cached(16, 16, item.clone()));
    let mut screen = blank_screen(100);
    paste(&mut screen, &item, 16, 16, 600, 100);
    assert!(locate_item(&store, &screen, "seeds/apple.png").is_none());
    paste(&mut screen, &item, 16, 16, 100, 200);
    let l = locate_item(&store, &screen, "seeds/apple.png").unwrap();
    assert_eq!((l.x, l.y, l.cx, l.cy, l.score), (100, 200, 108, 208, 0));
}

#[test]
fn quantity_defaults_to_one() {
    let store = TemplateStore::new();
    let screen = blank_screen(20);
    assert_eq!(purchase_quantity(&store, &screen, 300), 1);
}

#[test]
fn seed_check_keeps_the_lowest_score() {
    let seed = pattern(10, 10, 60);
    let mut store = TemplateStore::new();
    store.insert("seeds/apple.png".to_string(), cached(10, 10, seed.clone()));
    let mut best: Vec<Option<(i32, i32, u32)>> = vec![None, None];
    let mut screen = blank_screen(100);
    // A slightly changed copy first: a positive score.
    let mut faint = seed.clone();
    for b in faint.iter_mut() {
        *b += 3;
    }
    paste(&mut screen, &faint, 10, 10, 50, 60);
    check_seed(&store, &screen, "seeds/apple.png", &mut best, 0);
    assert_eq!(best[0], Some((55, 65, 3)));
    let mut exact = blank_screen(100);
    paste(&mut exact, &seed, 10, 10, 150, 160);
    check_seed(&store, &exact, "seeds/apple.png", &mut best, 0);
    assert_eq!(best[0], Some((155, 165, 0)));
    check_seed(&store, &screen, "seeds/apple.png", &mut best, 0);
    assert_eq!(best[0], Some((155, 165, 0)));
    check_seed(&store, &exact, "seeds/missing.png", &mut best, 1);
    assert_eq!(best[1], None);
    assert_eq!(found_count(&best), 1);
    assert_eq!(find_seed(&store, &exact, "seeds/apple.png"), Some((155, 165, 0)));
}

#[test]
fn seed_check_report() {
    assert_eq!(seed_line("seeds/apple.png", Some((55, 65, 3))), "[OK] seeds/apple.png -> Toa do: (55, 65) | Score: 3");
    assert_eq!(seed_line("seeds/kiwi.png", None), "[LOI] seeds/kiwi.png -> Khong tim thay tren man hinh!");
    assert_eq!(seed_summary(3, 5), "===== HOAN THANH: Tim thay 3/5 anh mau hat giong =====");
}

#[test]
fn tally_adds_and_merges() {
    let mut totals = Tally::new();
    totals.add("seeds/carrot.png", 5);
    totals.add("seeds/apple.png", 2);
    totals.add("seeds/carrot.png", 7);
    assert_eq!(totals.get("seeds/carrot.png"), 12);
    assert_eq!(totals.get("seeds/apple.png"), 2);
    assert_eq!(totals.get("seeds/corn.png"), 0);
    assert_eq!(
        totals.entries(),
        vec![("seeds/carrot.png".to_string(), 12), ("seeds/apple.png".to_string(), 2)]
    );

    let mut history = Tally::new();
    history.add("seeds/apple.png", 10);
    history.add("tools/hoe.png", 1);
    totals.merge_into(&mut history);
    assert_eq!(history.get("seeds/apple.png"), 12);
    assert_eq!(history.get("seeds/carrot.png"), 12);
    assert_eq!(history.get("tools/hoe.png"), 1);
    assert_eq!(history.len(), 3);
    history.clear();
    assert!(history.is_empty());
    assert_eq!(history.get("seeds/apple.png"), 0);
}

#[test]
fn cancel_requests_are_answered_once() {
    let mut requests = CancelRequests::new();
    assert!(!check_and_clear_cancelled(&mut requests, Some(42)));
    requests.request(42);
    requests.request(42);
    requests.request(7);
    assert!(!check_and_clear_cancelled(&mut requests, None));
    assert!(check_and_clear_cancelled(&mut requests, Some(42)));
    assert!(!check_and_clear_cancelled(&mut requests, Some(42)));
    assert!(requests.contains(7));
    assert!(requests.take(7));
    assert!(!requests.contains(7));
    assert_eq!(cancel_message(-12), "Da gui yeu cau dung cho thiet bi: -12");
}

#[test]
fn buying_run_with_nothing_to_buy_ends_at_once() {
    let run = BuyState::begin(vec![], 30);
    assert_eq!(run.phase(), BuyPhase::Finished(BuyEnd::NothingToBuy));
    let run = BuyState::begin(vec!["seeds/a.png".to_string()], 0);
    assert_eq!(run.phase(), BuyPhase::Finished(BuyEnd::RoundsUsed));
}

#[test]
fn buying_run_drops_done_targets_and_retries_the_rest() {
    let targets = vec!["seeds/a.png".to_string(), "seeds/b.png".to_string(), "seeds/c.png".to_string()];
    let mut run = BuyState::begin(targets, 30);
    assert_eq!(run.phase(), BuyPhase::Scan);
    assert_eq!(run.round(), 1);
    assert!(run.scrolling_down());
    run.scanned();
    assert_eq!(run.phase(), BuyPhase::Try(0));
    assert_eq!(run.current_target().unwrap(), "seeds/a.png");
    run.tried(Some(PurchaseOutcome::Bought(5)));
    assert_eq!(run.current_target().unwrap(), "seeds/b.png");
    run.tried(None);
    run.tried(Some(PurchaseOutcome::OutOfStock));
    assert_eq!(run.phase(), BuyPhase::Scroll);
    assert_eq!(run.remaining(), &vec!["seeds/b.png".to_string()]);
    run.scrolled(false);
    assert_eq!(run.phase(), BuyPhase::Scan);
    assert_eq!(run.round(), 2);
    assert!(!run.scrolling_down());
    run.scanned();
    run.tried(Some(PurchaseOutcome::NoSlider));
    assert_eq!(run.phase(), BuyPhase::Scroll);
    run.scrolled(false);
    run.scanned();
    run.tried(Some(PurchaseOutcome::Bought(2)));
    assert_eq!(run.phase(), BuyPhase::Finished(BuyEnd::AllBought));
    let totals = run.into_totals();
    assert_eq!(totals.entries(), vec![("seeds/a.png".to_string(), 5), ("seeds/b.png".to_string(), 2)]);
}

#[test]
fn buying_run_stops_when_the_rounds_are_used() {
    let mut run = BuyState::begin(vec!["tools/hoe.png".to_string()], 2);
    let mut steps = 0;
    loop {
        match run.phase() {
            BuyPhase::Scan => run.scanned(),
            BuyPhase::Try(_) => run.tried(Some(PurchaseOutcome::NoConfirm)),
            BuyPhase::Scroll => {
                let d = !run.scrolling_down();
                run.scrolled(d)
            }
            BuyPhase::Finished(end) => {
                assert_eq!(end, BuyEnd::RoundsUsed);
                break;
            }
        }
        steps += 1;
    }
    assert_eq!(steps, 6);
    assert_eq!(run.round(), 2);
    assert!(run.totals().is_empty());
}

fn attempt_store() -> (TemplateStore, Vec<u8>, Vec<u8>, Vec<u8>, Vec<u8>) {
    let sell = pattern(16, 10, 61);
    let slider = pattern(10, 10, 62);
    let two = pattern(8, 12, 20);
    let five = pattern(8, 12, 45);
    let mut store = TemplateStore::new();
    store.insert("buttons/sell-produce.png".to_string(), cached(16, 10, sell.clone()));
    store.insert("buttons/slider.png".to_string(), cached(10, 10, slider.clone()));
    store.insert("seeds/digits/2.png".to_string(), cached(8, 12, two.clone()));
    store.insert("seeds/digits/5.png".to_string(), cached(8, 12, five.clone()));
    (store, sell, slider, two, five)
}

#[test]
fn purchase_attempt_buys_the_quantity_read() {
    let (store, sell, slider, two, five) = attempt_store();
    let empty = blank_screen(20);
    let r = attempt_next(&store, AttemptPhase::AwaitSell, Some(&empty), 25);
    assert_eq!((r.next, r.click), (AttemptPhase::AwaitSell, None));
    assert!(r.found.is_none());

    let mut modal = blank_screen(20);
    paste(&mut modal, &sell, 16, 10, 600, 400);
    let r = attempt_next(&store, AttemptPhase::AwaitSell, Some(&modal), 25);
    assert_eq!((r.next, r.click), (AttemptPhase::AwaitSlider, Some((608, 405))));
    assert_eq!(r.found.unwrap().key, "buttons/sell-produce.png");

    let mut with_slider = blank_screen(20);
    paste(&mut with_slider, &slider, 10, 10, 200, 300);
    let r = attempt_next(&store, AttemptPhase::AwaitSlider, Some(&with_slider), 25);
    assert_eq!((r.next, r.click), (AttemptPhase::AwaitConfirm(305), Some((760, 305))));

    let mut right_slider = blank_screen(20);
    paste(&mut right_slider, &slider, 10, 10, 700, 300);
    let r = attempt_next(&store, AttemptPhase::AwaitSlider, Some(&right_slider), 25);
    assert_eq!((r.next, r.click), (AttemptPhase::AwaitConfirm(305), None));

    let mut confirm = blank_screen(20);
    paste(&mut confirm, &sell, 16, 10, 600, 400);
    paste(&mut confirm, &two, 8, 12, 450, 265);
    paste(&mut confirm, &five, 8, 12, 470, 265);
    let r = attempt_next(&store, AttemptPhase::AwaitConfirm(305), Some(&confirm), 25);
    assert_eq!((r.next, r.click), (AttemptPhase::Ended(PurchaseOutcome::Bought(25)), Some((608, 405))));

    let mut unread = blank_screen(20);
    paste(&mut unread, &sell, 16, 10, 600, 400);
    let r = attempt_next(&store, AttemptPhase::AwaitConfirm(305), Some(&unread), 25);
    assert_eq!(r.next, AttemptPhase::Ended(PurchaseOutcome::Bought(1)));
}

#[test]
fn purchase_attempt_ends_where_a_step_shows_nothing() {
    let (store, _sell, _slider, _two, _five) = attempt_store();
    let empty = blank_screen(20);
    let r = attempt_next(&store, AttemptPhase::AwaitSell, None, 25);
    assert_eq!((r.next, r.click), (AttemptPhase::Ended(PurchaseOutcome::OutOfStock), None));
    let r = attempt_next(&store, AttemptPhase::AwaitSlider, Some(&empty), 25);
    assert_eq!((r.next, r.click), (AttemptPhase::Ended(PurchaseOutcome::NoSlider), None));
    let r = attempt_next(&store, AttemptPhase::AwaitConfirm(305), Some(&empty), 25);
    assert_eq!((r.next, r.click), (AttemptPhase::Ended(PurchaseOutcome::NoConfirm), None));
    let r = attempt_next(&store, AttemptPhase::Ended(PurchaseOutcome::NoSlider), Some(&empty), 25);
    assert_eq!((r.next, r.click), (AttemptPhase::Ended(PurchaseOutcome::NoSlider), None));
}

#[test]
fn sale_step_looks_for_the_confirmation_first() {
    let confirm = pattern(14, 10, 71);
    let ok = pattern(14, 10, 72);
    let mut store = TemplateStore::new();
    store.insert("buttons/confirm.png".to_string(), cached(14, 10, confirm.clone()));
    store.insert("buttons/ok.png".to_string(), cached(14, 10, ok.clone()));
    let mut screen = blank_screen(100);
    assert!(matches!(sale_step(&store, &screen, 25), SaleStep::Wait));
    paste(&mut screen, &ok, 14, 10, 100, 100);
    match sale_step(&store, &screen, 25) {
        SaleStep::Done(l) => assert_eq!((l.cx, l.cy), (107, 105)),
        _ => panic!("expected the ok button"),
    }
    paste(&mut screen, &confirm, 14, 10, 300, 300);
    match sale_step(&store, &screen, 25) {
        SaleStep::Confirm(l) => assert_eq!((l.key.as_str(), l.cx, l.cy), ("buttons/confirm.png", 307, 305)),
        _ => panic!("expected the confirmation"),
    }
}

#[test]
fn login_steps_launch_a_stopped_game() {
    let config = AppConfig::default();
    assert_eq!(login_next(&config, LoginStep::CheckGame, true), LoginStep::Ready);
    let mut step = LoginStep::CheckGame;
    let mut seen = Vec::new();
    while step != LoginStep::Ready {
        step = login_next(&config, step, false);
        seen.push(step);
    }
    assert_eq!(
        seen,
        vec![
            LoginStep::Launch,
            LoginStep::WaitLoad(60),
            LoginStep::Phone(30),
            LoginStep::GoHome(5),
            LoginStep::Settle(20),
            LoginStep::Ready
        ]
    );
    let mut quick = AppConfig::default();
    quick.game_launch_delay_secs = 2;
    quick.button_timeout_secs = 12;
    assert_eq!(login_next(&quick, LoginStep::Launch, false), LoginStep::WaitLoad(5));
    assert_eq!(login_next(&quick, LoginStep::Phone(30), false), LoginStep::GoHome(12));
}
