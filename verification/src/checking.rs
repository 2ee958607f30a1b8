//! The decisions of the seed check, which scrolls once through the seed list and
//! records, for every seed template, where it was found with the lowest score.
use vstd::prelude::*;
use crate::text::{decimal, signed_decimal, string_from_chars};
use crate::templates::{TemplateStore, TemplateView, lookup, spec_find_on_screen, screen_scan_ok};
use crate::utils::{center, center_coord, push_str, push_decimal, push_signed};
use crate::buying::{ITEM_THRESHOLD, LIST_SCAN_W, Swipe, swipe_for, last_seed_key, first_seed_key};

verus! {

/// Where the template stored under exactly `key` is found in the left half of the
/// screen: its centre and score.
pub open spec fn seed_find(e: Seq<(Seq<char>, TemplateView)>, key: Seq<char>, screen: Seq<u8>) -> Option<(int, int, int)> {
    match lookup(e, key) {
        Some(tv) => match spec_find_on_screen(screen, tv, ITEM_THRESHOLD as int, Some(LIST_SCAN_W)) {
            Some(f) => Some((center(f.0, tv.width as int), center(f.1, tv.height as int), f.2)),
            None => None,
        },
        None => None,
    }
}

/// The template stored under `key` can be scanned in the left half of the screen.
pub open spec fn seed_scannable(e: Seq<(Seq<char>, TemplateView)>, key: Seq<char>, screen_len: int) -> bool {
    lookup(e, key) matches Some(tv) ==> screen_scan_ok(screen_len, tv, ITEM_THRESHOLD as int, Some(LIST_SCAN_W))
}

/// Finds the seed stored under exactly `key` in the left half of the screen: its
/// centre and score.
pub fn find_seed(templates: &TemplateStore, screen_rgba: &[u8], key: &str) -> (r: Option<(i32, i32, u32)>)
    requires
        seed_scannable(templates@, key@, screen_rgba@.len() as int),
    ensures
        match r {
            Some((x, y, s)) => seed_find(templates@, key@, screen_rgba@) == Some((x as int, y as int, s as int)),
            None => seed_find(templates@, key@, screen_rgba@) is None,
        },
{
    match templates.find_template_exact(screen_rgba, key, ITEM_THRESHOLD, Some(LIST_SCAN_W)) {
        Some((x, y, score)) => {
            let t = templates.get(key).unwrap();
            let (w, h) = t.dimensions;
            Some((center_coord(x, w), center_coord(y, h), score))
        },
        None => None,
    }
}

/// The record after a new find: the find replaces the record when there is none or
/// when its score is lower.
pub open spec fn better(old: Option<(i32, i32, u32)>, cand: (i32, i32, u32)) -> Option<(i32, i32, u32)> {
    match old {
        None => Some(cand),
        Some(o) => if cand.2 < o.2 { Some(cand) } else { old },
    }
}

/// The record of a seed keeps the lowest score seen, and the first find among equal scores.
pub proof fn lemma_better_keeps_lowest(old: Option<(i32, i32, u32)>, cand: (i32, i32, u32))
    ensures
        better(old, cand) matches Some(b) && b.2 <= cand.2,
        old matches Some(o) ==> better(old, cand).unwrap().2 <= o.2,
        better(old, cand) == Some(cand) || better(old, cand) == old,
        old matches Some(o) && cand.2 >= o.2 ==> better(old, cand) == old,
{
}

/// Records the find of seed `i` (stored under `key`) on this screen, keeping the
/// find with the lowest score.
pub fn check_seed(
    templates: &TemplateStore,
    screen_rgba: &[u8],
    key: &str,
    best: &mut Vec<Option<(i32, i32, u32)>>,
    i: usize,
)
    requires
        i < old(best)@.len(),
        seed_scannable(templates@, key@, screen_rgba@.len() as int),
    ensures
        final(best)@ == old(best)@.update(
            i as int,
            match seed_find(templates@, key@, screen_rgba@) {
                Some(c) => better(old(best)@[i as int], (c.0 as i32, c.1 as i32, c.2 as u32)),
                None => old(best)@[i as int],
            },
        ),
{
    match find_seed(templates, screen_rgba, key) {
        Some(c) => {
            let cur = best[i];
            let next = match cur {
                None => Some(c),
                Some(o) => if c.2 < o.2 { Some(c) } else { cur },
            };
            best.set(i, next);
        },
        None => {},
    }
}

/// What the seed check does after a round: `None` when, going up, the first seed
/// shows again (the seed check is complete); otherwise the new direction (`true` for down).
pub open spec fn check_direction(down: bool, last_seen: bool, first_seen: bool) -> Option<bool> {
    if !down && first_seen {
        None
    } else if down {
        Some(!last_seen)
    } else {
        Some(false)
    }
}

/// Decides the scroll after a round of the seed check: `None` when the check is
/// complete; otherwise the new direction and the swipe, which follows it.
pub fn check_list_scroll(templates: &TemplateStore, screen_rgba: &[u8], down: bool) -> (r: Option<(bool, Swipe)>)
    requires
        seed_scannable(templates@, last_seed_key(), screen_rgba@.len() as int),
        seed_scannable(templates@, first_seed_key(), screen_rgba@.len() as int),
    ensures
        match r {
            Some((d, s)) => check_direction(
                down,
                seed_find(templates@, last_seed_key(), screen_rgba@) is Some,
                seed_find(templates@, first_seed_key(), screen_rgba@) is Some,
            ) == Some(d) && s == swipe_for(d),
            None => check_direction(
                down,
                seed_find(templates@, last_seed_key(), screen_rgba@) is Some,
                seed_find(templates@, first_seed_key(), screen_rgba@) is Some,
            ) is None,
        },
{
    proof {
        reveal_strlit("seeds/jujube.png");
        reveal_strlit("seeds/carrot.png");
    }
    let last = find_seed(templates, screen_rgba, "seeds/jujube.png").is_some();
    let first = find_seed(templates, screen_rgba, "seeds/carrot.png").is_some();
    if !down && first {
        None
    } else if down {
        let d = !last;
        Some((d, if d { Swipe::Down } else { Swipe::Up }))
    } else {
        Some((false, Swipe::Up))
    }
}

/// The number of records present.
pub open spec fn records_found(s: Seq<Option<(i32, i32, u32)>>) -> nat
    decreases s.len(),
{
    if s.len() == 0 {
        0
    } else {
        records_found(s.drop_last()) + if s.last() is Some { 1nat } else { 0nat }
    }
}

/// How many seeds were found.
pub fn found_count(best: &Vec<Option<(i32, i32, u32)>>) -> (n: usize)
    ensures
        n == records_found(best@),
{
    let mut n: usize = 0;
    let mut i: usize = 0;
    while i < best.len()
        invariant
            i <= best@.len(),
            n == records_found(best@.subrange(0, i as int)),
            n <= i,
        decreases best@.len() - i,
    {
        assert(best@.subrange(0, i as int + 1).drop_last() =~= best@.subrange(0, i as int));
        if best[i].is_some() {
            n = n + 1;
        }
        i = i + 1;
    }
    assert(best@.subrange(0, best@.len() as int) =~= best@);
    n
}

/// The report line of one seed.
pub open spec fn seed_line_text(key: Seq<char>, r: Option<(i32, i32, u32)>) -> Seq<char> {
    match r {
        Some((x, y, s)) => "[OK] "@ + key + " -> Toa do: ("@ + signed_decimal(x as int) + ", "@ + signed_decimal(y as int)
            + ") | Score: "@ + decimal(s as nat),
        None => "[LOI] "@ + key + " -> Khong tim thay tren man hinh!"@,
    }
}

/// The report line of one seed: where it was found and with which score, or that it was not found.
pub fn seed_line(key: &str, r: Option<(i32, i32, u32)>) -> (line: String)
    ensures
        line@ == seed_line_text(key@, r),
{
    let mut out: Vec<char> = Vec::new();
    match r {
        Some((x, y, s)) => {
            push_str(&mut out, "[OK] ");
            push_str(&mut out, key);
            push_str(&mut out, " -> Toa do: (");
            push_signed(&mut out, x as i64);
            push_str(&mut out, ", ");
            push_signed(&mut out, y as i64);
            push_str(&mut out, ") | Score: ");
            push_decimal(&mut out, s as u128);
        },
        None => {
            push_str(&mut out, "[LOI] ");
            push_str(&mut out, key);
            push_str(&mut out, " -> Khong tim thay tren man hinh!");
        },
    }
    assert(out@ =~= seed_line_text(key@, r));
    string_from_chars(out.as_slice())
}

/// The closing line of the seed check.
pub open spec fn seed_summary_text(found: nat, total: nat) -> Seq<char> {
    "===== HOAN THANH: Tim thay "@ + decimal(found) + "/"@ + decimal(total) + " anh mau hat giong ====="@
}

/// The closing line of the seed check: how many of the seed templates were found.
pub fn seed_summary(found: usize, total: usize) -> (line: String)
    ensures
        line@ == seed_summary_text(found as nat, total as nat),
{
    let mut out: Vec<char> = Vec::new();
    push_str(&mut out, "===== HOAN THANH: Tim thay ");
    push_decimal(&mut out, found as u128);
    push_str(&mut out, "/");
    push_decimal(&mut out, total as u128);
    push_str(&mut out, " anh mau hat giong =====");
    assert(out@ =~= seed_summary_text(found as nat, total as nat));
    string_from_chars(out.as_slice())
}

} // verus!
