//! The decisions of the buying scripts: finding items in the shop list, where to click
//! the quantity slider, the quantity bought, which targets remain, which way to
//! scroll, and the report lines.
use vstd::prelude::*;
use crate::text::{chars_of, chars_eq, has_prefix, has_suffix, starts_with_chars, ends_with_chars, chars_range,
    string_from_chars};
use crate::templates::{TemplateStore, TemplateView, first_variant_found, searchable, lookup};
use crate::utils::{Located, locate, located_matches, push_str, push_decimal};
use crate::digits::{recognize_number_above_slider, spec_recognize_number, digit_key, digit_template_ok, strip_height};
use crate::text::{decimal, owned};
use crate::tally::{Tally, count_of, tally_add};

verus! {

/// Matching threshold for the items of a shop list.
pub const ITEM_THRESHOLD: u32 = 12;

/// Matching threshold for the first and last seeds of the seed list.
pub const LIST_END_THRESHOLD: u32 = 18;

/// The shop list occupies the left half of the screen.
pub const LIST_SCAN_W: usize = 480;

/// Finds a shop-list item (or a variant) in the left half of the screen.
pub fn locate_item(templates: &TemplateStore, screen_rgba: &[u8], key: &str) -> (r: Option<Located>)
    requires
        searchable(templates@, key@, screen_rgba@.len() as int, ITEM_THRESHOLD as int, Some(LIST_SCAN_W)),
    ensures
        located_matches(r, first_variant_found(templates@, key@, screen_rgba@, ITEM_THRESHOLD as int, Some(LIST_SCAN_W), 0)),
{
    locate(templates, screen_rgba, key, ITEM_THRESHOLD, Some(LIST_SCAN_W))
}

/// Where to click to push the quantity slider to the maximum: the point mirrored
/// across the screen's middle, five pixels further right, when the slider's centre is
/// in the left half; nothing when it is already on the right (a single item in stock).
pub open spec fn slider_target(slider_x: int, slider_y: int) -> Option<(int, int)> {
    if slider_x <= 480 {
        Some((965 - slider_x, slider_y))
    } else {
        None
    }
}

/// The click that sets the quantity slider whose centre is `(slider_x, slider_y)` to the maximum.
pub fn slider_click(slider_x: i32, slider_y: i32) -> (r: Option<(i32, i32)>)
    requires
        slider_x >= 965 - i32::MAX,
    ensures
        match r {
            Some((x, y)) => slider_target(slider_x as int, slider_y as int) == Some((x as int, y as int)),
            None => slider_target(slider_x as int, slider_y as int) is None,
        },
{
    if slider_x <= 480 {
        Some((960 - slider_x + 5, slider_y))
    } else {
        None
    }
}

/// The quantity bought: the number read above the slider at row `slider_y`, or 1
/// where none can be read.
pub open spec fn bought_quantity(e: Seq<(Seq<char>, TemplateView)>, screen: Seq<u8>, slider_y: int) -> int {
    match spec_recognize_number(e, screen, slider_y) {
        Some(v) => v,
        None => 1,
    }
}

/// Reads the quantity about to be bought above the slider at row `slider_y`; 1 where
/// no digit can be read.
pub fn purchase_quantity(templates: &TemplateStore, screen_rgba: &[u8], slider_y: usize) -> (q: u32)
    requires
        forall|d: int|
            0 <= d < 10 ==> (lookup(templates@, #[trigger] digit_key(d)) matches Some(tv) ==> digit_template_ok(
                tv,
                strip_height(slider_y as int),
            )),
        spec_recognize_number(templates@, screen_rgba@, slider_y as int) matches Some(v) ==> v <= u32::MAX,
    ensures
        q == bought_quantity(templates@, screen_rgba@, slider_y as int),
{
    match recognize_number_above_slider(screen_rgba, templates, slider_y) {
        Some(v) => v,
        None => 1,
    }
}

/// The views of a list of strings.
pub open spec fn string_views(v: Seq<String>) -> Seq<Seq<char>> {
    v.map_values(|s: String| s@)
}

/// The targets of `s` that are not in `done`, in order.
pub open spec fn not_done(s: Seq<Seq<char>>, done: Seq<Seq<char>>) -> Seq<Seq<char>>
    decreases s.len(),
{
    if s.len() == 0 {
        Seq::empty()
    } else if done.contains(s.last()) {
        not_done(s.drop_last(), done)
    } else {
        not_done(s.drop_last(), done).push(s.last())
    }
}

/// A target remains after a round exactly when it was a target and was neither bought
/// nor found out of stock in the round.
pub proof fn lemma_not_done_members(s: Seq<Seq<char>>, done: Seq<Seq<char>>, k: Seq<char>)
    ensures
        not_done(s, done).contains(k) <==> (s.contains(k) && !done.contains(k)),
    decreases s.len(),
{
    if s.len() > 0 {
        lemma_not_done_members(s.drop_last(), done, k);
        let t = not_done(s.drop_last(), done);
        if s.contains(k) {
            let i = choose|i: int| 0 <= i < s.len() && s[i] == k;
            if i < s.len() - 1 {
                assert(s.drop_last()[i] == k);
            }
        }
        if s.drop_last().contains(k) {
            let i = choose|i: int| 0 <= i < s.drop_last().len() && s.drop_last()[i] == k;
            assert(s[i] == k);
        }
        if !done.contains(s.last()) {
            let n = t.push(s.last());
            if t.contains(k) {
                let i = choose|i: int| 0 <= i < t.len() && t[i] == k;
                assert(n[i] == k);
            }
            if n.contains(k) {
                let i = choose|i: int| 0 <= i < n.len() && n[i] == k;
                if i < t.len() {
                    assert(t[i] == k);
                }
            }
            assert(n[t.len() as int] == s.last());
        }
    }
}

/// Whether `k` is one of `done`.
fn listed(done: &Vec<String>, k: &[char]) -> (r: bool)
    ensures
        r == string_views(done@).contains(k@),
{
    let mut i: usize = 0;
    while i < done.len()
        invariant
            i <= done@.len(),
            forall|j: int| 0 <= j < i ==> done@[j]@ != k@,
        decreases done@.len() - i,
    {
        let d = chars_of(done[i].as_str());
        if chars_eq(d.as_slice(), k) {
            assert(string_views(done@)[i as int] == k@);
            return true;
        }
        i = i + 1;
    }
    assert forall|j: int| 0 <= j < string_views(done@).len() implies string_views(done@)[j] != k@ by {
        assert(string_views(done@)[j] == done@[j]@);
    }
    false
}

/// The targets still to buy after a round: those not bought or found out of stock in it.
pub fn remaining_after(remaining: &Vec<String>, done: &Vec<String>) -> (r: Vec<String>)
    ensures
        string_views(r@) == not_done(string_views(remaining@), string_views(done@)),
{
    let ghost dv = string_views(done@);
    let mut r: Vec<String> = Vec::new();
    let mut i: usize = 0;
    while i < remaining.len()
        invariant
            i <= remaining@.len(),
            dv == string_views(done@),
            string_views(r@) == not_done(string_views(remaining@.subrange(0, i as int)), dv),
        decreases remaining@.len() - i,
    {
        let k = chars_of(remaining[i].as_str());
        let ghost before = remaining@.subrange(0, i as int);
        let ghost after = remaining@.subrange(0, i as int + 1);
        assert(string_views(after).drop_last() =~= string_views(before));
        assert(string_views(after).last() == remaining@[i as int]@);
        if !listed(done, k.as_slice()) {
            r.push(remaining[i].clone());
            assert(string_views(r@) =~= not_done(string_views(before), dv).push(remaining@[i as int]@));
        }
        i = i + 1;
    }
    assert(remaining@.subrange(0, remaining@.len() as int) =~= remaining@);
    r
}

/// A swipe over the shop list.
#[derive(Clone, Copy, Debug, PartialEq, Eq, Structural)]
pub enum Swipe {
    /// Reveals the items further down: from (240, 400) to (240, 150).
    Down,
    /// Reveals the items further up: from (240, 150) to (240, 450).
    Up,
}

impl Swipe {
    /// The start and end points of the swipe, on the 960 x 540 screen.
    pub fn points(&self) -> (r: (i32, i32, i32, i32))
        ensures
            r == match self {
                Swipe::Down => (240i32, 400i32, 240i32, 150i32),
                Swipe::Up => (240i32, 150i32, 240i32, 450i32),
            },
    {
        match self {
            Swipe::Down => (240, 400, 240, 150),
            Swipe::Up => (240, 150, 240, 450),
        }
    }
}

/// The swipe that moves the list in direction `down`.
pub open spec fn swipe_for(down: bool) -> Swipe {
    if down { Swipe::Down } else { Swipe::Up }
}

/// The direction after a round of the seed list: going down, turn at the last seed;
/// going up, turn at the first.
pub open spec fn seed_direction(down: bool, last_seen: bool, first_seen: bool) -> bool {
    if down { !last_seen } else { first_seen }
}

/// The last seed of the seed list.
pub open spec fn last_seed_key() -> Seq<char> {
    "seeds/jujube.png"@
}

/// The first seed of the seed list.
pub open spec fn first_seed_key() -> Seq<char> {
    "seeds/carrot.png"@
}

/// Whether a seed-list end marker is found on the screen.
pub open spec fn list_end_seen(e: Seq<(Seq<char>, TemplateView)>, key: Seq<char>, screen: Seq<u8>) -> bool {
    first_variant_found(e, key, screen, LIST_END_THRESHOLD as int, Some(LIST_SCAN_W), 0) is Some
}

/// Decides the scroll after a round of the seed list: returns the new direction
/// (`true` for down) and the swipe to perform, which always follows the new direction.
pub fn seed_list_scroll(templates: &TemplateStore, screen_rgba: &[u8], down: bool) -> (r: (bool, Swipe))
    requires
        searchable(templates@, last_seed_key(), screen_rgba@.len() as int, LIST_END_THRESHOLD as int, Some(LIST_SCAN_W)),
        searchable(templates@, first_seed_key(), screen_rgba@.len() as int, LIST_END_THRESHOLD as int, Some(LIST_SCAN_W)),
    ensures
        r.0 == seed_direction(
            down,
            list_end_seen(templates@, last_seed_key(), screen_rgba@),
            list_end_seen(templates@, first_seed_key(), screen_rgba@),
        ),
        r.1 == swipe_for(r.0),
{
    proof {
        reveal_strlit("seeds/jujube.png");
        reveal_strlit("seeds/carrot.png");
    }
    let last = locate(templates, screen_rgba, "seeds/jujube.png", LIST_END_THRESHOLD, Some(LIST_SCAN_W)).is_some();
    let first = locate(templates, screen_rgba, "seeds/carrot.png", LIST_END_THRESHOLD, Some(LIST_SCAN_W)).is_some();
    let next = if down { !last } else { first };
    (next, if next { Swipe::Down } else { Swipe::Up })
}

/// Decides the scroll after a round of the tool list, which is short: swipe the way
/// the list is going, then turn.
pub fn tool_list_scroll(down: bool) -> (r: (bool, Swipe))
    ensures
        r.0 == !down,
        r.1 == swipe_for(down),
{
    (!down, if down { Swipe::Down } else { Swipe::Up })
}

/// The name shown for an item key: without the category prefix and the `.png`
/// suffix. Where the rest has no `.png` suffix, the whole key.
pub open spec fn display_name(key: Seq<char>, prefix: Seq<char>) -> Seq<char> {
    let rest = if has_prefix(key, prefix) { key.subrange(prefix.len() as int, key.len() as int) } else { key };
    if has_suffix(rest, ".png"@) {
        rest.subrange(0, rest.len() - 4)
    } else {
        key
    }
}

/// The name shown for the item `key` of category prefix `prefix` (such as `seeds/`).
pub fn item_display_name(key: &str, prefix: &str) -> (r: String)
    ensures
        r@ == display_name(key@, prefix@),
{
    proof {
        reveal_strlit(".png");
    }
    let k = chars_of(key);
    let p = chars_of(prefix);
    let rest = if starts_with_chars(k.as_slice(), p.as_slice()) {
        chars_range(k.as_slice(), p.len(), k.len())
    } else {
        chars_range(k.as_slice(), 0, k.len())
    };
    assert(k@.subrange(0, k@.len() as int) =~= k@);
    let png = chars_of(".png");
    if ends_with_chars(rest.as_slice(), png.as_slice()) {
        string_from_chars(chars_range(rest.as_slice(), 0, rest.len() - 4).as_slice())
    } else {
        string_from_chars(k.as_slice())
    }
}

/// The report line of one item bought.
pub open spec fn purchase_line_text(key: Seq<char>, prefix: Seq<char>, qty: nat, unit: Seq<char>) -> Seq<char> {
    "- Mua thanh cong: "@ + display_name(key, prefix) + " x "@ + decimal(qty) + " "@ + unit
}

/// The report line `- Mua thanh cong: <name> x <qty> <unit>` of one item bought.
pub fn purchase_line(key: &str, prefix: &str, qty: u32, unit: &str) -> (r: String)
    ensures
        r@ == purchase_line_text(key@, prefix@, qty as nat, unit@),
{
    let name = item_display_name(key, prefix);
    let mut out: Vec<char> = Vec::new();
    push_str(&mut out, "- Mua thanh cong: ");
    push_str(&mut out, name.as_str());
    push_str(&mut out, " x ");
    push_decimal(&mut out, qty as u128);
    push_str(&mut out, " ");
    push_str(&mut out, unit);
    assert(out@ =~= purchase_line_text(key@, prefix@, qty as nat, unit@));
    string_from_chars(out.as_slice())
}

/// Scan rounds of the seed list.
pub const SEED_ROUNDS: u32 = 30;

/// Scan rounds of the tool list.
pub const TOOL_ROUNDS: u32 = 10;

/// How the attempt to buy a target ended.
#[derive(Clone, Copy, Debug, PartialEq, Eq, Structural)]
pub enum PurchaseOutcome {
    /// Bought, in the quantity read.
    Bought(u32),
    /// The buy button did not show within half a second: out of stock.
    OutOfStock,
    /// The quantity slider did not show: the target is tried again next round.
    NoSlider,
    /// The confirm button did not show: the target is tried again next round.
    NoConfirm,
}

/// Records the outcome of an attempt to buy `target`: a bought or out-of-stock target
/// is done for this run, and a bought quantity is added to the totals.
pub fn settle_purchase(target: &str, outcome: PurchaseOutcome, done: &mut Vec<String>, totals: &mut Tally)
    requires
        outcome matches PurchaseOutcome::Bought(q) ==> count_of(old(totals)@, target@) + q <= u32::MAX,
    ensures
        string_views(final(done)@) == match outcome {
            PurchaseOutcome::Bought(_) | PurchaseOutcome::OutOfStock => string_views(old(done)@).push(target@),
            _ => string_views(old(done)@),
        },
        match outcome {
            PurchaseOutcome::Bought(q) => {
                &&& final(totals)@ == tally_add(old(totals)@, target@, q)
                &&& count_of(final(totals)@, target@) == count_of(old(totals)@, target@) + q
                &&& forall|k: Seq<char>| k != target@ ==> #[trigger] count_of(final(totals)@, k) == count_of(old(totals)@, k)
            },
            _ => final(totals)@ == old(totals)@,
        },
{
    match outcome {
        PurchaseOutcome::Bought(q) => {
            totals.add(target, q);
            done.push(owned(target));
            assert(string_views(done@) =~= string_views(old(done)@).push(target@));
        },
        PurchaseOutcome::OutOfStock => {
            done.push(owned(target));
            assert(string_views(done@) =~= string_views(old(done)@).push(target@));
        },
        _ => {},
    }
}

} // verus!
