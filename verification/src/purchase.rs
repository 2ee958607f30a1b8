//! The round structure of the buying scripts, as a state machine.
//!
//! Each round captures the shop list once, tries every remaining target on that
//! screen in order, drops the targets bought or found out of stock, and scrolls. The
//! run ends when every target is done or the rounds are used up. The driver performs
//! the screen work of each phase and reports what happened.
use vstd::prelude::*;
use crate::buying::{PurchaseOutcome, string_views, not_done, remaining_after, settle_purchase};
use crate::tally::{Tally, count_of, tally_add, lemma_count_after_add};
use crate::buying::{slider_target, slider_click, purchase_quantity, bought_quantity};
use crate::templates::{TemplateStore, TemplateView, first_variant_found, searchable, lookup};
use crate::utils::{Located, locate, located_matches};
use crate::digits::{spec_recognize_number, digit_key, digit_template_ok, strip_height};

verus! {

/// Why a buying run ended.
#[derive(Clone, Copy, Debug, PartialEq, Eq, Structural)]
pub enum BuyEnd {
    /// The list of targets was empty.
    NothingToBuy,
    /// Every target was bought or found out of stock.
    AllBought,
    /// The rounds were used up.
    RoundsUsed,
}

/// What the driver does next.
#[derive(Clone, Copy, Debug, PartialEq, Eq, Structural)]
pub enum BuyPhase {
    /// Capture the shop list for a new round; report with `scanned`.
    Scan,
    /// Look for remaining target `i` on the round's screen and, where it is found, try
    /// to buy it; report with `tried`.
    Try(usize),
    /// Decide the direction and swipe the list; report with `scrolled`.
    Scroll,
    /// The run is over.
    Finished(BuyEnd),
}

/// The state of a buying run.
pub struct BuyState {
    remaining: Vec<String>,
    done: Vec<String>,
    totals: Tally,
    round: u32,
    max_rounds: u32,
    initial: usize,
    down: bool,
    phase: BuyPhase,
}

/// What the logic reads of a buying run.
#[verifier::ext_equal]
pub struct BuyView {
    pub remaining: Seq<Seq<char>>,
    pub done: Seq<Seq<char>>,
    pub totals: Seq<(Seq<char>, u32)>,
    pub round: int,
    pub max_rounds: int,
    pub initial: int,
    pub down: bool,
    pub phase: BuyPhase,
}

/// Removing the done targets leaves no more targets than there were.
pub proof fn lemma_not_done_len(s: Seq<Seq<char>>, done: Seq<Seq<char>>)
    ensures
        not_done(s, done).len() <= s.len(),
    decreases s.len(),
{
    if s.len() > 0 {
        lemma_not_done_len(s.drop_last(), done);
    }
}

/// The states a run can be in.
pub open spec fn buy_wf(v: BuyView) -> bool {
    &&& v.remaining.len() <= v.initial
    &&& 0 <= v.round <= v.max_rounds
    &&& match v.phase {
        BuyPhase::Scan => v.remaining.len() > 0 && v.done.len() == 0 && 1 <= v.round,
        BuyPhase::Try(i) => i < v.remaining.len() && 1 <= v.round,
        BuyPhase::Scroll => v.remaining.len() > 0 && v.done.len() == 0 && 1 <= v.round,
        BuyPhase::Finished(_) => true,
    }
}

/// An upper bound on the steps left in the run.
pub open spec fn buy_measure(v: BuyView) -> int {
    match v.phase {
        BuyPhase::Finished(_) => 0,
        BuyPhase::Scan => (v.max_rounds - v.round) * (v.initial + 3) + v.initial + 2,
        BuyPhase::Try(i) => (v.max_rounds - v.round) * (v.initial + 3) + v.initial + 1 - i,
        BuyPhase::Scroll => (v.max_rounds - v.round) * (v.initial + 3) + 1,
    }
}

/// The state in which a run on `targets` with `max_rounds` rounds starts.
pub open spec fn buy_start(targets: Seq<Seq<char>>, max_rounds: int) -> BuyView {
    BuyView {
        remaining: targets,
        done: Seq::empty(),
        totals: Seq::empty(),
        round: if targets.len() == 0 || max_rounds == 0 { 0 } else { 1 },
        max_rounds,
        initial: targets.len() as int,
        down: true,
        phase: if targets.len() == 0 {
            BuyPhase::Finished(BuyEnd::NothingToBuy)
        } else if max_rounds == 0 {
            BuyPhase::Finished(BuyEnd::RoundsUsed)
        } else {
            BuyPhase::Scan
        },
    }
}

/// The done list and totals after the attempt on `target` ended with `outcome` (where
/// the target was found).
pub open spec fn after_attempt(v: BuyView, target: Seq<char>, outcome: Option<PurchaseOutcome>) -> (Seq<Seq<char>>, Seq<(Seq<char>, u32)>) {
    match outcome {
        Some(PurchaseOutcome::Bought(q)) => (v.done.push(target), tally_add(v.totals, target, q)),
        Some(PurchaseOutcome::OutOfStock) => (v.done.push(target), v.totals),
        _ => (v.done, v.totals),
    }
}

/// The state after reporting the attempt on the current target.
pub open spec fn buy_tried(v: BuyView, outcome: Option<PurchaseOutcome>) -> BuyView {
    match v.phase {
        BuyPhase::Try(i) => {
            let (done, totals) = after_attempt(v, v.remaining[i as int], outcome);
            if i + 1 < v.remaining.len() {
                BuyView { done, totals, phase: BuyPhase::Try((i + 1) as usize), ..v }
            } else {
                let rest = not_done(v.remaining, done);
                BuyView {
                    remaining: rest,
                    done: Seq::empty(),
                    totals,
                    phase: if rest.len() == 0 { BuyPhase::Finished(BuyEnd::AllBought) } else { BuyPhase::Scroll },
                    ..v
                }
            }
        },
        _ => v,
    }
}

/// The state after scrolling with the new direction `down`.
pub open spec fn buy_scrolled(v: BuyView, down: bool) -> BuyView {
    if v.round >= v.max_rounds {
        BuyView { down, phase: BuyPhase::Finished(BuyEnd::RoundsUsed), ..v }
    } else {
        BuyView { down, round: v.round + 1, phase: BuyPhase::Scan, ..v }
    }
}

impl BuyState {
    /// What the logic reads of the run.
    pub closed spec fn bview(&self) -> BuyView {
        BuyView {
            remaining: string_views(self.remaining@),
            done: string_views(self.done@),
            totals: self.totals@,
            round: self.round as int,
            max_rounds: self.max_rounds as int,
            initial: self.initial as int,
            down: self.down,
            phase: self.phase,
        }
    }

    #[verifier::type_invariant]
    spec fn inv(self) -> bool {
        buy_wf(self.bview())
    }

    /// A run buying `targets`, in order, in at most `max_rounds` rounds.
    pub fn begin(targets: Vec<String>, max_rounds: u32) -> (r: Self)
        ensures
            r.bview() == buy_start(string_views(targets@), max_rounds as int),
    {
        let n = targets.len();
        let phase = if n == 0 {
            BuyPhase::Finished(BuyEnd::NothingToBuy)
        } else if max_rounds == 0 {
            BuyPhase::Finished(BuyEnd::RoundsUsed)
        } else {
            BuyPhase::Scan
        };
        let round: u32 = if n == 0 || max_rounds == 0 { 0 } else { 1 };
        let r = BuyState {
            remaining: targets,
            done: Vec::new(),
            totals: Tally::new(),
            round,
            max_rounds,
            initial: n,
            down: true,
            phase,
        };
        assert(r.bview() =~~= buy_start(string_views(targets@), max_rounds as int));
        r
    }

    /// What the driver does next.
    pub fn phase(&self) -> (r: BuyPhase)
        ensures
            r == self.bview().phase,
    {
        self.phase
    }

    /// The current round, from 1.
    pub fn round(&self) -> (r: u32)
        ensures
            r == self.bview().round,
    {
        self.round
    }

    /// Whether the list is being scrolled down.
    pub fn scrolling_down(&self) -> (r: bool)
        ensures
            r == self.bview().down,
    {
        self.down
    }

    /// The targets still to buy.
    pub fn remaining(&self) -> (r: &Vec<String>)
        ensures
            string_views(r@) == self.bview().remaining,
    {
        &self.remaining
    }

    /// The quantities bought so far.
    pub fn totals(&self) -> (r: &Tally)
        ensures
            r@ == self.bview().totals,
    {
        &self.totals
    }

    /// The quantities bought, ending the run's use.
    pub fn into_totals(self) -> (r: Tally)
        ensures
            r@ == self.bview().totals,
    {
        self.totals
    }

    /// The target to try now.
    pub fn current_target(&self) -> (r: Option<&String>)
        ensures
            match self.bview().phase {
                BuyPhase::Try(i) => r matches Some(t) && t@ == self.bview().remaining[i as int],
                _ => r is None,
            },
    {
        proof {
            use_type_invariant(self);
        }
        match self.phase {
            BuyPhase::Try(i) => {
                assert(string_views(self.remaining@)[i as int] == self.remaining@[i as int]@);
                Some(&self.remaining[i])
            },
            _ => None,
        }
    }

    /// The round's screen is captured: try the first remaining target.
    pub fn scanned(&mut self)
        requires
            old(self).bview().phase is Scan,
        ensures
            final(self).bview() == (BuyView { phase: BuyPhase::Try(0), ..old(self).bview() }),
            buy_measure(final(self).bview()) < buy_measure(old(self).bview()),
    {
        proof {
            use_type_invariant(&*self);
        }
        self.phase = BuyPhase::Try(0);
    }

    /// The attempt on the current target ended with `outcome` (`None` where it was not
    /// found on the round's screen).
    pub fn tried(&mut self, outcome: Option<PurchaseOutcome>)
        requires
            old(self).bview().phase is Try,
            outcome matches Some(PurchaseOutcome::Bought(q)) ==> count_of(
                old(self).bview().totals,
                old(self).bview().remaining[old(self).bview().phase->Try_0 as int],
            ) + q <= u32::MAX,
        ensures
            final(self).bview() == buy_tried(old(self).bview(), outcome),
            buy_measure(final(self).bview()) < buy_measure(old(self).bview()),
    {
        proof {
            use_type_invariant(&*self);
        }
        let ghost v = self.bview();
        let i = match self.phase {
            BuyPhase::Try(i) => i,
            _ => 0,
        };
        assert(string_views(self.remaining@)[i as int] == self.remaining@[i as int]@);
        let target = self.remaining[i].clone();
        let mut done = Vec::new();
        std::mem::swap(&mut done, &mut self.done);
        let mut totals = Tally::new();
        std::mem::swap(&mut totals, &mut self.totals);
        match outcome {
            Some(o) => {
                settle_purchase(target.as_str(), o, &mut done, &mut totals);
            },
            None => {},
        }
        let ghost (dv, tv) = after_attempt(v, v.remaining[i as int], outcome);
        assert(string_views(done@) == dv);
        assert(totals@ == tv) by {
            match outcome {
                Some(PurchaseOutcome::Bought(q)) => {},
                _ => {},
            }
        }
        if i + 1 < self.remaining.len() {
            self.done = done;
            self.totals = totals;
            self.phase = BuyPhase::Try(i + 1);
            assert(self.bview() =~~= buy_tried(v, outcome));
        } else {
            let rest = remaining_after(&self.remaining, &done);
            proof {
                lemma_not_done_len(v.remaining, dv);
            }
            if rest.len() == 0 {
                self.phase = BuyPhase::Finished(BuyEnd::AllBought);
            } else {
                self.phase = BuyPhase::Scroll;
            }
            self.remaining = rest;
            self.totals = totals;
            assert(self.bview() =~~= buy_tried(v, outcome));
        }
        assert((v.max_rounds - v.round) * (v.initial + 3) >= 0) by (nonlinear_arith)
            requires
                v.max_rounds >= v.round,
                v.initial >= 0,
        ;
    }

    /// The list was swiped; `down` is the new direction.
    pub fn scrolled(&mut self, down: bool)
        requires
            old(self).bview().phase is Scroll,
        ensures
            final(self).bview() == buy_scrolled(old(self).bview(), down),
            buy_measure(final(self).bview()) < buy_measure(old(self).bview()),
    {
        proof {
            use_type_invariant(&*self);
        }
        let ghost v = self.bview();
        self.down = down;
        if self.round >= self.max_rounds {
            self.phase = BuyPhase::Finished(BuyEnd::RoundsUsed);
        } else {
            self.round = self.round + 1;
            self.phase = BuyPhase::Scan;
        }
        assert(self.bview() =~~= buy_scrolled(v, down));
        assert((v.max_rounds - v.round - 1) * (v.initial + 3) + v.initial + 2 < (v.max_rounds - v.round) * (v.initial
            + 3) + 1) by (nonlinear_arith)
            requires
                v.initial >= 0,
        ;
    }
}

/// A run ends within `max_rounds * (n + 3)` steps for `n` targets: it starts at most
/// that far from its end, and every step brings it closer.
pub proof fn lemma_buy_start_bound(targets: Seq<Seq<char>>, max_rounds: int)
    requires
        max_rounds >= 0,
    ensures
        buy_wf(buy_start(targets, max_rounds)),
        buy_measure(buy_start(targets, max_rounds)) <= max_rounds * (targets.len() + 3),
{
    let v = buy_start(targets, max_rounds);
    if targets.len() > 0 && max_rounds > 0 {
        assert((max_rounds - 1) * (targets.len() + 3) + targets.len() + 2 <= max_rounds * (targets.len() + 3))
            by (nonlinear_arith)
            requires
                max_rounds >= 1,
        ;
    }
}

/// An attempt adds to the totals only the quantity it bought, and only under its
/// target's key.
pub proof fn lemma_tried_totals(v: BuyView, outcome: Option<PurchaseOutcome>, k: Seq<char>)
    requires
        buy_wf(v),
        v.phase is Try,
        tally_keys_ok(v),
        outcome matches Some(PurchaseOutcome::Bought(q)) ==> count_of(v.totals, v.remaining[v.phase->Try_0 as int]) + q
            <= u32::MAX,
    ensures
        count_of(buy_tried(v, outcome).totals, k) == count_of(v.totals, k) + match outcome {
            Some(PurchaseOutcome::Bought(q)) => if k == v.remaining[v.phase->Try_0 as int] { q as int } else { 0 },
            _ => 0,
        },
{
    let i = v.phase->Try_0;
    match outcome {
        Some(PurchaseOutcome::Bought(q)) => {
            lemma_count_after_add(v.totals, v.remaining[i as int], q, k);
        },
        _ => {},
    }
}

/// The totals hold no key twice.
pub open spec fn tally_keys_ok(v: BuyView) -> bool {
    crate::tally::tally_keys_distinct(v.totals)
}

} // verus!

verus! {

/// Where one attempt to buy a found item stands.
#[derive(Clone, Copy, Debug, PartialEq, Eq, Structural)]
pub enum AttemptPhase {
    /// The item was clicked; the buy button shows within half a second where the
    /// item is in stock. Report each screen, and `None` once the half second is over.
    AwaitSell,
    /// The buy button was clicked; report the screen a second later.
    AwaitSlider,
    /// The quantity slider, whose centre is at this row, was set; report the screen
    /// half a second later.
    AwaitConfirm(usize),
    /// The attempt is over.
    Ended(PurchaseOutcome),
}

/// What one look at the screen gives during a purchase attempt.
pub struct AttemptStep {
    /// The phase after this look.
    pub next: AttemptPhase,
    /// The button or slider found on this screen.
    pub found: Option<Located>,
    /// Where to click before the next look.
    pub click: Option<(i32, i32)>,
}

/// The key of the buy button, which also confirms the purchase.
pub open spec fn sell_button_key() -> Seq<char> {
    "buttons/sell-produce.png"@
}

/// The key of the quantity slider.
pub open spec fn slider_key() -> Seq<char> {
    "buttons/slider.png"@
}

/// The key searched for in a phase.
pub open spec fn attempt_key(phase: AttemptPhase) -> Seq<char> {
    match phase {
        AttemptPhase::AwaitSlider => slider_key(),
        _ => sell_button_key(),
    }
}

/// What a step may assume of the screen it is given: both buttons can be searched
/// for on it, and, where the slider was set and the confirm button shows, the digit
/// templates can be scanned above the slider and the quantity read there fits in a
/// `u32`.
pub open spec fn attempt_screen_ok(
    e: Seq<(Seq<char>, TemplateView)>,
    phase: AttemptPhase,
    screen: Seq<u8>,
    threshold: int,
) -> bool {
    &&& searchable(e, sell_button_key(), screen.len() as int, threshold, None)
    &&& searchable(e, slider_key(), screen.len() as int, threshold, None)
    &&& match phase {
        AttemptPhase::AwaitConfirm(row) => first_variant_found(e, sell_button_key(), screen, threshold, None, 0) is Some
            ==> {
            &&& forall|d: int|
                0 <= d < 10 ==> (lookup(e, #[trigger] digit_key(d)) matches Some(tv) ==> digit_template_ok(
                    tv,
                    strip_height(row as int),
                ))
            &&& spec_recognize_number(e, screen, row as int) matches Some(v) ==> v <= u32::MAX
        },
        _ => true,
    }
}

/// The step of a purchase attempt in `phase` on `screen` (`None`: the wait for the
/// buy button is over): the next phase and where to click, given the find of the
/// phase's key on the screen.
pub open spec fn attempt_spec(
    e: Seq<(Seq<char>, TemplateView)>,
    phase: AttemptPhase,
    screen: Option<Seq<u8>>,
    found: Option<Located>,
) -> (AttemptPhase, Option<(int, int)>) {
    match (phase, screen, found) {
        (AttemptPhase::Ended(o), _, _) => (AttemptPhase::Ended(o), None),
        (AttemptPhase::AwaitSell, None, _) => (AttemptPhase::Ended(PurchaseOutcome::OutOfStock), None),
        (AttemptPhase::AwaitSell, Some(_), None) => (AttemptPhase::AwaitSell, None),
        (AttemptPhase::AwaitSell, Some(_), Some(l)) => (AttemptPhase::AwaitSlider, Some((l.cx as int, l.cy as int))),
        (AttemptPhase::AwaitSlider, _, None) => (AttemptPhase::Ended(PurchaseOutcome::NoSlider), None),
        (AttemptPhase::AwaitSlider, _, Some(l)) => (
            AttemptPhase::AwaitConfirm(l.cy as usize),
            slider_target(l.cx as int, l.cy as int),
        ),
        (AttemptPhase::AwaitConfirm(_), _, None) => (AttemptPhase::Ended(PurchaseOutcome::NoConfirm), None),
        (AttemptPhase::AwaitConfirm(row), Some(s), Some(l)) => (
            AttemptPhase::Ended(PurchaseOutcome::Bought(bought_quantity(e, s, row as int) as u32)),
            Some((l.cx as int, l.cy as int)),
        ),
        (AttemptPhase::AwaitConfirm(_), None, Some(_)) => (phase, None),
    }
}

/// One look at the screen during an attempt to buy a found item: looks for the buy
/// button, then the quantity slider, then the confirm button, and says what to click
/// and how the attempt goes on or ends. Not seeing the buy button before the wait is
/// over means the item is out of stock; the quantity bought is the number read above
/// the slider once the confirm button shows.
pub fn attempt_next(templates: &TemplateStore, phase: AttemptPhase, screen: Option<&[u8]>, threshold: u32) -> (r: AttemptStep)
    requires
        screen is None ==> (phase is AwaitSell || phase is Ended),
        screen matches Some(s) ==> attempt_screen_ok(templates@, phase, s@, threshold as int),
    ensures
        match (phase, screen) {
            (AttemptPhase::Ended(_), _) | (_, None) => r.found is None,
            (_, Some(s)) => located_matches(
                r.found,
                first_variant_found(templates@, attempt_key(phase), s@, threshold as int, None, 0),
            ),
        },
        (r.next, match r.click {
            Some((x, y)) => Some((x as int, y as int)),
            None => None,
        }) == attempt_spec(templates@, phase, match screen {
            Some(s) => Some(s@),
            None => None,
        }, r.found),
{
    match phase {
        AttemptPhase::Ended(o) => AttemptStep { next: AttemptPhase::Ended(o), found: None, click: None },
        AttemptPhase::AwaitSell => match screen {
            None => AttemptStep { next: AttemptPhase::Ended(PurchaseOutcome::OutOfStock), found: None, click: None },
            Some(s) => {
                let found = locate(templates, s, "buttons/sell-produce.png", threshold, None);
                match found {
                    Some(l) => {
                        let click = Some((l.cx, l.cy));
                        AttemptStep { next: AttemptPhase::AwaitSlider, found: Some(l), click }
                    },
                    None => AttemptStep { next: AttemptPhase::AwaitSell, found: None, click: None },
                }
            },
        },
        AttemptPhase::AwaitSlider => {
            let s = screen.unwrap();
            let found = locate(templates, s, "buttons/slider.png", threshold, None);
            match found {
                Some(l) => {
                    let click = slider_click(l.cx, l.cy);
                    let row = l.cy as usize;
                    AttemptStep { next: AttemptPhase::AwaitConfirm(row), found: Some(l), click }
                },
                None => AttemptStep { next: AttemptPhase::Ended(PurchaseOutcome::NoSlider), found: None, click: None },
            }
        },
        AttemptPhase::AwaitConfirm(row) => {
            let s = screen.unwrap();
            let found = locate(templates, s, "buttons/sell-produce.png", threshold, None);
            match found {
                Some(l) => {
                    let q = purchase_quantity(templates, s, row);
                    let click = Some((l.cx, l.cy));
                    AttemptStep { next: AttemptPhase::Ended(PurchaseOutcome::Bought(q)), found: Some(l), click }
                },
                None => AttemptStep { next: AttemptPhase::Ended(PurchaseOutcome::NoConfirm), found: None, click: None },
            }
        },
    }
}

} // verus!
