//! The decisions of the harvest-and-sell script, as a state machine.
//!
//! One cycle goes home, opens the harvest panel, counts the single-harvest
//! buttons, harvests up to the configured number of rounds, closes the panel, then
//! walks to the farm shop and sells up to the configured number of rounds, and
//! closes the shop. The driver performs the screen work of each phase and reports
//! what it saw; `harvest_next` decides what comes next.
use vstd::prelude::*;
use crate::templates::{TemplateStore, first_variant_found, searchable};
use crate::utils::{Located, locate, located_matches};

verus! {

/// Fewer single-harvest buttons than this on the panel means that only locked fruit is left.
pub const MIN_FRUIT_BUTTONS: usize = 8;

/// The most cycles the script runs.
pub const MAX_CYCLES: u32 = 20;

/// Why the script stopped.
#[derive(Clone, Copy, Debug, PartialEq, Eq, Structural)]
pub enum HarvestEnd {
    /// Nothing was harvested, the bag is not full and no fruit is left: nothing to sell.
    NothingToSell,
    /// A whole cycle harvested nothing and sold nothing.
    NoProgress,
    /// The fruit is gone and the produce was sold.
    AllDone,
    /// The cycle limit was reached.
    CycleLimit,
}

/// What the driver does next.
#[derive(Clone, Copy, Debug, PartialEq, Eq, Structural)]
pub enum HarvestPhase {
    /// Go home, open the house management and the harvest panel, then report how many
    /// single-harvest buttons are on the panel.
    OpenHarvest,
    /// Harvest round `r`: look for the harvest button and click it; report whether it was found.
    Harvest(u32),
    /// After harvest round `r`: wait up to a second for the confirm button and click it;
    /// report whether it appeared.
    Confirm(u32),
    /// No confirmation came: report how many single-harvest buttons are left.
    Recount,
    /// Close the harvest panel; report when done.
    CloseHarvest,
    /// Walk to the farm shop and open it; report when done.
    OpenShop,
    /// Sell round `r`: click the select-all button if present; report whether it was.
    Pick(u32),
    /// Sell round `r`: click sell twice, then wait up to a second for confirm (then ok)
    /// or ok; report whether the sale went through.
    Resolve(u32),
    /// Close the shop and leave the NPC; report when done.
    CloseShop,
    /// The script is over.
    Finished(HarvestEnd),
}

/// What the driver saw in a phase.
#[derive(Clone, Copy, Debug, PartialEq, Eq, Structural)]
pub enum HarvestEvent {
    /// The number of single-harvest buttons counted.
    Count(usize),
    /// Whether the awaited button (or outcome) was seen.
    Seen(bool),
    /// The phase's clicks are done.
    Done,
}

/// The state of the script.
#[derive(Clone, Copy, Debug, PartialEq, Eq, Structural)]
pub struct HarvestState {
    /// The current cycle, from 1.
    pub cycle: u32,
    pub phase: HarvestPhase,
    /// Successful harvest rounds in this cycle.
    pub harvested: u32,
    /// Successful sell rounds in this cycle.
    pub sold: u32,
    /// The bag was found full.
    pub bag_full: bool,
    /// Unlocked fruit may be left on the trees.
    pub more_fruit: bool,
}

/// The event that each phase reports.
pub open spec fn event_fits(p: HarvestPhase, ev: HarvestEvent) -> bool {
    match p {
        HarvestPhase::OpenHarvest | HarvestPhase::Recount => ev is Count,
        HarvestPhase::Harvest(_) | HarvestPhase::Confirm(_) | HarvestPhase::Pick(_) | HarvestPhase::Resolve(_) => ev is Seen,
        HarvestPhase::CloseHarvest | HarvestPhase::OpenShop | HarvestPhase::CloseShop => ev is Done,
        HarvestPhase::Finished(_) => false,
    }
}

/// The states the script can be in, for `hr` harvest rounds and `sr` sell rounds per cycle.
pub open spec fn harvest_wf(s: HarvestState, hr: u32, sr: u32) -> bool {
    &&& 1 <= s.cycle <= MAX_CYCLES
    &&& s.harvested <= hr
    &&& s.sold <= sr
    &&& match s.phase {
        HarvestPhase::OpenHarvest => s.harvested == 0 && s.sold == 0 && !s.bag_full && s.more_fruit,
        HarvestPhase::Harvest(r) | HarvestPhase::Confirm(r) => 1 <= r <= hr && s.harvested == r - 1 && s.sold == 0,
        HarvestPhase::Recount | HarvestPhase::CloseHarvest | HarvestPhase::OpenShop => s.sold == 0,
        HarvestPhase::Pick(r) | HarvestPhase::Resolve(r) => 1 <= r <= sr && s.sold == r - 1,
        _ => true,
    }
}

/// The state in which the script starts.
pub open spec fn harvest_start() -> HarvestState {
    HarvestState {
        cycle: 1,
        phase: HarvestPhase::OpenHarvest,
        harvested: 0,
        sold: 0,
        bag_full: false,
        more_fruit: true,
    }
}

/// The next state after event `ev`, with `hr` harvest rounds and `sr` sell rounds per cycle.
pub open spec fn harvest_step(s: HarvestState, ev: HarvestEvent, hr: u32, sr: u32) -> HarvestState {
    match s.phase {
        HarvestPhase::OpenHarvest => match ev {
            HarvestEvent::Count(n) => if n < MIN_FRUIT_BUTTONS {
                HarvestState { phase: HarvestPhase::CloseHarvest, bag_full: false, more_fruit: false, ..s }
            } else if hr >= 1 {
                HarvestState { phase: HarvestPhase::Harvest(1), ..s }
            } else {
                HarvestState { phase: HarvestPhase::CloseHarvest, ..s }
            },
            _ => s,
        },
        HarvestPhase::Harvest(r) => match ev {
            HarvestEvent::Seen(found) => if found {
                HarvestState { phase: HarvestPhase::Confirm(r), ..s }
            } else {
                HarvestState { phase: HarvestPhase::CloseHarvest, bag_full: false, more_fruit: false, ..s }
            },
            _ => s,
        },
        HarvestPhase::Confirm(r) => match ev {
            HarvestEvent::Seen(found) => if found {
                let h = (s.harvested + 1) as u32;
                if r < hr {
                    HarvestState { phase: HarvestPhase::Harvest((r + 1) as u32), harvested: h, ..s }
                } else {
                    HarvestState { phase: HarvestPhase::CloseHarvest, harvested: h, ..s }
                }
            } else {
                HarvestState { phase: HarvestPhase::Recount, ..s }
            },
            _ => s,
        },
        HarvestPhase::Recount => match ev {
            HarvestEvent::Count(n) => if n < MIN_FRUIT_BUTTONS {
                HarvestState { phase: HarvestPhase::CloseHarvest, bag_full: false, more_fruit: false, ..s }
            } else {
                HarvestState { phase: HarvestPhase::CloseHarvest, bag_full: true, more_fruit: true, ..s }
            },
            _ => s,
        },
        HarvestPhase::CloseHarvest => if !s.bag_full && !s.more_fruit && s.harvested == 0 {
            HarvestState { phase: HarvestPhase::Finished(HarvestEnd::NothingToSell), ..s }
        } else {
            HarvestState { phase: HarvestPhase::OpenShop, ..s }
        },
        HarvestPhase::OpenShop => if sr >= 1 {
            HarvestState { phase: HarvestPhase::Pick(1), ..s }
        } else {
            HarvestState { phase: HarvestPhase::CloseShop, ..s }
        },
        HarvestPhase::Pick(r) => match ev {
            HarvestEvent::Seen(found) => if found {
                HarvestState { phase: HarvestPhase::Resolve(r), ..s }
            } else {
                HarvestState { phase: HarvestPhase::CloseShop, ..s }
            },
            _ => s,
        },
        HarvestPhase::Resolve(r) => match ev {
            HarvestEvent::Seen(done) => if done {
                let d = (s.sold + 1) as u32;
                if r < sr {
                    HarvestState { phase: HarvestPhase::Pick((r + 1) as u32), sold: d, ..s }
                } else {
                    HarvestState { phase: HarvestPhase::CloseShop, sold: d, ..s }
                }
            } else {
                HarvestState { phase: HarvestPhase::CloseShop, ..s }
            },
            _ => s,
        },
        HarvestPhase::CloseShop => if s.harvested == 0 && s.sold == 0 {
            HarvestState { phase: HarvestPhase::Finished(HarvestEnd::NoProgress), ..s }
        } else if !s.more_fruit {
            HarvestState { phase: HarvestPhase::Finished(HarvestEnd::AllDone), ..s }
        } else if s.cycle >= MAX_CYCLES {
            HarvestState { phase: HarvestPhase::Finished(HarvestEnd::CycleLimit), ..s }
        } else {
            HarvestState { cycle: (s.cycle + 1) as u32, ..harvest_start() }
        },
        HarvestPhase::Finished(_) => s,
    }
}

/// A sale is counted only when it is reported done. A sale reported as not gone
/// through closes the shop with every count unchanged; one reported done adds one
/// to the sold count. No other step changes that count, except the start of a new
/// cycle, which begins at zero. Closing the shop after a cycle that harvested and
/// sold nothing ends the script.
pub proof fn lemma_sales_counted_when_done(s: HarvestState, ev: HarvestEvent, hr: u32, sr: u32)
    requires
        harvest_wf(s, hr, sr),
    ensures
        s.phase is Resolve && ev == HarvestEvent::Seen(false) ==> harvest_step(s, ev, hr, sr) == (HarvestState {
            phase: HarvestPhase::CloseShop,
            ..s
        }),
        s.phase is Resolve && ev == HarvestEvent::Seen(true) ==> harvest_step(s, ev, hr, sr).sold == s.sold + 1,
        !(s.phase is Resolve) && !(harvest_step(s, ev, hr, sr).phase is OpenHarvest) ==> harvest_step(
            s,
            ev,
            hr,
            sr,
        ).sold == s.sold,
        harvest_step(s, ev, hr, sr).phase is OpenHarvest && !(s.phase is OpenHarvest) ==> harvest_step(
            s,
            ev,
            hr,
            sr,
        ).sold == 0,
        s.phase is CloseShop && s.harvested == 0 && s.sold == 0 ==> harvest_step(s, ev, hr, sr).phase
            == HarvestPhase::Finished(HarvestEnd::NoProgress),
{
}

/// An upper bound on the steps left in the current cycle.
pub open spec fn phase_measure(p: HarvestPhase, hr: u32, sr: u32) -> int {
    match p {
        HarvestPhase::OpenHarvest => 2 * sr + 2 * hr + 5,
        HarvestPhase::Harvest(r) => 2 * sr + 6 + 2 * (hr - r),
        HarvestPhase::Confirm(r) => 2 * sr + 5 + 2 * (hr - r),
        HarvestPhase::Recount => 2 * sr + 4,
        HarvestPhase::CloseHarvest => 2 * sr + 3,
        HarvestPhase::OpenShop => 2 * sr + 2,
        HarvestPhase::Pick(r) => 3 + 2 * (sr - r),
        HarvestPhase::Resolve(r) => 2 + 2 * (sr - r),
        HarvestPhase::CloseShop => 1,
        HarvestPhase::Finished(_) => 0,
    }
}

/// An upper bound on the steps left before the script finishes.
pub open spec fn harvest_measure(s: HarvestState, hr: u32, sr: u32) -> int {
    match s.phase {
        HarvestPhase::Finished(_) => 0,
        _ => (MAX_CYCLES - s.cycle) * (2 * sr + 2 * hr + 6) + phase_measure(s.phase, hr, sr),
    }
}

/// Every step of the script keeps it in a valid state and brings it closer to its end:
/// the script finishes after at most `20 * (2 * hr + 2 * sr + 6)` steps, and never runs
/// more than 20 cycles.
pub proof fn lemma_harvest_progress(s: HarvestState, ev: HarvestEvent, hr: u32, sr: u32)
    requires
        harvest_wf(s, hr, sr),
        event_fits(s.phase, ev),
    ensures
        harvest_wf(harvest_step(s, ev, hr, sr), hr, sr),
        0 <= harvest_measure(harvest_step(s, ev, hr, sr), hr, sr) < harvest_measure(s, hr, sr),
{
    let c = 2 * sr + 2 * hr + 6;
    let n = harvest_step(s, ev, hr, sr);
    assert((MAX_CYCLES - s.cycle) * c >= 0) by (nonlinear_arith)
        requires
            s.cycle <= MAX_CYCLES,
            c >= 0,
    ;
    if s.phase is CloseShop && n.phase is OpenHarvest {
        assert((MAX_CYCLES - s.cycle) * c == (MAX_CYCLES - n.cycle) * c + c) by (nonlinear_arith)
            requires
                n.cycle == s.cycle + 1,
        ;
    }
}

/// The script starts in a valid state, at most `20 * (2 * hr + 2 * sr + 6)` steps from its end.
pub proof fn lemma_harvest_start(hr: u32, sr: u32)
    ensures
        harvest_wf(harvest_start(), hr, sr),
        harvest_measure(harvest_start(), hr, sr) < MAX_CYCLES * (2 * sr + 2 * hr + 6),
{
    let c = 2 * sr + 2 * hr + 6;
    assert((MAX_CYCLES - 1) * c + (c - 1) < MAX_CYCLES * c) by (nonlinear_arith);
}

impl HarvestState {
    /// The state in which the script starts: cycle 1, about to open the harvest panel.
    pub fn start() -> (r: Self)
        ensures
            r == harvest_start(),
    {
        HarvestState {
            cycle: 1,
            phase: HarvestPhase::OpenHarvest,
            harvested: 0,
            sold: 0,
            bag_full: false,
            more_fruit: true,
        }
    }

    /// Whether the script is over.
    pub fn is_finished(&self) -> (r: bool)
        ensures
            r == (self.phase is Finished),
    {
        match self.phase {
            HarvestPhase::Finished(_) => true,
            _ => false,
        }
    }
}

/// The state after event `ev`, with `harvest_rounds` harvest rounds and `sell_rounds`
/// sell rounds per cycle.
pub fn harvest_next(s: HarvestState, ev: HarvestEvent, harvest_rounds: u32, sell_rounds: u32) -> (r: HarvestState)
    requires
        harvest_wf(s, harvest_rounds, sell_rounds),
        event_fits(s.phase, ev),
    ensures
        r == harvest_step(s, ev, harvest_rounds, sell_rounds),
        harvest_wf(r, harvest_rounds, sell_rounds),
        harvest_measure(r, harvest_rounds, sell_rounds) < harvest_measure(s, harvest_rounds, sell_rounds),
{
    proof {
        lemma_harvest_progress(s, ev, harvest_rounds, sell_rounds);
    }
    match s.phase {
        HarvestPhase::OpenHarvest => match ev {
            HarvestEvent::Count(n) => if n < MIN_FRUIT_BUTTONS {
                HarvestState { phase: HarvestPhase::CloseHarvest, bag_full: false, more_fruit: false, ..s }
            } else if harvest_rounds >= 1 {
                HarvestState { phase: HarvestPhase::Harvest(1), ..s }
            } else {
                HarvestState { phase: HarvestPhase::CloseHarvest, ..s }
            },
            _ => s,
        },
        HarvestPhase::Harvest(r) => match ev {
            HarvestEvent::Seen(found) => if found {
                HarvestState { phase: HarvestPhase::Confirm(r), ..s }
            } else {
                HarvestState { phase: HarvestPhase::CloseHarvest, bag_full: false, more_fruit: false, ..s }
            },
            _ => s,
        },
        HarvestPhase::Confirm(r) => match ev {
            HarvestEvent::Seen(found) => if found {
                let h = s.harvested + 1;
                if r < harvest_rounds {
                    HarvestState { phase: HarvestPhase::Harvest(r + 1), harvested: h, ..s }
                } else {
                    HarvestState { phase: HarvestPhase::CloseHarvest, harvested: h, ..s }
                }
            } else {
                HarvestState { phase: HarvestPhase::Recount, ..s }
            },
            _ => s,
        },
        HarvestPhase::Recount => match ev {
            HarvestEvent::Count(n) => if n < MIN_FRUIT_BUTTONS {
                HarvestState { phase: HarvestPhase::CloseHarvest, bag_full: false, more_fruit: false, ..s }
            } else {
                HarvestState { phase: HarvestPhase::CloseHarvest, bag_full: true, more_fruit: true, ..s }
            },
            _ => s,
        },
        HarvestPhase::CloseHarvest => if !s.bag_full && !s.more_fruit && s.harvested == 0 {
            HarvestState { phase: HarvestPhase::Finished(HarvestEnd::NothingToSell), ..s }
        } else {
            HarvestState { phase: HarvestPhase::OpenShop, ..s }
        },
        HarvestPhase::OpenShop => if sell_rounds >= 1 {
            HarvestState { phase: HarvestPhase::Pick(1), ..s }
        } else {
            HarvestState { phase: HarvestPhase::CloseShop, ..s }
        },
        HarvestPhase::Pick(r) => match ev {
            HarvestEvent::Seen(found) => if found {
                HarvestState { phase: HarvestPhase::Resolve(r), ..s }
            } else {
                HarvestState { phase: HarvestPhase::CloseShop, ..s }
            },
            _ => s,
        },
        HarvestPhase::Resolve(r) => match ev {
            HarvestEvent::Seen(done) => if done {
                let d = s.sold + 1;
                if r < sell_rounds {
                    HarvestState { phase: HarvestPhase::Pick(r + 1), sold: d, ..s }
                } else {
                    HarvestState { phase: HarvestPhase::CloseShop, sold: d, ..s }
                }
            } else {
                HarvestState { phase: HarvestPhase::CloseShop, ..s }
            },
            _ => s,
        },
        HarvestPhase::CloseShop => if s.harvested == 0 && s.sold == 0 {
            HarvestState { phase: HarvestPhase::Finished(HarvestEnd::NoProgress), ..s }
        } else if !s.more_fruit {
            HarvestState { phase: HarvestPhase::Finished(HarvestEnd::AllDone), ..s }
        } else if s.cycle >= MAX_CYCLES {
            HarvestState { phase: HarvestPhase::Finished(HarvestEnd::CycleLimit), ..s }
        } else {
            let next = HarvestState::start();
            HarvestState { cycle: s.cycle + 1, ..next }
        },
        HarvestPhase::Finished(_) => s,
    }
}

} // verus!

verus! {

/// What the screen shows after a sale was confirmed twice.
pub enum SaleStep {
    /// The shop asks for one more confirmation: click it here, then wait for the ok
    /// button.
    Confirm(Located),
    /// The sale went through: click the ok button here.
    Done(Located),
    /// Neither button shows yet.
    Wait,
}

/// The key of the extra confirmation button.
pub open spec fn confirm_key() -> Seq<char> {
    "buttons/confirm.png"@
}

/// The key of the ok button that closes a finished sale.
pub open spec fn ok_key() -> Seq<char> {
    "buttons/ok.png"@
}

/// Looks at the screen after a sale: the extra confirmation button is looked for
/// first, then the ok button.
pub fn sale_step(templates: &TemplateStore, screen_rgba: &[u8], threshold: u32) -> (r: SaleStep)
    requires
        searchable(templates@, confirm_key(), screen_rgba@.len() as int, threshold as int, None),
        searchable(templates@, ok_key(), screen_rgba@.len() as int, threshold as int, None),
    ensures
        match r {
            SaleStep::Confirm(l) => located_matches(
                Some(l),
                first_variant_found(templates@, confirm_key(), screen_rgba@, threshold as int, None, 0),
            ),
            SaleStep::Done(l) => {
                &&& first_variant_found(templates@, confirm_key(), screen_rgba@, threshold as int, None, 0) is None
                &&& located_matches(Some(l), first_variant_found(templates@, ok_key(), screen_rgba@, threshold as int, None, 0))
            },
            SaleStep::Wait => {
                &&& first_variant_found(templates@, confirm_key(), screen_rgba@, threshold as int, None, 0) is None
                &&& first_variant_found(templates@, ok_key(), screen_rgba@, threshold as int, None, 0) is None
            },
        },
{
    match locate(templates, screen_rgba, "buttons/confirm.png", threshold, None) {
        Some(c) => SaleStep::Confirm(c),
        None => match locate(templates, screen_rgba, "buttons/ok.png", threshold, None) {
            Some(k) => SaleStep::Done(k),
            None => SaleStep::Wait,
        },
    }
}

} // verus!
