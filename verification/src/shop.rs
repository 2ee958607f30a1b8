//! Opening a shop: a self-correcting loop that, on each screen, clicks the button of
//! the furthest stage reached until the shop's open marker shows.
//!
//! The stages are: walk to the NPC (`walk`), talk to the NPC (`npc`, where the
//! dialogue is skipped by clicking three times), and open the shop (`confirm`, for
//! shops that have that step). The driver captures the screen, asks `shop_step`,
//! performs the action, and stops when the shop is open or its time is up.
use vstd::prelude::*;
use crate::text::owned;
use crate::templates::{TemplateStore, TemplateView, lookup, spec_find_on_screen, first_variant_found, searchable};
use crate::utils::{Located, locate, located_matches};

verus! {

/// The buttons that lead into a shop, and how they are looked up.
pub struct ShopRoute {
    /// Shown once the shop is open.
    pub opened: String,
    /// Opens the shop after the NPC dialogue, for shops with that step.
    pub confirm: Option<String>,
    /// Starts the NPC dialogue.
    pub npc: String,
    /// Walks to the NPC.
    pub walk: String,
    /// Whether variants of the keys count (otherwise only the exact key).
    pub variants: bool,
}

/// The stage whose button is clicked.
#[derive(Clone, Copy, Debug, PartialEq, Eq, Structural)]
pub enum ShopStage {
    Walk,
    Npc,
    Confirm,
}

/// What the driver does with the current screen.
pub enum ShopAction {
    /// The shop is open.
    Opened,
    /// Click the centre of the found button (three times, 300 ms apart, at the NPC
    /// stage), then wait the click delay. `first` tells whether this stage is reached
    /// for the first time.
    Press { stage: ShopStage, found: Located, first: bool },
    /// Nothing to click: wait 300 ms.
    Wait,
}

/// Which stages have been reached so far.
#[derive(Clone, Copy, Debug, PartialEq, Eq, Structural)]
pub struct ShopProgress {
    pub npc_seen: bool,
    pub confirm_seen: bool,
}

/// What the logic reads of a route.
pub struct RouteView {
    pub opened: Seq<char>,
    pub confirm: Option<Seq<char>>,
    pub npc: Seq<char>,
    pub walk: Seq<char>,
    pub variants: bool,
}

impl ShopRoute {
    /// What the logic reads of the route.
    pub open spec fn rview(&self) -> RouteView {
        RouteView {
            opened: self.opened@,
            confirm: match self.confirm {
                Some(c) => Some(c@),
                None => None,
            },
            npc: self.npc@,
            walk: self.walk@,
            variants: self.variants,
        }
    }

    /// The seed shop, looked up with variants.
    pub fn seed_shop() -> (r: Self)
        ensures
            r.opened@ == "buttons/gift.png"@,
            r.confirm matches Some(c) && c@ == "buttons/open-seed-shop2.png"@,
            r.npc@ == "buttons/open-seed-shop.png"@,
            r.walk@ == "buttons/seed-shop.png"@,
            r.variants,
    {
        ShopRoute {
            opened: owned("buttons/gift.png"),
            confirm: Some(owned("buttons/open-seed-shop2.png")),
            npc: owned("buttons/open-seed-shop.png"),
            walk: owned("buttons/seed-shop.png"),
            variants: true,
        }
    }

    /// The tool shop, looked up with variants; its open marker is the close button.
    pub fn tool_shop() -> (r: Self)
        ensures
            r.opened@ == "buttons/close-seed.png"@,
            r.confirm matches Some(c) && c@ == "buttons/open-tool-shop2.png"@,
            r.npc@ == "buttons/open-tool-shop.png"@,
            r.walk@ == "buttons/tool-shop.png"@,
            r.variants,
    {
        ShopRoute {
            opened: owned("buttons/close-seed.png"),
            confirm: Some(owned("buttons/open-tool-shop2.png")),
            npc: owned("buttons/open-tool-shop.png"),
            walk: owned("buttons/tool-shop.png"),
            variants: true,
        }
    }

    /// The seed shop as the seed check opens it: exact keys, no confirm step.
    pub fn seed_shop_exact() -> (r: Self)
        ensures
            r.opened@ == "buttons/gift.png"@,
            r.confirm is None,
            r.npc@ == "buttons/open-seed-shop.png"@,
            r.walk@ == "buttons/seed-shop.png"@,
            !r.variants,
    {
        ShopRoute {
            opened: owned("buttons/gift.png"),
            confirm: None,
            npc: owned("buttons/open-seed-shop.png"),
            walk: owned("buttons/seed-shop.png"),
            variants: false,
        }
    }
}

/// The find of `key` on the screen: with variants, the first variant found; without,
/// the template stored under exactly `key`.
pub open spec fn find_key(
    e: Seq<(Seq<char>, TemplateView)>,
    key: Seq<char>,
    screen: Seq<u8>,
    threshold: int,
    variants: bool,
) -> Option<(Seq<char>, int, int, int, int, int)> {
    if variants {
        first_variant_found(e, key, screen, threshold, None, 0)
    } else {
        match lookup(e, key) {
            Some(tv) => match spec_find_on_screen(screen, tv, threshold, None) {
                Some(f) => Some((key, f.0, f.1, tv.width as int, tv.height as int, f.2)),
                None => None,
            },
            None => None,
        }
    }
}

/// The search for `key` can run.
pub open spec fn key_searchable(e: Seq<(Seq<char>, TemplateView)>, key: Seq<char>, screen_len: int, threshold: int, variants: bool) -> bool {
    if variants {
        searchable(e, key, screen_len, threshold, None)
    } else {
        lookup(e, key) matches Some(tv) ==> crate::templates::screen_scan_ok(screen_len, tv, threshold, None)
    }
}

/// Looks `key` up on the screen (with variants or exactly) and computes the centre to click.
pub fn find_key_on_screen(
    templates: &TemplateStore,
    screen_rgba: &[u8],
    key: &str,
    threshold: u32,
    variants: bool,
) -> (r: Option<Located>)
    requires
        key_searchable(templates@, key@, screen_rgba@.len() as int, threshold as int, variants),
    ensures
        located_matches(r, find_key(templates@, key@, screen_rgba@, threshold as int, variants)),
{
    if variants {
        locate(templates, screen_rgba, key, threshold, None)
    } else {
        match templates.find_template_exact(screen_rgba, key, threshold, None) {
            Some((x, y, score)) => {
                let t = templates.get(key).unwrap();
                let (w, h) = t.dimensions;
                let cx = crate::utils::center_coord(x, w);
                let cy = crate::utils::center_coord(y, h);
                Some(Located { key: owned(key), x, y, w, h, score, cx, cy })
            },
            None => None,
        }
    }
}

/// Every key of the route can be searched for.
pub open spec fn route_searchable(e: Seq<(Seq<char>, TemplateView)>, r: RouteView, screen_len: int, threshold: int) -> bool {
    &&& key_searchable(e, r.opened, screen_len, threshold, r.variants)
    &&& (r.confirm matches Some(c) ==> key_searchable(e, c, screen_len, threshold, r.variants))
    &&& key_searchable(e, r.npc, screen_len, threshold, r.variants)
    &&& key_searchable(e, r.walk, screen_len, threshold, r.variants)
}

/// The decision on one screen, as (stage pressed, its find) or the open marker seen
/// (`Ok(true)`) or nothing found (`Ok(false)`).
pub open spec fn shop_decision(
    e: Seq<(Seq<char>, TemplateView)>,
    r: RouteView,
    screen: Seq<u8>,
    threshold: int,
) -> Result<(ShopStage, (Seq<char>, int, int, int, int, int)), bool> {
    if find_key(e, r.opened, screen, threshold, r.variants) is Some {
        Err(true)
    } else if r.confirm is Some && find_key(e, r.confirm.unwrap(), screen, threshold, r.variants) is Some {
        Ok((ShopStage::Confirm, find_key(e, r.confirm.unwrap(), screen, threshold, r.variants).unwrap()))
    } else if find_key(e, r.npc, screen, threshold, r.variants) is Some {
        Ok((ShopStage::Npc, find_key(e, r.npc, screen, threshold, r.variants).unwrap()))
    } else if find_key(e, r.walk, screen, threshold, r.variants) is Some {
        Ok((ShopStage::Walk, find_key(e, r.walk, screen, threshold, r.variants).unwrap()))
    } else {
        Err(false)
    }
}

/// The progress after pressing at `stage`.
pub open spec fn progress_after(p: ShopProgress, stage: ShopStage) -> ShopProgress {
    match stage {
        ShopStage::Confirm => ShopProgress { confirm_seen: true, ..p },
        ShopStage::Npc => ShopProgress { npc_seen: true, ..p },
        ShopStage::Walk => p,
    }
}

/// Whether `stage` is reached for the first time.
pub open spec fn first_time(p: ShopProgress, stage: ShopStage) -> bool {
    match stage {
        ShopStage::Confirm => !p.confirm_seen,
        ShopStage::Npc => !p.npc_seen,
        ShopStage::Walk => true,
    }
}

/// The action and the progress match the decision.
pub open spec fn shop_step_matches(
    p: ShopProgress,
    out: (ShopProgress, ShopAction),
    d: Result<(ShopStage, (Seq<char>, int, int, int, int, int)), bool>,
) -> bool {
    match d {
        Err(true) => out.1 is Opened && out.0 == p,
        Err(false) => out.1 is Wait && out.0 == p,
        Ok((stage, f)) => match out.1 {
            ShopAction::Press { stage: s, found, first } => {
                &&& s == stage
                &&& located_matches(Some(found), Some(f))
                &&& first == first_time(p, stage)
                &&& out.0 == progress_after(p, stage)
            },
            _ => false,
        },
    }
}

/// Decides what to do on one screen while opening a shop: report it open if its
/// marker shows; otherwise click the button of the furthest stage found (confirm,
/// then NPC, then walk); otherwise wait.
pub fn shop_step(
    route: &ShopRoute,
    progress: ShopProgress,
    templates: &TemplateStore,
    screen_rgba: &[u8],
    threshold: u32,
) -> (out: (ShopProgress, ShopAction))
    requires
        route_searchable(templates@, route.rview(), screen_rgba@.len() as int, threshold as int),
    ensures
        shop_step_matches(progress, out, shop_decision(templates@, route.rview(), screen_rgba@, threshold as int)),
{
    let v = route.variants;
    if find_key_on_screen(templates, screen_rgba, route.opened.as_str(), threshold, v).is_some() {
        return (progress, ShopAction::Opened);
    }
    match &route.confirm {
        Some(c) => {
            match find_key_on_screen(templates, screen_rgba, c.as_str(), threshold, v) {
                Some(found) => {
                    let first = !progress.confirm_seen;
                    return (
                        ShopProgress { confirm_seen: true, ..progress },
                        ShopAction::Press { stage: ShopStage::Confirm, found, first },
                    );
                },
                None => {},
            }
        },
        None => {},
    }
    match find_key_on_screen(templates, screen_rgba, route.npc.as_str(), threshold, v) {
        Some(found) => {
            let first = !progress.npc_seen;
            return (ShopProgress { npc_seen: true, ..progress }, ShopAction::Press { stage: ShopStage::Npc, found, first });
        },
        None => {},
    }
    match find_key_on_screen(templates, screen_rgba, route.walk.as_str(), threshold, v) {
        Some(found) => (progress, ShopAction::Press { stage: ShopStage::Walk, found, first: true }),
        None => (progress, ShopAction::Wait),
    }
}

} // verus!

verus! {

/// Whether the search for `key` can run.
pub fn key_can_be_searched(
    templates: &TemplateStore,
    key: &str,
    screen_len: usize,
    threshold: u32,
    variants: bool,
) -> (r: bool)
    ensures
        r == key_searchable(templates@, key@, screen_len as int, threshold as int, variants),
{
    if variants {
        templates.is_searchable(key, screen_len, threshold, None)
    } else {
        templates.is_scannable(key, screen_len, threshold, None)
    }
}

impl ShopRoute {
    /// Whether every key of the route can be searched for on a screen of `screen_len` bytes.
    pub fn can_be_searched(&self, templates: &TemplateStore, screen_len: usize, threshold: u32) -> (r: bool)
        ensures
            r == route_searchable(templates@, self.rview(), screen_len as int, threshold as int),
    {
        let v = self.variants;
        let c = match &self.confirm {
            Some(c) => key_can_be_searched(templates, c.as_str(), screen_len, threshold, v),
            None => true,
        };
        key_can_be_searched(templates, self.opened.as_str(), screen_len, threshold, v) && c
            && key_can_be_searched(templates, self.npc.as_str(), screen_len, threshold, v)
            && key_can_be_searched(templates, self.walk.as_str(), screen_len, threshold, v)
    }
}

} // verus!
