//! The persisted settings of the assistant, their defaults, and the effective values
//! that the scripts derive from them.
use vstd::prelude::*;

verus! {

/// Default seconds to wait for a button.
pub fn default_button_timeout_secs() -> (r: u64)
    ensures
        r == 5,
{
    5
}

/// Default milliseconds to wait after a click.
pub fn default_click_delay_ms() -> (r: u64)
    ensures
        r == 1000,
{
    1000
}

/// Default matching threshold (mean difference per pixel).
pub fn default_match_threshold() -> (r: u32)
    ensures
        r == 25,
{
    25
}

/// Default minutes between harvests.
pub fn default_harvest_interval_mins() -> (r: u64)
    ensures
        r == 30,
{
    30
}

/// Default number of harvest rounds per cycle.
pub fn default_harvest_loop_count() -> (r: u32)
    ensures
        r == 2,
{
    2
}

/// Default number of selling rounds per cycle.
pub fn default_sell_loop_count() -> (r: u32)
    ensures
        r == 2,
{
    2
}

/// Default seconds to wait after launching the game.
pub fn default_game_launch_delay_secs() -> (r: u64)
    ensures
        r == 60,
{
    60
}

/// Default of the on/off settings.
pub fn default_true() -> (r: bool)
    ensures
        r,
{
    true
}

/// The settings of the assistant.
#[derive(Clone, Debug)]
pub struct AppConfig {
    pub selected_seeds: Vec<String>,
    pub button_timeout_secs: u64,
    pub click_delay_ms: u64,
    pub match_threshold: u32,
    pub harvest_interval_mins: u64,
    pub harvest_loop_count: u32,
    pub sell_loop_count: u32,
    pub enable_buy_seeds: bool,
    pub enable_harvest_sell: bool,
    pub enable_auto_login: bool,
    pub game_launch_delay_secs: u64,
}

impl Default for AppConfig {
    fn default() -> (r: Self)
        ensures
            r.selected_seeds@.len() == 0,
            r.button_timeout_secs == 5,
            r.click_delay_ms == 1000,
            r.match_threshold == 25,
            r.harvest_interval_mins == 30,
            r.harvest_loop_count == 2,
            r.sell_loop_count == 2,
            r.enable_buy_seeds,
            r.enable_harvest_sell,
            r.enable_auto_login,
            r.game_launch_delay_secs == 60,
    {
        AppConfig {
            selected_seeds: Vec::new(),
            button_timeout_secs: 5,
            click_delay_ms: 1000,
            match_threshold: 25,
            harvest_interval_mins: 30,
            harvest_loop_count: 2,
            sell_loop_count: 2,
            enable_buy_seeds: true,
            enable_harvest_sell: true,
            enable_auto_login: true,
            game_launch_delay_secs: 60,
        }
    }
}

impl AppConfig {
    /// Seconds to wait for a button: the setting, or 5 where it is 0.
    pub fn effective_timeout_secs(&self) -> (r: u64)
        ensures
            r == if self.button_timeout_secs == 0 { 5 } else { self.button_timeout_secs },
    {
        if self.button_timeout_secs == 0 { 5 } else { self.button_timeout_secs }
    }

    /// Seconds allowed for opening a shop: the effective button timeout, at least 30.
    pub fn shop_timeout_secs(&self) -> (r: u64)
        ensures
            r == if self.effective_timeout_secs_spec() >= 30 { self.effective_timeout_secs_spec() } else { 30 },
    {
        let t = self.effective_timeout_secs();
        if t >= 30 { t } else { 30 }
    }

    /// Seconds to wait for a button: the setting, or 5 where it is 0.
    pub open spec fn effective_timeout_secs_spec(&self) -> u64 {
        if self.button_timeout_secs == 0 { 5 } else { self.button_timeout_secs }
    }

    /// The matching threshold: the setting, or 25 where it is 0.
    pub fn effective_threshold(&self) -> (r: u32)
        ensures
            r == if self.match_threshold == 0 { 25 } else { self.match_threshold },
    {
        if self.match_threshold == 0 { 25 } else { self.match_threshold }
    }

    /// Milliseconds to wait after a click: the setting, or 1000 where it is 0.
    pub fn effective_click_delay_ms(&self) -> (r: u64)
        ensures
            r == if self.click_delay_ms == 0 { 1000 } else { self.click_delay_ms },
    {
        if self.click_delay_ms == 0 { 1000 } else { self.click_delay_ms }
    }

    /// Seconds to wait after launching the game: the setting, at least 5.
    pub fn launch_delay_secs(&self) -> (r: u64)
        ensures
            r == if self.game_launch_delay_secs >= 5 { self.game_launch_delay_secs } else { 5 },
    {
        if self.game_launch_delay_secs >= 5 { self.game_launch_delay_secs } else { 5 }
    }

    /// Seconds to wait for the go-home button after logging in: the button timeout
    /// setting, at least 5.
    pub fn go_home_timeout_secs(&self) -> (r: u64)
        ensures
            r == if self.button_timeout_secs >= 5 { self.button_timeout_secs } else { 5 },
    {
        if self.button_timeout_secs >= 5 { self.button_timeout_secs } else { 5 }
    }
}

} // verus!
