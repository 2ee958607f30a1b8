//! Bringing the game up before a script runs: check that it is running, else launch
//! it, wait for it to load, open the phone, go home and wait for the character to
//! arrive. The driver performs each step; a step that fails ends the run.
use vstd::prelude::*;
use crate::config::AppConfig;

verus! {

/// A step of bringing the game up.
#[derive(Clone, Copy, Debug, PartialEq, Eq, Structural)]
pub enum LoginStep {
    /// Check whether the game is running.
    CheckGame,
    /// Launch the game.
    Launch,
    /// Wait this many seconds for the game to load.
    WaitLoad(u64),
    /// Find and click the phone button, looking for up to this many seconds.
    Phone(u64),
    /// Find and click the go-home button, looking for up to this many seconds.
    GoHome(u64),
    /// Wait this many seconds for the character to arrive home.
    Settle(u64),
    /// The game is ready for the script.
    Ready,
}

/// Seconds to wait after launching the game: the setting, at least 5.
pub open spec fn launch_wait(c: AppConfig) -> u64 {
    if c.game_launch_delay_secs >= 5 { c.game_launch_delay_secs } else { 5 }
}

/// Seconds to look for the go-home button: the button timeout, at least 5.
pub open spec fn go_home_wait(c: AppConfig) -> u64 {
    if c.button_timeout_secs >= 5 { c.button_timeout_secs } else { 5 }
}

/// The step after `step`, where `running` says whether the game was found running
/// (it matters only when checking).
pub open spec fn login_after(c: AppConfig, step: LoginStep, running: bool) -> LoginStep {
    match step {
        LoginStep::CheckGame => if running { LoginStep::Ready } else { LoginStep::Launch },
        LoginStep::Launch => LoginStep::WaitLoad(launch_wait(c)),
        LoginStep::WaitLoad(_) => LoginStep::Phone(30),
        LoginStep::Phone(_) => LoginStep::GoHome(go_home_wait(c)),
        LoginStep::GoHome(_) => LoginStep::Settle(20),
        LoginStep::Settle(_) | LoginStep::Ready => LoginStep::Ready,
    }
}

/// The step that follows `step` once it was performed.
pub fn login_next(config: &AppConfig, step: LoginStep, running: bool) -> (r: LoginStep)
    ensures
        r == login_after(*config, step, running),
{
    match step {
        LoginStep::CheckGame => if running { LoginStep::Ready } else { LoginStep::Launch },
        LoginStep::Launch => LoginStep::WaitLoad(config.launch_delay_secs()),
        LoginStep::WaitLoad(_) => LoginStep::Phone(30),
        LoginStep::Phone(_) => LoginStep::GoHome(config.go_home_timeout_secs()),
        LoginStep::GoHome(_) => LoginStep::Settle(20),
        LoginStep::Settle(_) | LoginStep::Ready => LoginStep::Ready,
    }
}

} // verus!
