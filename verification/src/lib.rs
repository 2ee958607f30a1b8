//! Screen matching, decision logic and wire formats of an auto-farming assistant for
//! an Android farming game running in the LDPlayer emulator.
pub mod text;
pub mod textsplit;
pub mod ordering;
pub mod matching;
pub mod recognize;
pub mod recognize_fast;
pub mod templates;
pub mod digits;
pub mod screen;
pub mod input;
pub mod utils;
pub mod config;
pub mod login;
pub mod tally;
pub mod cancel;
pub mod shop;
pub mod buying;
pub mod purchase;
pub mod checking;
pub mod harvest;
pub mod diagnostics;
pub mod device;
pub mod adb;
