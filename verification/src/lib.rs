//! Core logic of a wage-and-activity tray timer: calendar arithmetic, workday
//! tables, overtime rules, activity/app/audio accounting and the reminder and
//! hover-card state machines. Money amounts are carried as an opaque type
//! parameter so that every decision here is exact integer logic.

pub mod activity;
pub mod app_usage;
pub mod audio_usage;
pub mod calc;
pub mod clock;
pub mod config;
pub mod date;
pub mod holiday;
pub mod insights;
pub mod lock_monitor;
pub mod maintain;
pub mod overtime;
pub mod pause;
pub mod remind;
pub mod remote;
pub mod scheduler;
pub mod tray;
pub mod weekbill;
pub mod win;
