//! A personal time tracker built around the Pomodoro technique.
//!
//! Tasks are worked in timed sessions. At most one timer runs at any moment;
//! completing a work session appends a record to an append-only ledger, and
//! the day's task list and the statistics are computed from that ledger with
//! day boundaries taken in a fixed time zone offset.

pub mod calendar;
pub mod cli;
pub mod clock;
pub mod command;
pub mod common;
pub mod config;
pub mod lane;
pub mod meter;
pub mod order;
pub mod pomodoro;
pub mod priority;
pub mod public;
pub mod repository;
pub mod session;
pub mod stats;
pub mod task;
pub mod text;
pub mod timer;
pub mod todo;
