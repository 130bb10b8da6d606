//! Process sandboxing: a policy of exceptions against a deny-all baseline.

pub mod env;
pub mod error;
pub mod exception;
pub mod flags;
mod host;
pub mod linux;
pub mod macos;
pub mod mount_plan;
pub mod order;
pub mod path;
