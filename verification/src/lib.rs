//! Hat topology tooling.
//!
//! Hats subscribe to event topics and publish others ([`registry`], [`topic`]). A command
//! ([`args`], [`commands`]) lists or shows hats ([`listing`]), validates how they fit together
//! ([`validate`], [`instructions`], [`checks`]), draws them ([`graph`], [`diagram`], [`backend`]) or
//! lists presets ([`presets`]). Beside that stand the clean-up of a workspace ([`clean`]) and the
//! events that OpenCode prints ([`opencode`], [`json`]).
//!
//! What is printed is written to a `String`, and what is read from files, the environment or a
//! process is given as plain values. [`text`], [`split`], [`format`] and [`order`] hold what all of
//! this says about text.
pub mod args;
pub mod backend;
pub mod checks;
pub mod clean;
pub mod commands;
pub mod diagram;
pub mod format;
pub mod graph;
pub mod instructions;
pub mod json;
pub mod listing;
pub mod opencode;
pub mod order;
pub mod presets;
pub mod registry;
pub mod split;
pub mod text;
pub mod topic;
pub mod validate;
