//! Verified decision logic of the Dreamwake network client: action outcome
//! tracking, decoded-state receipt batching, arrival feedback bookkeeping,
//! charge episode resolution, prediction reconciliation plans, control-lane
//! decisions, command generation and retry plans, owner baseline control,
//! presentation journal bookkeeping, owner group validation, received-state
//! decisions, presentation entitlement and the interface's actions.
pub mod receipts;
pub mod ids;
pub mod outcomes;
pub mod text;
pub mod reconcile;
pub mod arrival;
pub mod actions;
pub mod references;
pub mod control;
pub mod commands;
pub mod baselines;
pub mod events;
pub mod owner_group;
pub mod dependencies;
pub mod delivery;
pub mod ui;
pub mod hud;
pub mod presentation;
pub mod autoplay;
