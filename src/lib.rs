//! Dispatch board: jobs, resources and the assignments between them, kept
//! consistent by a verified engine, with a fan-out hub that tells live
//! subscribers about every accepted change.

pub mod records;
pub mod events;
pub mod hub;
pub mod board;
pub mod identity;
pub mod accounts;
pub mod session;
