//! AI Allowance: what AI providers report of usage, spend and allowances, made
//! into the cards of a dashboard.
//!
//! The library decides and computes. Amounts are doubles, held as their bits and
//! calculated with in integers, so that every sum and every share is given by an
//! exact contract. Files, databases, the credential vault, commands and requests
//! are left to the application around it, which hands plain values in and does
//! what the library answers.

pub mod amount;
pub mod clock;
pub mod counts;
pub mod decimal;
pub mod json;
pub mod local;
pub mod models;
pub mod natural;
pub mod providers;
pub mod refresh;
pub mod rounding;
pub mod storage;
pub mod text;
pub mod tray;
