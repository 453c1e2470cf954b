//! Multi-account CloudWatch operations library.
//!
//! The verified core of a command-line tool that walks a fleet of AWS
//! accounts: it loads and filters an account inventory, plans a
//! role-assumption and region-scoped client per account, renders
//! metric-widget templates, maps alarm descriptions into records, and
//! frames the persisted JSON report. All network and file I/O stays in
//! the surrounding application; this crate holds the logic and its
//! proofs.

pub mod alarms;
pub mod aws_regions;
pub mod inventory;
pub mod json;
pub mod credentials;
pub mod numbers;
pub mod run;
pub mod template;
pub mod text;

use vstd::prelude::*;

verus! {

} // verus!
