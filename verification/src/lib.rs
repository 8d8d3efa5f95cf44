//! Agent decision engine for a rental housing market simulation.
//!
//! Tenants score candidate units, search a shared vacancy pool, and move
//! between units; landlords sample market rents per neighborhood, fit a
//! linear trend to their observation history, and apply maintenance and
//! rent-adjustment policy to the units they own.
//!
//! All real-valued quantities (scores, conditions, rents per area) are held
//! in fixed-point form: an integer counting units of `1 / SCALE`.

use vstd::prelude::*;

pub mod city;
pub mod fixed;
mod rng;
pub mod score;
pub mod tenant;
pub mod landlord;
pub mod trend;
pub mod geo;

verus! {

/// The two kinds of agent the simulation steps each month.
pub enum AgentType {
    Tenant,
    Landlord,
}

} // verus!
