//! Cheat-database logic for Switch emulators: parsing cheat files, cleaning
//! text scraped from providers, and the state kept by the cheat manager.
use vstd::prelude::*;

pub mod assoc;
pub mod text;
pub mod utils;
pub mod cheat_provider;
pub mod dom;
pub mod tinfoil;
pub mod ui;

verus! {
} // verus!
