//! The GBAtemp cheat thread, which no longer has a provider of its own: its
//! cheats are read from a GitHub mirror (see `CheatSource::provider`).
use vstd::prelude::*;

verus! {

/// The former provider of the GBAtemp cheat thread; it yields no cheats.
pub struct GbaTempProvider;

} // verus!
