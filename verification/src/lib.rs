//! Exhaustive search over equipment loadouts.
//!
//! Every loadout, one item or none for each searched slot, has an ordinal
//! ([`codec`]). The ordinals are split into one range per worker
//! ([`partition`]). A worker steps through its range with an odometer
//! ([`odometer`]), puts each loadout on a character ([`character`], over the
//! items of [`item`] and the catalog of [`stock`]), derives its statistics
//! ([`formulas`]) and offers them to the running maxima that all workers share
//! ([`tracker`]). The walk itself is in [`search`].

pub mod character;
pub mod codec;
pub mod formulas;
pub mod item;
pub mod odometer;
pub mod partition;
pub mod search;
pub mod stock;
pub mod tracker;
