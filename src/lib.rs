//! Simulation core of a discrete-tick economic sandbox: agents hold stockpiles
//! of goods, satisfy per-tick needs by rationing, bank what they consume, and
//! let the banked surplus decay; a small state machine decides when the
//! system pipeline runs.
//!
//! Quantities of goods are whole numbers of a fixed smallest unit (`u64`);
//! a satisfaction fraction is an exact ratio of two such numbers. Goods are
//! indices into a good table fixed when the store is created.
pub mod activity;
pub mod beliefs;
pub mod components;
pub mod machine;
pub mod quantity;
pub mod systems;
pub mod world;

pub use activity::{
    attempt_production, attempt_trade, Activity, Acts, Offer, Production, Trade, TRUST_DEFAULT,
    TRUST_FULL, TRUST_STEP,
};
pub use beliefs::{lemma_beliefs_symmetric, BeliefEntry, Beliefs};
pub use components::{Fills, Keeps, Needs, SimError, Stockpile};
pub use machine::{lemma_flag_containment, Event, Phase, Simulation};
pub use quantity::{ration, Fraction, MAX_QUANTITY};
pub use systems::{consumption_run, decay_run, lemma_consumption_bounds, SimStatus};
pub use world::{Seed, World};
