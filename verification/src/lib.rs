//! Part-mapping resolution engine for electronics-assembly planning.
//!
//! Given a board's component placements, a list of part-mapping rules and an
//! optional production load-out, the engine decides which concrete part each
//! placement should use, flagging ambiguity with typed errors rather than
//! guessing. An adjacent assembly-variant filter selects which placements
//! participate in a given build variant.

pub mod assembly;
pub mod criteria;
pub mod eda;
pub mod part_mapper;
pub mod part_mapping;
pub mod pnp;
