//! The steering and economy core of an ant colony simulation: nests that turn
//! food into ants, food sources consumed on contact, a pheromone field that
//! agents paint trails into and sample signal from, the directions an ant
//! samples in, and the ant's behaviour states.
pub mod economy;
pub mod field;
pub mod sampling;
pub mod ant;
