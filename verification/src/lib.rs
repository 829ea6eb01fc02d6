//! A two-dimensional position-based-dynamics particle simulator with a
//! scrubbable, lazily grown frame cache.
//!
//! Every real number the simulator stores is held as the bit pattern of an
//! IEEE-754 single-precision value ([`sim::scalar::Scalar`]).  The library
//! moves, stores and orders such values; the arithmetic that produces new
//! ones enters through the rule traits ([`sim::Constraint`],
//! [`sim::event::SimTrigger`], [`sim::event::SimEvent`]) and through the
//! functions that the caller hands over: the integrator of
//! [`sim::SimulationState::single_step`], the divider of
//! [`sim::SimulationState::multi_step`].
pub mod sim;
pub mod util;
