//! Route search over sets of planar locations by a genetic algorithm, and the
//! bookkeeping for handing groups of locations to a pool of workers.
//!
//! A location is held as the bit patterns of its two coordinates, so that two
//! locations are the same exactly when their bits agree. How long a route is
//! comes from the caller: every search takes a cost function, and a lower cost
//! is a better route.
//!
//! A route holds each location of its group exactly once. It has no fixed
//! first or last stop: its cost is that of the open path through its
//! locations in their order.

pub mod geometry;
pub mod random;
pub mod selection;
pub mod crossover;
pub mod mutation;
pub mod population;
pub mod genetic_algorithm;
pub mod worker;
pub mod dispatch_model;
pub mod dispatcher;
pub mod input;
pub mod orders;
