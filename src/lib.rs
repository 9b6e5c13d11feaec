//! Small verified data structures: sets of integers held as compact sequences of disjoint
//! intervals, with union, intersection and difference; a grid of cells with points, vectors
//! and directions; and fixed-capacity containers and flag sets.

pub mod bit_array;
pub mod fixed_queue;
pub mod grid;
pub mod integer_interval;
pub mod pos;
pub mod smallest_items;
pub mod smallvec;
