//! Analysis of a rectangular "engine schematic" character grid: extracting
//! maximal horizontal runs of digits (part numbers), testing 8-directional
//! adjacency between those runs and symbol cells, finding gears (`*` cells
//! with exactly two adjacent part numbers), and summing part numbers and
//! gear ratios.

pub mod cells;
pub mod grid;
pub mod token;
pub mod scan;
pub mod analysis;
pub mod schematic;
pub mod laws;
pub mod day;
