//! Cave generation on an integer lattice and a flow field over the finished
//! tile grid.
//!
//! A rectangular region is bisected at random into leaf rectangles; each
//! leaf becomes a node of an undirected graph; nearby nodes are joined; nodes
//! and the jittered tunnels between them are painted as discs of floor onto a
//! grid of walls. Over the tiles, a distance field to the nearest goal is kept
//! by in-place relaxation, and agents descend it.
//!
//! All quantities are integers. Factors that scale a length are given in
//! thousandths, probabilities as exact fractions, angles in whole degrees.

pub mod caves;
pub mod config;
pub mod creature;
pub mod geometry;
pub mod graph;
pub mod math;
pub mod partition;
pub mod pathfinding;
pub mod random;
pub mod raster;
pub mod sound;
pub mod spatial;
pub mod spawn_tool;
pub mod terrain;
