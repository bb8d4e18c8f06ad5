//! Flow fields on a rectangular grid: a breadth-first propagation that gives
//! every reachable open cell the direction and the length of a shortest way
//! to a single target cell, and the agents that follow those directions.

pub mod agents;
pub mod board;
pub mod editor;
pub mod edits;
pub mod flow;
pub mod geometry;
pub mod grid;
pub mod laws;
pub mod routes;
pub mod settling;
pub mod tile;
