//! A turn-based text adventure engine: a player walks a small bounded grid,
//! meets stationary events and walks their branching dialogue trees.

pub mod action;
pub mod document;
pub mod edges;
pub mod game;
pub mod grid;
pub mod item;
pub mod laws;
pub mod play;
pub mod read_kdl;
pub mod render;
pub mod replay;
pub mod seqs;
pub mod text;
pub mod tree;
pub mod world;
