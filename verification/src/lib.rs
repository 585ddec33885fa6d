//! Lineage of SQL statements, and the verified parts of the tools around it.
//!
//! The lineage of a statement says which tables the statement reads, which
//! it writes, and from which columns each column it derives descends. It is
//! computed from the syntax tree of the statement ([`ast`]) by a walk
//! ([`visitor`]) that drives a stack of scopes ([`context`], [`frame`]) over
//! normalized names ([`lineage`]). What the walk means is written down once,
//! as functions on the model ([`effect`]), and the walk is proved to compute
//! it; [`laws`], [`single_table`] and [`statements`] hold what follows from
//! that meaning, proved with the help of [`opened`].
//!
//! The other modules are tools of their own: canonical forms of tensor
//! products ([`tensors`], over [`atom`], [`parser`], [`printing`], [`state`]
//! and a module of graphs), an index over the positions of a genome
//! ([`genome`]), and a number of small parts.

pub mod ast;
pub mod atom;
pub mod context;
pub mod coreset;
pub mod effect;
pub mod error;
pub mod executing;
pub mod frame;
pub mod genome;
mod graph;
pub mod ip;
pub mod laws;
pub mod lineage;
pub mod opened;
pub mod parser;
pub mod printing;
pub mod readout;
pub mod sets;
pub mod settings;
pub mod single_table;
pub mod smx;
pub mod solver;
pub mod state;
pub mod statements;
pub mod tensors;
pub mod text;
pub mod visitor;
pub mod zfp;
