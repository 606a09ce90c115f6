//! A small content-addressed version store: objects (blobs, trees, commits),
//! a staging index, ignore rules, and the decisions behind the commands that
//! work on them. File and network access, plugin loading and the command line
//! are left to the program around this library.

pub mod text;
pub mod sort;
pub mod strmap;
pub mod hash;
pub mod object;
pub mod index;
pub mod ignore;
pub mod diff;
pub mod commands;
pub mod laws;
