//! Populations of simple creatures, each steered by a small program of
//! instructions arranged in rings, compete for plant energy on a toroidal
//! grid and reproduce by crossing their programs.
//!
//! This crate is the simulation engine: the random source, the instruction
//! set, the genetic operators, the terrain, the creature interpreter, the
//! statistics log and the world that ties them together. It performs no
//! input or output of its own.

use vstd::prelude::*;

pub mod creature;
pub mod genetics;
pub mod growth;
pub mod log;
pub mod multiverse;
pub mod params;
pub mod plant;
pub mod program;
pub mod random;
pub mod terrain;
pub mod utils;
pub mod world;

verus! {

/// What a call of the program amounts to.
#[derive(Debug)]
pub enum RunMode {
    /// The world of the given file is served step by step over the web.
    Web(String),
    /// The world of the given file runs to its end.
    Single(String),
    /// The worlds of the multiverse run.
    Multiverse,
}

/// Decides what a call of the program amounts to: with a world file its
/// world runs, over the web if that was asked for; without one the
/// multiverse runs.
pub fn run(worldfile_opt: Option<String>, run_web: bool) -> (mode: RunMode)
    ensures
        mode == (match worldfile_opt {
            Some(worldfile) => if run_web {
                RunMode::Web(worldfile)
            } else {
                RunMode::Single(worldfile)
            },
            None => RunMode::Multiverse,
        }),
{
    if let Some(worldfile) = worldfile_opt {
        if run_web {
            RunMode::Web(worldfile)
        } else {
            RunMode::Single(worldfile)
        }
    } else {
        RunMode::Multiverse
    }
}

} // verus!
