//! The networking half of a node: how it finds peers, what it takes from them,
//! what it says back, and what it keeps.
//!
//! Nothing here opens a socket, reads a file or asks the time. What came in,
//! what the disk said and what the clock reads are handed in as plain values,
//! and what to do about them comes back the same way, so that every rule a
//! node keeps to can be stated and proved. Where a rule alternates with the
//! outside, a value says what to do next and takes what came of it.
//!
//! - [`wire`] frames and reads frames; [`message`] is what they carry.
//! - [`sync`] decides what a message leads to, and [`connection`] reads one
//!   peer with it; [`serving`] and [`outbound`] answer.
//! - [`peers`], [`windows`], [`refusal`], [`seeds`] and [`rounds`] are about
//!   whom a node talks to.
//! - [`joining`], [`probation`], [`filling`] and [`recovery`] are about being
//!   handed a chain, earning it, and getting back what is missing.
//! - [`logs`], [`disk`] and [`opening`] keep the files in line with the chain,
//!   and [`evidence`] adds up what an operator has to be told.
//! - [`node`] holds everything one node remembers.
//! - [`calls`] is for saying which calls were made, where a run of them is.

pub mod address;
pub mod calls;
pub mod connection;
pub mod disk;
pub mod evidence;
pub mod filling;
pub mod joining;
pub mod logs;
pub mod message;
pub mod network;
pub mod node;
pub mod opening;
pub mod outbound;
pub mod peers;
pub mod probation;
pub mod recovery;
pub mod refusal;
pub mod rounds;
pub mod seeds;
pub mod serving;
pub mod sync;
pub mod text;
pub mod windows;
pub mod wire;
