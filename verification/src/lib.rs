//! Makes a resource pack in which every sound of the game is louder.
//!
//! The sounds of a game version are fetched, decoded, raised by a gain in
//! decibels, encoded again and packed into an archive under their paths. This
//! crate is the part of that work that is proved: which assets are sounds and
//! where they go ([`sounds`]), which hashes are worked on and what became of
//! each ([`distributor`], [`processor`]), what the pack holds ([`pack`]), and
//! what the dialogue with the user decides ([`cli`], [`client`]). It opens no
//! connection, starts no thread and touches no file.
//!
//! Three collections of other crates are used and not looked into: the queue
//! of hashes ([`queue`]), the map of processed payloads ([`results`]) and the
//! archive writer ([`archive`]); so is the writer of JSON strings ([`json`]).
//! What is taken for granted of them is written down in those four modules
//! and nowhere else.

pub mod archive;
pub mod audio;
pub mod cli;
pub mod client;
pub mod distributor;
pub mod hashes;
pub mod json;
pub mod models;
pub mod pack;
pub mod pipeline;
pub mod processor;
pub mod queue;
pub mod results;
pub mod sounds;
pub mod text;
