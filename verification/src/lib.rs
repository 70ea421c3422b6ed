//! Acceptance rules for signing single-file ladders.
//!
//! A ladder is a set of renditions of one asset, each a fragmented BMFF file of its own, that
//! are signed together: every file carries the same manifest, whose hash binding holds one Merkle
//! map for each rendition. This library says what a signed ladder must look like, which ladders
//! must be refused and how, and what must become of damaged ones. It prepares inputs and judges
//! outcomes; signing, reading and the file system are the host's.

pub mod admission;
pub mod boxes;
pub mod builder;
pub mod bytes;
pub mod cbor;
pub mod dynamic;
pub mod index;
pub mod instance;
pub mod ladder;
pub mod media;
pub mod merkle;
pub mod naming;
pub mod outcome;
pub mod outside;
pub mod text;
