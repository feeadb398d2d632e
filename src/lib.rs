//! Reading and rewriting the embed areas that a live ISO image carries in its
//! System Area: the Ignition config area and the kernel-argument areas.

pub mod archive;
pub mod config;
pub mod error;
pub mod header;
pub mod kargs;
pub mod region;
pub mod stream;
