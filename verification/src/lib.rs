//! A minimal container runtime and layered image builder.
//!
//! The crate is organised around three concerns: parsing declarative build
//! files into instructions, building and caching content-addressed image
//! layers, and planning the host-side steps (cgroups, namespaces, network)
//! that turn a rootfs into a running container.  Everything that computes or
//! decides lives here with a contract; the thin shell that performs file,
//! process and network operations lives outside the library.

pub mod builder;
pub mod cgroups;
pub mod cli;
pub mod forgefile;
pub mod hashing;
pub mod json;
pub mod network;
pub mod runtime;
pub mod store;
pub mod strutil;
