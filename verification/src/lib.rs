//! Update-and-install pipeline for a game client.
//!
//! The library decides whether a newer client package exists, models the
//! installation of an archive over an existing install directory with
//! selective-replacement semantics, records the installed version, and
//! checks that the installed client can be launched.

pub mod archive;
pub mod errors;
pub mod fsmodel;
pub mod installer;
pub mod launch;
pub mod laws;
pub mod paths;
pub mod pipeline;
pub mod procname;
pub mod resolver;
pub mod version;
