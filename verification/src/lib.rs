//! Configuration logic of a lightweight virtual-machine container manager:
//! parsing of port and volume mappings, the persisted configuration of the
//! machines, and the decisions taken by each command.

pub mod text;
pub mod paths;
pub mod strmap;
pub mod config;
pub mod mapping;
pub mod buildah;
pub mod create;
pub mod host;
