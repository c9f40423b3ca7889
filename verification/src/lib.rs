//! An extent-based on-disk filesystem together with the scheme/resource layer
//! that serves it: a uniform `name://path` namespace in which providers expose
//! open/read/write/seek/sync/close over integer handles, and a packet-framed
//! transport that carries requests and replies across a byte pipe.
#![verifier::loop_isolation(false)]

pub mod context;
pub mod disk;
pub mod error;
pub mod example;
pub mod extent;
pub mod file_scheme;
pub mod filesystem;
pub mod handle_table;
pub mod laws;
pub mod layout;
pub mod mmio;
pub mod packet;
pub mod queue;
pub mod resource;
pub mod scheme;
pub mod stdio;
pub mod url;
pub mod util;
