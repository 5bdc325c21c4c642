//! Routing and bookkeeping core of the Chariot CRI shim: which container
//! runtime serves a request, what is remembered about sandboxes and
//! containers, and the paths and strings the runtime tools derive.

pub mod cfg;
pub mod common;
pub mod cri;
pub mod text;
pub mod runc;
pub mod shim;
