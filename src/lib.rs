//! A rootless container engine: the manifest model, the container registry,
//! the spawn protocol's decisions and the executor's mount plan.

pub mod cgroup;
pub mod error;
pub mod executor;
pub mod http;
pub mod identity;
pub mod layout;
pub mod registry;
pub mod spawn;
pub mod squishfile;
pub mod text;
