//! Dependency resolution, lockfile and install-tree logic of a package manager
//! for Lua rocks, with machine-checked contracts.

pub mod building;
pub mod builtin;
pub mod closure;
pub mod config;
pub mod download;
pub mod fetch;
pub mod hash;
pub mod install;
pub mod install_spec;
pub mod lock;
pub mod lockfile;
pub mod lua_installation;
pub mod lux_lock;
pub mod manifest;
pub mod merge;
pub mod package;
pub mod path;
pub mod project;
pub mod query;
pub mod resolve;
pub mod run;
pub mod semantic;
pub mod staging;
pub mod sync;
pub mod text;
pub mod tree;
pub mod variables;
pub mod version;
pub mod version_order;
pub mod version_req;
