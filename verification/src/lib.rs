//! A module-specifier resolution engine in the style of Node.js module
//! resolution: given a starting directory and a request string, it computes
//! the filesystem path a module loader should load, driven by package
//! manifests (main fields, alias tables, conditional `exports`/`imports`
//! path trees), extension probing, upward package search and symlink
//! splicing.
//!
//! The filesystem is taken as an explicit value (a snapshot of entries), so
//! every resolution step is a pure, fully specified function of that
//! snapshot, the resolver options and the request.
pub mod text;
pub mod paths;
pub mod json;
pub mod fsmodel;
pub mod tree;
pub mod outcome;
pub mod resolver;
pub mod description;
pub mod resolve;
pub mod plugin;
pub mod laws;
