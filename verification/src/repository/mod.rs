//! The snapshot of a repository: its entities, the tree they form, and what a
//! publisher and a client do with it.

pub mod arena;
pub mod entity;
pub mod manifest;
pub mod tree;
pub mod codec;
pub mod clone;
pub mod new;
pub mod run;
pub mod publish;
