//! A catalog of projects under one root directory: a scanner walks a
//! modelled directory tree, classifies each directory as a project (by its
//! marker files) or a namespace, and derives a flat list of dotted slugs
//! that address every project uniquely.

pub mod detect;
pub mod error;
pub mod project;
pub mod slug;
pub mod version;
