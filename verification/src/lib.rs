//! Core of a hot-reloadable declarative UI template system.
//!
//! Source files embed markup-like template trees through a template macro.
//! This crate provides the pieces that let such templates be re-rendered in
//! place when their source changes:
//!
//! - a content-aware token hasher that decides whether the semantically
//!   relevant tokens of a source file changed;
//! - a template extraction pass that scans source tokens for template-macro
//!   invocations and serializes them into a location-keyed map;
//! - a tree-location tracking layer that assigns every node of a template
//!   tree a stable position and compensates for text-node collapsing.

pub mod decimal;
pub mod dom;
pub mod error;
pub mod hash_file;
pub mod parse_rsx;
pub mod rsx_node;
pub mod rsx_template;
pub mod rsx_visitor;
pub mod split;
pub mod strutil;
pub mod tokens;
pub mod text_block_encoder;
pub mod tree_location;
pub mod tree_location_map;
