//! A staged, fixed-point tree-rewriting engine for named extensions:
//! function-like invocations and attribute-driven decorators, modifiers and
//! derives. Given a parsed tree and a registry of extensions, it rewrites the
//! tree to a fully expanded form containing no unresolved extension
//! invocations, with a fresh hygiene mark on every identifier an expansion
//! introduces, ready for textual regeneration.

pub mod ast;
pub mod blake2b;
pub mod decorator;
pub mod deriving;
pub mod engine;
pub mod error;
pub mod expand;
pub mod hello_world_macros;
pub mod hygiene;
pub mod indexed_vec;
pub mod leb128;
pub mod lev_distance;
pub mod registry;
pub mod resolver;
pub mod squash_derive;
pub mod strutil;
