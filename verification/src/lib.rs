//! Core of a declarative rule grammar for compound eligibility conditions:
//! decoding loosely-typed document nodes into a canonical rule tree,
//! re-encoding that tree canonically, and rendering it as English prose.

pub mod node;
pub mod value;
pub mod action;
pub mod rule;
pub mod traits;
pub mod render;
pub mod decode;
pub mod encode;
pub mod requirement;
pub mod yaml;
pub mod laws;
