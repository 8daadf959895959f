//! A compiler for schemas of messages and enums in the style of protocol
//! buffers, with bounds on sizes for small targets, and the encoder that the
//! compiled code writes messages with.
//!
//! A schema text is read by [`grammar`] into a parse tree, which [`parser`]
//! resolves into the schema model of [`common`]. [`validator`] checks that the
//! schema is closed, and [`generator`] writes the source text of its types.
//! That text encodes through [`encode`] and [`wiretypes`]: tags, integers of
//! variable length, and a buffer that never grows.

pub mod common;
pub mod encode;
pub mod generator;
pub mod grammar;
pub mod parser;
pub mod protos;
pub mod randomizer;
pub mod text;
pub mod validator;
pub mod wiretypes;
