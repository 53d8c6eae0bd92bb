//! Generation of Zod schemas from a Protobuf syntax tree.
pub mod properties;
pub mod zod_generator;
