//! Renders a sequence of named byte payloads into a single Typst document:
//! each payload is classified as text or binary, turned into a display-safe
//! string (escaped text or a fixed-width hex dump), wrapped in a titled code
//! block, and the blocks are concatenated with page breaks between them.

pub mod block;
pub mod classify;
pub mod document;
pub mod escape;
pub mod hex;
pub mod order;
pub mod source;
mod strutil;
