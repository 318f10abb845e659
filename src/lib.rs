//! A line-oriented command protocol: an incremental line decoder over a
//! shared byte buffer, a parser that splits a line into command name and
//! argument, a registry of built-in commands and the service that answers
//! each request with one line of text.
#![allow(deprecated)]

pub mod buffer;
pub mod codec;
pub mod line;
pub mod server;
