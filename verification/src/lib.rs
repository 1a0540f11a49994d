//! A single-threaded message-passing node: it answers echo, unique-id
//! generation, and a rudimentary broadcast/read/topology protocol over
//! newline-delimited JSON envelopes.
//!
//! The library holds the verified core: the data model (`msg`), the broadcast
//! value set and the dispatch step (`node`), and the JSON encoder (`codec`).
//! Reading envelopes from an input stream and writing replies to an output
//! stream is left to the surrounding program.

pub mod codec;
pub mod msg;
pub mod node;
