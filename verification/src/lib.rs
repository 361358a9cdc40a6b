//! A minimal length-prefixed message protocol over a reliable byte stream.
//!
//! `codec` defines the wire format: a 4-byte big-endian length field followed
//! by exactly that many payload bytes, with pure encode/decode functions.
//! `receiver` turns arbitrarily-sized reads into complete messages, compacting
//! partial frames so that a frame split across reads is decoded once the rest
//! arrives.

pub mod codec;
pub mod receiver;
