//! Streaming writer for qcow2 virtual-disk images: plans the layout of a
//! sparse image from the byte ranges of a raw image that hold data, and
//! encodes its metadata bit-exactly.
pub mod bytes;
pub mod copy;
pub mod encode;
pub mod laws;
pub mod layout;
pub mod writer;
