//! Guest-side boundary layer between a host runtime and a sandboxed module.
//!
//! The host and the guest share nothing but integers and offsets into the
//! guest's linear memory. This crate holds the rules of that exchange:
//!
//! * [`region`]: a span of linear memory, named by offset and length;
//! * [`state`]: the mathematical model of linear memory and of the regions
//!   that the host currently owns, with the laws that hold of it;
//! * [`memory`]: the allocator that hands regions out and takes them back;
//! * [`codec`]: the reading of a span of bytes as UTF-8 text;
//! * [`line`]: the line that a logged number makes;
//! * [`arith`] and [`counter`]: the small stateless exports and the counter.
pub mod arith;
pub mod codec;
pub mod counter;
pub mod line;
pub mod memory;
pub mod region;
pub mod state;
