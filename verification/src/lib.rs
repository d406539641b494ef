//! Reader for Compound File Binary Format (CFBF) containers and for the
//! DVS archive envelope that wraps them.
//!
//! The container is held as an in-memory byte buffer and every operation is
//! a positional read, so the reader never mutates shared state.  Each public
//! operation carries a contract that ties its result to a mathematical model
//! of the on-disk format.

pub mod bytes;
pub mod cfbf;
pub mod dvs;
pub mod header;
pub mod model;
pub mod paths;
pub mod props;
pub mod utf16;
