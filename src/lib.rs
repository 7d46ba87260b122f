//! Protocol dissection engine: a layer / attribute / payload model, a
//! big-endian byte cursor, flow-to-worker affinity, and a TCP segment
//! dissector built on them.

pub mod affinity;
pub mod attr;
pub mod layer;
pub mod link;
pub mod reader;
pub mod tcp;
