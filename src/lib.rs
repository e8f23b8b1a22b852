//! Live traffic analysis library: packet decoding on top of `pktparse`,
//! flow aggregation per report window, the capture pipeline's control
//! decisions, report rendering and capture-filter construction.
use vstd::prelude::*;

pub mod menu;
pub mod net;
pub mod num;
pub mod packet;
pub mod parser;
pub mod pipeline;
pub mod render;
pub mod report;
pub mod text;
pub mod utils;

verus! {

} // verus!
