//! The two native token contracts: how a request to one of them is laid
//! out, and how its answer is read.

pub mod ong;
pub mod ont;
pub mod util;
