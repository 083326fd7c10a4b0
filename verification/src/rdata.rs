//! Record data.

pub mod rfc3596;
