//! Line-order reversal of byte streams: the backward line scanner, the
//! spooling decisions for streamed input, and the laws that tie them together.

pub mod cli;
pub mod laws;
pub mod lines;
pub mod spool;
