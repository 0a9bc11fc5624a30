//! Buffering of custom-scheme deep links (`youwee://download?...`) handed to a
//! desktop application by the operating system before its user interface is
//! ready to listen: extraction of validated links from raw process arguments,
//! and a bounded, deduplicating, order-preserving pending queue.

pub mod links;
pub mod queue;
pub mod text;
