//! Negotiation of storage deals: the text reports of the two tools the
//! pipeline drives, and the decisions taken on them.

pub mod commitment;
pub mod deal;
pub mod error;
pub mod lines;
pub mod negotiation;
pub mod number;
pub mod pipeline;
pub mod text;
pub mod tool;
