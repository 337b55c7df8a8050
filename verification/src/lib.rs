//! An augmented, order-indexed, dynamically resizable sequence ("exray")
//! backed by a randomized balanced binary search tree keyed by implicit
//! (positional) order. It supports logarithmic-time insertion, deletion and
//! arbitrary-position access, incrementally maintained aggregate functions
//! (sum, min, max) over any contiguous range, and whole-subtree operations:
//! splitting off a range into an independent sequence, merging two sequences,
//! cloning a range, and moving a range between sequences.

pub mod functions;
pub mod treap;
pub mod csv_parser;
pub mod element;
pub mod exray;
