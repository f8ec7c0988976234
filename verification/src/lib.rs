//! A feed-forward neural network engine built as an explicit layered graph of
//! nodes and weighted edges. The graph topology, the parameter vectorization
//! (flattening weights and biases to and from one ordered vector), the
//! gradient-vector layout and the per-pass reset are implemented and verified
//! here. Numeric parameters are carried as opaque 64-bit words (callers store
//! IEEE-754 binary64 bit patterns in them; the all-zero word stands for zero),
//! so every contract speaks of exact sequences of words.

pub mod edge;
pub mod laws;
pub mod model;
pub mod network;
pub mod node;
pub mod state;
pub mod tags;
