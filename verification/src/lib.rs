//! A small feed-forward neural network engine: dense tables of numbers, layers
//! joined by weighted connections, a forward pass, and training by
//! backpropagation with momentum and an annealed learning rate.
//!
//! The engine is generic in the numbers it computes with (see [`scalar`]).
//! Every contract says which cells were combined by which operation and in
//! which order, and leaves the arithmetic itself to the cell type.

pub mod backprop;
pub mod dataset;
pub mod function;
pub mod layer;
pub mod loss;
pub mod matrix;
pub mod network;
pub mod scalar;
pub mod stack;
pub mod training;
