//! A small dense-matrix library and a feed-forward inference stack built on it.
//!
//! Every matrix has a fixed shape and a flat row-major buffer; layers chain an
//! affine transform with an activation, and a model folds an input through its
//! layers in order.
pub mod error;
pub mod grid;
pub mod laws;
pub mod matrix;
pub mod modular;
pub mod neuron;
pub mod render;
pub mod scalar;
