//! A small dense-matrix engine with hand-written backpropagation: matrices that
//! broadcast and transpose as views, layers whose `forward` and `backward` calls
//! come in pairs, a cross-entropy loss, and gradient-descent optimizers.
//!
//! The library is generic in its number type (see [`scalar::Scalar`]); every
//! contract says which arithmetic was applied to which cells.

pub mod error;
pub mod scalar;
pub mod matrix;
pub mod parameter;
pub mod optimizer;
pub mod layer;
pub mod loss;
pub mod lr_scheduler;
pub mod data;
pub mod metric;
