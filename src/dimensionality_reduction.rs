//! Dimensionality reduction.

pub mod pca;
