//! Stateless numeric primitives shared by the feature extractor, the model
//! and the detector.

pub mod baum_welch;
pub mod ema;
