//! Bookkeeping of the GPU memory shared by particle effects.
//!
//! Each effect instance owns a slice of particles inside a [`buffer::EffectBuffer`], and an
//! effect cache keeps track of which instance lives in which slice of which buffer. All sizes
//! and offsets are computed here, over plain values. The GPU objects themselves are opaque to
//! this library: they appear as the type parameters `B` (a buffer) and `L` (a bind group
//! layout).
pub mod allocation;
pub mod allocation_laws;
pub mod asset;
pub mod buffer;
pub mod cache;
pub mod cache_laws;
pub mod decimal;
pub mod decimal_laws;
pub mod effect_map;
pub mod indirect;
pub mod layout;
pub mod plan;
pub mod plan_laws;
pub mod slice;
