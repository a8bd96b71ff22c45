//! Markers of the configuration builder's states.
use vstd::prelude::*;

verus! {

/// A state a configuration builder can be in.
pub trait BuilderState {}

/// An asynchronous builder kept only so that its name stays available; it
/// holds nothing and does nothing.
pub struct AsyncConfigBuilder {}

} // verus!
