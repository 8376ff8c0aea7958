//! Verified model of the switchbox PipeWire patchbay.
pub mod app;
pub mod pages;
