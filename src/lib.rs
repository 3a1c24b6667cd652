//! Turns head-orientation gains into stable window placements: a deadband
//! filter, a time-based easing channel, manual-drag reconciliation and the
//! set of tracked windows, all over integer pixel coordinates.
pub mod geometry;
pub mod deadband;
pub mod easing;
pub mod tracking;
pub mod window_filter;
pub mod control;
