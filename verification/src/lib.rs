//! Core of a tiling-window-manager style portfolio page: a fixed-slot layout
//! permutation engine and an aggregator that turns timestamped activity
//! events into a 30-day chart.

pub mod activity;
pub mod layout;
