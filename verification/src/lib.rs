//! A series: one column of values of any types, each under a label, with a
//! logical order that can be sorted without touching what is stored.

pub mod data_frame_modules;
