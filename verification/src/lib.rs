//! A small collection of container types with machine-checked contracts.

pub mod linked_list;
