//! The analyses: which types are safe to pass by value, how each function is
//! made available, and what the allow-list reaches.

pub mod ctypes;
pub mod fun;
pub mod gc;
pub mod pod;
