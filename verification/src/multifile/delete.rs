//! Records of what was deleted.

pub mod stack;
