//! Small building blocks shared by the other modules.

pub mod buf;
pub mod codec;
pub mod sorted_map;
