pub mod gradients;
pub mod steps;
pub mod tape;

pub use gradients::Gradients;
pub use steps::{Seed, UnaryGradFn};
pub use tape::{GradFn, Tape};
