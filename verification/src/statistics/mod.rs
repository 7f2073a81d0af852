pub mod absmax;

pub use absmax::{absmax_i16, absmax_i32};
