pub mod cmplx_mag;

pub use cmplx_mag::{cmplx_mag_i16, cmplx_mag_i32};
