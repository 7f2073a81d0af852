pub mod cos;
pub mod div;
pub mod dot;
pub mod mul;
pub mod offset;
pub mod scale;
pub mod shift;
pub mod sqrt;
pub mod vlog;

pub use cos::{cos_i16, cos_i32};
pub use div::{div_i16, div_i32};
pub use dot::{dot_i16, dot_i32};
pub use mul::{mul_i16, mul_i32};
pub use offset::{offset_i16, offset_i32};
pub use scale::{scale_i16, scale_i32};
pub use shift::{shift_i16, shift_i32};
pub use sqrt::{sqrt_i16, sqrt_i32};
pub use vlog::{vlog_i16, vlog_i32, vlog_i32_in_place};
