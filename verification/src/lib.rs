//! Fixed-point (Q15 / Q31) digital signal processing with behaviour close to CMSIS-DSP.
use vstd::prelude::*;

pub mod basic;
pub mod common;
pub mod complex;
pub mod matrix;
pub mod statistics;
pub mod qmath;
pub mod transform;

pub use qmath::{sat_i16, sat_i32};
