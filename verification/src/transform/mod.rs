pub mod bitreversal;
pub mod cfft;
pub mod mfcc;
pub mod radix2;
pub mod radix4;
pub mod rfft;
pub mod stage;

pub use bitreversal::{bitreversal_i16, bitreversal_i32};
pub use cfft::{CfftI16, CfftI32};
pub use mfcc::{MfccI16, MfccI32};
pub use radix2::{radix2_butterfly_i16, radix2_butterfly_inverse_i16};
pub use radix4::{
    radix4_butterfly_i16, radix4_butterfly_i32, radix4_butterfly_inverse_i16,
    radix4_butterfly_inverse_i32,
};
pub use rfft::{RfftI16, RfftI32};
