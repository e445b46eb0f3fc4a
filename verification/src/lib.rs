//! Fixed-point and decimal number types with overflow-aware arithmetic.
//!
//! Three number types share their conventions and nothing else:
//!
//! - [`fixed_point::Fp32`]: unsigned, 32 fractional bits, 128 bits wide;
//!   its arithmetic wraps around.
//! - [`number::Number`]: unsigned, 50 fractional bits, 192 bits wide, with
//!   conversions at decimal exponents.
//! - [`number_128::Number128`]: signed, ten fractional decimal digits, 128
//!   bits wide.
//!
//! [`traits`] adds checked arithmetic as a capability of all three and of the
//! integers that back them.

pub mod arith;
pub mod bytes;
pub mod fixed_point;
mod guard;
pub mod number;
pub mod number_128;
pub mod text;
pub mod traits;
pub mod u192;
pub mod widen;

pub use fixed_point::Fp32;
pub use number::Number;
pub use number_128::Number128;
pub use u192::U192;
