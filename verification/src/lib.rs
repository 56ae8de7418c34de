//! Measurement harness core for comparing the cost of a sum-of-squares
//! reduction across container shapes and ownership modes.
//!
//! Floating-point values are handled throughout as their 64-bit IEEE-754
//! bit patterns, canonicalized so that the comparable-value total order is
//! well defined; the floating-point fold itself runs outside this library.

pub mod catalog;
pub mod scramble;
pub mod sweep;
pub mod value;

pub use catalog::modes_agree;
pub use catalog::ArrayStore;
pub use catalog::Container;
pub use catalog::DequeStore;
pub use catalog::HashStore;
pub use catalog::ListStore;
pub use catalog::TreeStore;
pub use value::CmpValue;
pub use value::Float;
pub use value::Inner;
