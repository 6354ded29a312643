//! Streaming extrema (running maximum and minimum) over a sliding window of
//! samples, maintained in amortised constant time per sample.

mod errors;
mod maximum;
mod minimum;
mod sample;
mod traits;
mod window;

pub use errors::TaError;
pub use maximum::Maximum;
pub use minimum::Minimum;
pub use sample::{is_greater, is_less, INFINITY, NEG_INFINITY};
pub use traits::{High, Low};
pub use window::{Direction, WindowExtremum};
