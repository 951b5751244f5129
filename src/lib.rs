pub mod algorithm;
pub mod index;
pub mod slice;

pub use index::{Index, Iter};
pub use slice::Slice;
