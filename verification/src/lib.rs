pub mod buffer;
pub mod model;

pub use buffer::RollingBuffer;
pub use buffer::ValuesIter;
