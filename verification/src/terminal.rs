pub mod color;
pub mod buffer;
pub mod parser;
pub mod laws;
pub mod pty;

pub use buffer::Buffer;
pub use parser::Parser;
pub use pty::PtySize;
