pub mod color;
pub mod framebuffer;
pub mod line;
pub mod rect;

pub use color::Color;
pub use framebuffer::FrameBuffer;
pub use line::rasterize_line;
pub use rect::Rect;
