//! A text-mode console: a color-coded 80x25 character grid of volatile
//! cells and the line discipline that writes bytes onto it.
pub mod color;
pub mod vga_buffer;
