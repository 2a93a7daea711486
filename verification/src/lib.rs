//! Histogram of byte values in a data stream.
//!
//! The library holds the pure core of a byte-histogram tool: counting the
//! occurrences of each byte value in a buffer, rescaling the resulting
//! 256-bucket table to a display width, and laying out one bar line per
//! non-zero bucket. Reading files, choosing an acquisition strategy and
//! printing are left to the surrounding program, which feeds buffers in and
//! takes the computed lines out.

pub mod counting;
pub mod render;
pub mod scaling;

pub use counting::count_bytes;
pub use counting::count_repeated;
pub use counting::scan_step;
pub use render::display_width;
pub use render::render_counts;
pub use render::RenderLine;
pub use scaling::fit_counts_to_termwidth;
