//! A text-block layout algebra: immutable rectangular blocks of text,
//! composed by padding, alignment, horizontal and vertical joins, and a
//! transparency-aware overlay, then rendered as a multi-line string.

mod block;
mod cols;
mod text;

pub use block::Block;
pub use block::half_hi;
pub use block::half_lo;
pub use block::max_cols;
pub use block::merge_row;
pub use block::nat_max;
pub use block::nat_min;
pub use block::overlay_rows;
pub use block::rendered;
pub use block::rows_beside;
pub use block::rows_of;
pub use block::rows_plus_left;
pub use block::rows_plus_right;
pub use block::sub0;
pub use block::trimmed;
pub use cols::char_cols;
pub use cols::filled;
pub use cols::line_cols;
pub use cols::row_narrow;
pub use cols::wide_char_cols;
pub use text::is_trim_white;
pub use text::white_beyond_ascii;
