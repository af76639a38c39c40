//! The VGA text console: the cells of the screen and the hardware cursor.
pub mod cursor;
pub mod text;
