//! The hardware cursor of the VGA text mode.
//!
//! The cursor is set through the registers of the CRT controller. Each
//! register is written as one 16-bit word to the port `CRT_PORT`: the low
//! byte selects the register, the high byte is its new value.
use vstd::prelude::*;

verus! {

/// Port of the CRT controller.
pub const CRT_PORT: u16 = 0x3D4;

/// Register that holds the shape of the cursor and, in bit 5, whether it is
/// hidden.
pub const SHAPE_REGISTER: u16 = 0x0A;

/// Register that holds the high byte of the cursor's position.
pub const POSITION_HIGH_REGISTER: u16 = 0x0E;

/// Register that holds the low byte of the cursor's position.
pub const POSITION_LOW_REGISTER: u16 = 0x0F;

/// Columns of the screen.
pub const WIDTH: usize = 80;

/// The word that sets register `register` to `value`.
pub open spec fn register_word(register: int, value: int) -> int {
    register + 256 * value
}

/// The value of the shape register: the low five bits of the shape, and
/// bit 5 set while the cursor is hidden.
pub open spec fn shape_value(enabled: bool, shape: u8) -> int {
    shape as int % 32 + if enabled {
        0int
    } else {
        32int
    }
}

/// The cursor as plain values.
pub struct CursorView {
    /// Whether the cursor is shown.
    pub enabled: bool,
    /// Shape of the cursor.
    pub shape: u8,
    /// Row of the cursor.
    pub row: u8,
    /// Column of the cursor.
    pub col: u8,
}

/// What is known of the hardware cursor.
pub struct TextCursor {
    enabled: bool,
    shape: u8,
    row: u8,
    col: u8,
}

impl View for TextCursor {
    type V = CursorView;

    closed spec fn view(&self) -> CursorView {
        CursorView { enabled: self.enabled, shape: self.shape, row: self.row, col: self.col }
    }
}

impl TextCursor {
    /// The cursor as the boot loader leaves it: shown, in the upper left
    /// corner.
    pub fn new() -> (cursor: Self)
        ensures
            cursor@ == (CursorView { enabled: true, shape: 0, row: 0, col: 0 }),
    {
        TextCursor { enabled: true, shape: 0, row: 0, col: 0 }
    }

    /// The word that brings the shape register up to date.
    pub fn update_shape(&self) -> (word: u16)
        ensures
            word == register_word(SHAPE_REGISTER as int, shape_value(self@.enabled, self@.shape)),
    {
        let hidden: u16 = if self.enabled {
            0
        } else {
            1
        };
        let shape: u16 = self.shape as u16;
        assert((0x000Au16 | hidden << 13 | (shape & 0x1f) << 8) == 0x0A + 256 * (shape % 32 + 32 * hidden))
            by (bit_vector)
            requires
                hidden <= 1,
                shape <= 255,
        ;
        0x000A | hidden << 13 | (shape & 0x1f) << 8
    }

    /// The two words that bring the position registers up to date: first
    /// the low byte of `row * 80 + col`, then the high byte.
    pub fn update_position(&self) -> (words: (u16, u16))
        ensures
            words.0 == register_word(
                POSITION_LOW_REGISTER as int,
                (self@.row as int * 80 + self@.col as int) % 256,
            ),
            words.1 == register_word(
                POSITION_HIGH_REGISTER as int,
                (self@.row as int * 80 + self@.col as int) / 256,
            ),
    {
        let row: u16 = self.row as u16;
        let col: u16 = self.col as u16;
        let width: u16 = WIDTH as u16;
        assert(row <= 255 && col <= 255 && width == 80);
        let pos: u16 = row * width + col;
        assert((0x000Fu16 | (pos & 0xFF) << 8) == 0x0F + 256 * (pos % 256) && (0x000Eu16 | ((pos >> 8) & 0xFF)
            << 8) == 0x0E + 256 * (pos / 256)) by (bit_vector)
            requires
                pos <= 20655,
        ;
        (0x000F | (pos & 0xFF) << 8, 0x000E | ((pos >> 8) & 0xFF) << 8)
    }

    /// Shows or hides the cursor; returns the word to write to `CRT_PORT`.
    pub fn set_enabled(&mut self, enabled: bool) -> (word: u16)
        ensures
            final(self)@ == (CursorView { enabled, ..old(self)@ }),
            word == register_word(SHAPE_REGISTER as int, shape_value(enabled, old(self)@.shape)),
    {
        self.enabled = enabled;
        self.update_shape()
    }

    /// Sets the shape of the cursor; returns the word to write to
    /// `CRT_PORT`.
    pub fn set_shape(&mut self, shape: u8) -> (word: u16)
        ensures
            final(self)@ == (CursorView { shape, ..old(self)@ }),
            word == register_word(SHAPE_REGISTER as int, shape_value(old(self)@.enabled, shape)),
    {
        self.shape = shape;
        self.update_shape()
    }

    /// Moves the cursor to column `x` of row `y`; returns the two words to
    /// write to `CRT_PORT`, in order.
    pub fn set_position(&mut self, x: u8, y: u8) -> (words: (u16, u16))
        ensures
            final(self)@ == (CursorView { row: y, col: x, ..old(self)@ }),
            words.0 == register_word(POSITION_LOW_REGISTER as int, (y as int * 80 + x as int) % 256),
            words.1 == register_word(POSITION_HIGH_REGISTER as int, (y as int * 80 + x as int) / 256),
    {
        self.col = x;
        self.row = y;
        self.update_position()
    }
}

} // verus!
