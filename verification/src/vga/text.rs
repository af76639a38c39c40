//! The cells of the VGA text screen and the writer that fills them.
use vstd::prelude::*;
use vstd::string::StrSliceExecFns;

verus! {

/// Columns of the screen.
pub const WIDTH: usize = 80;

/// Rows of the screen.
pub const HEIGHT: usize = 25;

/// The byte that stands for a character that cannot be shown.
pub const UNPRINTABLE: u8 = 0xfe;

/// A colour of the VGA palette.
#[derive(Debug, Clone, Copy, PartialEq, Eq, Structural)]
pub enum Color {
    /// Palette entry 0.
    Black,
    /// Palette entry 15.
    White,
}

impl Color {
    /// Number of the colour in the palette.
    pub open spec fn code_spec(self) -> u8 {
        match self {
            Color::Black => 0x0,
            Color::White => 0xf,
        }
    }

    /// Number of the colour in the palette.
    pub fn code(self) -> (code: u8)
        ensures
            code == self.code_spec(),
    {
        match self {
            Color::Black => 0x0,
            Color::White => 0xf,
        }
    }
}

/// The colours of one cell: foreground in the low four bits, background in
/// the high four.
#[derive(Debug, Clone, Copy, PartialEq, Eq, Structural)]
pub struct ColorCode(pub u8);

impl ColorCode {
    /// The code for `foreground` on `background`.
    pub fn new(foreground: Color, background: Color) -> (code: Self)
        ensures
            code.0 == foreground.code_spec() + 16 * background.code_spec(),
    {
        let f: u8 = foreground.code();
        let b: u8 = background.code();
        assert(f | b << 4u8 == f + 16 * b) by (bit_vector)
            requires
                f <= 15,
                b <= 15,
        ;
        ColorCode(f | b << 4_u8)
    }
}

/// One cell of the screen.
#[derive(Debug, Clone, Copy, PartialEq, Eq, Structural)]
pub struct ColoredChar {
    /// The byte of the character.
    pub char: u8,
    /// The colours of the cell.
    pub color: ColorCode,
}

impl ColoredChar {
    /// The cell that shows `char` in `color`: of the character its lowest
    /// eight bits are kept.
    pub fn new(char: char, color: ColorCode) -> (cell: Self)
        ensures
            cell == (ColoredChar { char: (char as u32 % 256) as u8, color }),
    {
        ColoredChar { char: (char as u32 % 256) as u8, color }
    }
}

/// Number of cells of the screen.
pub const CELLS: usize = 2000;

/// The cell that shows nothing, in `color`.
pub open spec fn blank(color: ColorCode) -> ColoredChar {
    ColoredChar { char: 0x20, color }
}

/// The cells of the screen, row after row.
pub struct TextBuffer {
    value: [[ColoredChar; WIDTH]; HEIGHT],
}

impl View for TextBuffer {
    type V = Seq<ColoredChar>;

    /// The 2000 cells: the cell in column `col` of row `row` is the one at
    /// `row * 80 + col`.
    closed spec fn view(&self) -> Seq<ColoredChar> {
        Seq::new(CELLS as nat, |i: int| self.value@[i / 80]@[i % 80])
    }
}

impl TextBuffer {
    /// A screen on which every cell is `cell`.
    pub fn new(cell: ColoredChar) -> (buffer: Self)
        ensures
            buffer@ == Seq::new(CELLS as nat, |i: int| cell),
    {
        let row: [ColoredChar; WIDTH] = [cell;WIDTH];
        let value: [[ColoredChar; WIDTH]; HEIGHT] = [row;HEIGHT];
        let buffer = TextBuffer { value };
        assert(buffer@ =~= Seq::new(CELLS as nat, |i: int| cell)) by {
            assert forall|i: int| 0 <= i < CELLS implies #[trigger] buffer@[i] == cell by {
                assert(0 <= i / 80 < HEIGHT && 0 <= i % 80 < WIDTH);
                assert(value@[i / 80] == row);
            }
        }
        buffer
    }

    /// The cell in column `col` of row `row`.
    pub fn cell(&self, row: usize, col: usize) -> (cell: ColoredChar)
        requires
            row < HEIGHT,
            col < WIDTH,
        ensures
            cell == self@[row * WIDTH + col],
            self@.len() == CELLS,
    {
        assert((row * 80 + col) / 80 == row && (row * 80 + col) % 80 == col);
        self.value[row][col]
    }

    /// Puts `cell` into the cell at `index`.
    fn put(&mut self, index: usize, cell: ColoredChar)
        requires
            index < CELLS,
        ensures
            final(self)@ == old(self)@.update(index as int, cell),
            old(self)@.len() == CELLS,
        no_unwind
    {
        let row: usize = index / WIDTH;
        let col: usize = index % WIDTH;
        let mut cells: [ColoredChar; WIDTH] = self.value[row];
        cells[col] = cell;
        self.value[row] = cells;
        assert(self@ =~= old(self)@.update(index as int, cell)) by {
            assert forall|i: int| 0 <= i < CELLS implies #[trigger] self@[i] == old(self)@.update(index as int, cell)[i] by {
                assert(0 <= i / 80 < HEIGHT && 0 <= i % 80 < WIDTH);
                if i / 80 == row && i % 80 == col {
                    assert(i == index);
                }
            }
        }
    }

    /// The cell at `index`.
    fn at(&self, index: usize) -> (cell: ColoredChar)
        requires
            index < CELLS,
        ensures
            cell == self@[index as int],
            self@.len() == CELLS,
    {
        self.value[index / WIDTH][index % WIDTH]
    }
}

/// A writer as plain values.
pub struct WriterView {
    /// The cells of the screen.
    pub cells: Seq<ColoredChar>,
    /// The colours of what is written next.
    pub color: ColorCode,
    /// Row of the cell that is written next.
    pub row: int,
    /// Column of the cell that is written next; 80 when the row is full.
    pub col: int,
}

/// The byte that shows character `c`: its lowest eight bits where they are
/// printable ASCII or a line feed, else `UNPRINTABLE`.
pub open spec fn shown_byte(c: char) -> u8 {
    let low = (c as u32 % 256) as u8;
    if (0x20 <= low <= 0x7e) || low == 0x0a {
        low
    } else {
        UNPRINTABLE
    }
}

impl WriterView {
    /// The writer once row `row` is filled with blanks in the writer's
    /// colours.
    pub open spec fn clear_line(self, row: int) -> WriterView {
        WriterView {
            cells: Seq::new(
                CELLS as nat,
                |i: int|
                    if row * 80 <= i < row * 80 + 80 {
                        blank(self.color)
                    } else {
                        self.cells[i]
                    },
            ),
            ..self
        }
    }

    /// The writer once it has gone to the start of the next row. From the
    /// last row there is no next row: every row moves up by one, the first
    /// is lost, and the last is filled with blanks.
    pub open spec fn new_line(self) -> WriterView {
        if self.row + 1 == HEIGHT {
            WriterView {
                cells: Seq::new(
                    CELLS as nat,
                    |i: int|
                        if i < CELLS - 80 {
                            self.cells[i + 80]
                        } else {
                            blank(self.color)
                        },
                ),
                col: 0,
                ..self
            }
        } else {
            WriterView { row: self.row + 1, col: 0, ..self }
        }
    }

    /// The writer once `c` is written. A line feed goes to the next row.
    /// Any other character fills the next cell, after going to the next
    /// row where the row is full.
    pub open spec fn write_char(self, c: char) -> WriterView {
        if c == '\n' {
            self.new_line()
        } else {
            let at = if self.col == WIDTH {
                self.new_line()
            } else {
                self
            };
            WriterView {
                cells: at.cells.update(
                    at.row * 80 + at.col,
                    ColoredChar { char: shown_byte(c), color: self.color },
                ),
                col: at.col + 1,
                ..at
            }
        }
    }

    /// The writer once the characters of `s` are written in order.
    pub open spec fn write_str(self, s: Seq<char>) -> WriterView
        decreases s.len(),
    {
        if s.len() == 0 {
            self
        } else {
            self.write_str(s.drop_last()).write_char(s.last())
        }
    }

    /// The writer once every row is filled with blanks and the next row is
    /// the first.
    pub open spec fn clear_screen(self) -> WriterView {
        WriterView { cells: Seq::new(CELLS as nat, |i: int| blank(self.color)), row: 0, ..self }
    }
}

/// The writer of the text console: the screen and the place of the next
/// character.
pub struct TextWriter {
    buffer: TextBuffer,
    color: ColorCode,
    row: usize,
    col: usize,
}

impl View for TextWriter {
    type V = WriterView;

    closed spec fn view(&self) -> WriterView {
        WriterView { cells: self.buffer@, color: self.color, row: self.row as int, col: self.col as int }
    }
}

impl TextWriter {
    #[verifier::type_invariant]
    spec fn on_screen(self) -> bool {
        self.row < HEIGHT && self.col <= WIDTH
    }

    /// A writer in white on black at the upper left corner of a blank
    /// screen.
    pub fn new() -> (writer: Self)
        ensures
            writer@ == (WriterView {
                cells: Seq::new(CELLS as nat, |i: int| blank(ColorCode(0x0f))),
                color: ColorCode(0x0f),
                row: 0,
                col: 0,
            }),
    {
        let color = ColorCode::new(Color::White, Color::Black);
        TextWriter { buffer: TextBuffer::new(ColoredChar { char: 0x20, color }), color, row: 0, col: 0 }
    }

    /// The screen.
    pub fn buffer(&self) -> (buffer: &TextBuffer)
        ensures
            buffer@ == self@.cells,
            0 <= self@.row < HEIGHT,
            0 <= self@.col <= WIDTH,
            self@.cells.len() == CELLS,
    {
        proof {
            use_type_invariant(self);
        }
        &self.buffer
    }

    /// Row and column of the cell that is written next.
    pub fn position(&self) -> (at: (usize, usize))
        ensures
            at.0 == self@.row,
            at.1 == self@.col,
            at.0 < HEIGHT,
            at.1 <= WIDTH,
    {
        proof {
            use_type_invariant(self);
        }
        (self.row, self.col)
    }

    /// Fills row `row` with blanks in the writer's colours.
    pub fn clear_line(&mut self, row: usize)
        requires
            row < HEIGHT,
        ensures
            final(self)@ == old(self)@.clear_line(row as int),
    {
        proof {
            use_type_invariant(&*self);
        }
        let cell = ColoredChar { char: 0x20, color: self.color };
        let mut col: usize = 0;
        while col < WIDTH
            invariant
                col <= WIDTH,
                row < HEIGHT,
                self.row < HEIGHT,
                self.col <= WIDTH,
                self.color == old(self).color,
                self.row == old(self).row,
                self.col == old(self).col,
                cell == blank(self.color),
                self.buffer@.len() == CELLS,
                forall|i: int|
                    0 <= i < CELLS ==> self.buffer@[i] == if row * 80 <= i < row * 80 + col {
                        cell
                    } else {
                        old(self).buffer@[i]
                    },
            decreases WIDTH - col,
        {
            self.buffer.put(row * WIDTH + col, cell);
            col += 1;
        }
        assert(self.buffer@ =~= old(self)@.clear_line(row as int).cells);
    }

    /// Goes to the start of the next row, moving every row up by one where
    /// there is no next row.
    pub fn new_line(&mut self)
        ensures
            final(self)@ == old(self)@.new_line(),
    {
        proof {
            use_type_invariant(&*self);
        }
        if self.row + 1 == HEIGHT {
            let mut i: usize = 0;
            while i < CELLS - WIDTH
                invariant
                    i <= CELLS - WIDTH,
                    self.row < HEIGHT,
                    self.col <= WIDTH,
                    self.color == old(self).color,
                    self.row == old(self).row,
                    self.buffer@.len() == CELLS,
                    old(self).buffer@.len() == CELLS,
                    forall|k: int|
                        0 <= k < CELLS ==> self.buffer@[k] == if k < i {
                            old(self).buffer@[k + 80]
                        } else {
                            old(self).buffer@[k]
                        },
                decreases CELLS - WIDTH - i,
            {
                let cell = self.buffer.at(i + WIDTH);
                self.buffer.put(i, cell);
                i += 1;
            }
            let ghost moved = self.buffer@;
            self.col = 0;
            self.clear_line(HEIGHT - 1);
            assert(self.buffer@ =~= old(self)@.new_line().cells);
        } else {
            self.row += 1;
            self.col = 0;
        }
    }

    /// Writes `c` at the place of the next character.
    pub fn write_char(&mut self, c: char)
        ensures
            final(self)@ == old(self)@.write_char(c),
    {
        proof {
            use_type_invariant(&*self);
        }
        let low: u8 = (c as u32 % 256) as u8;
        let byte: u8 = if (0x20 <= low && low <= 0x7e) || low == 0x0a {
            low
        } else {
            UNPRINTABLE
        };
        if c == '\n' {
            self.new_line();
            return ;
        }
        if self.col == WIDTH {
            self.new_line();
        }
        proof {
            use_type_invariant(&*self);
        }
        self.buffer.put(self.row * WIDTH + self.col, ColoredChar { char: byte, color: self.color });
        self.col += 1;
    }

    /// Writes the characters of `s` in order.
    pub fn write_str(&mut self, s: &str)
        ensures
            final(self)@ == old(self)@.write_str(s@),
    {
        let n: usize = s.unicode_len();
        let mut i: usize = 0;
        while i < n
            invariant
                i <= n,
                n == s@.len(),
                self@ == old(self)@.write_str(s@.take(i as int)),
            decreases n - i,
        {
            let c = s.get_char(i);
            assert(s@.take(i + 1).drop_last() =~= s@.take(i as int));
            self.write_char(c);
            i += 1;
        }
        assert(s@.take(n as int) =~= s@);
    }
}

impl TextWriter {
    /// Fills every row of the screen with blanks and makes the first row
    /// the next row; the column stays.
    pub fn clear(&mut self)
        ensures
            final(self)@ == old(self)@.clear_screen(),
    {
        proof {
            use_type_invariant(&*self);
        }
        let mut line: usize = 0;
        while line < HEIGHT
            invariant
                line <= HEIGHT,
                self@.color == old(self)@.color,
                self@.row == old(self)@.row,
                self@.col == old(self)@.col,
                self@.cells.len() == CELLS,
                forall|i: int|
                    0 <= i < CELLS ==> self@.cells[i] == if i < line * 80 {
                        blank(self@.color)
                    } else {
                        old(self)@.cells[i]
                    },
            decreases HEIGHT - line,
        {
            self.clear_line(line);
            line += 1;
        }
        proof {
            use_type_invariant(&*self);
        }
        self.row = 0;
        assert(self@.cells =~= old(self)@.clear_screen().cells);
    }
}

/// Fills every row of the screen of `writer` with blanks and makes the first
/// row the next row; the column stays.
pub fn clear_screen(writer: &mut TextWriter)
    ensures
        final(writer)@ == old(writer)@.clear_screen(),
{
    writer.clear();
}

} // verus!
