//! The text console on a linear framebuffer.
//!
//! The console keeps a cursor in units of character cells, the colour of
//! what is written next, and what it has read of an escape sequence. It
//! decides what each character does; drawing the glyphs is left to the
//! caller, who is told where each one goes.
use vstd::prelude::*;
use vstd::arithmetic::div_mod::{lemma_mod_bound, lemma_multiply_divide_lt};
use vstd::string::StrSliceExecFns;

verus! {

/// Columns of a glyph, in font pixels.
pub const CHAR_WIDTH: usize = 7;

/// Rows of a glyph, in font pixels.
pub const CHAR_HEIGHT: usize = 9;

/// The largest size of a font pixel, in screen pixels.
pub const MAX_FONT_SIZE: usize = 64;

/// The character that begins an escape sequence.
pub const ESCAPE: char = '\x1b';

/// A place on the console, in character cells.
#[derive(Clone, Copy, Debug, PartialEq, Eq, Structural)]
pub struct Point {
    /// Column.
    pub x: usize,
    /// Row.
    pub y: usize,
}

impl From<(usize, usize)> for Point {
    fn from(value: (usize, usize)) -> (point: Self) {
        Self { x: value.0, y: value.1 }
    }
}

impl vstd::std_specs::convert::FromSpecImpl<(usize, usize)> for Point {
    open spec fn obeys_from_spec() -> bool {
        true
    }

    open spec fn from_spec(value: (usize, usize)) -> Self {
        Point { x: value.0, y: value.1 }
    }
}

impl Point {
    /// Column and row.
    pub fn into(self) -> (pair: (usize, usize))
        ensures
            pair == (self.x, self.y),
    {
        (self.x, self.y)
    }
}

/// A colour, as the framebuffer stores it.
#[derive(Clone, Copy, Debug, PartialEq, Eq, Structural)]
pub struct Pixel {
    /// Blue.
    pub b: u8,
    /// Green.
    pub g: u8,
    /// Red.
    pub r: u8,
}

/// What the boot loader says of the framebuffer.
#[derive(Clone, Copy, Debug, PartialEq, Eq, Structural)]
pub struct FramebufferInfo {
    /// Address of the first byte.
    pub address: usize,
    /// Bytes from one row of pixels to the next.
    pub pitch: u32,
    /// Bits per pixel.
    pub bpp: u8,
    /// Rows of pixels.
    pub height: u32,
    /// Pixels per row.
    pub width: u32,
}

/// Why the console does not go on.
#[derive(Clone, Copy, Debug, PartialEq, Eq, Structural)]
pub enum ConsoleError {
    /// An escape sequence ends in a character that the console does not
    /// know.
    UnsupportedEscape,
}

/// How far an escape sequence has been read.
#[derive(Debug)]
pub enum AnsiEscapeParseState {
    /// No escape sequence is being read.
    Ground,
    /// The escape character has been read.
    Esc,
    /// The opening bracket has been read.
    Bracket,
    /// Arguments are being read; these are the digits of the one that is
    /// not complete yet.
    Argument(Vec<u8>),
}

/// What has been read of an escape sequence.
#[derive(Debug)]
pub struct AnsiEscape {
    /// How far the sequence has been read.
    pub escape: AnsiEscapeParseState,
    /// The arguments that are complete.
    pub args: Vec<u8>,
}

impl AnsiEscape {
    /// No escape sequence and no arguments.
    pub fn new() -> (escape: Self)
        ensures
            escape.escape is Ground,
            escape.args@ == Seq::<u8>::empty(),
    {
        AnsiEscape { escape: AnsiEscapeParseState::Ground, args: Vec::new() }
    }
}

/// The number that decimal digits stand for.
pub open spec fn digits_value(digits: Seq<u8>) -> nat
    decreases digits.len(),
{
    if digits.len() == 0 {
        0
    } else {
        digits_value(digits.drop_last()) * 10 + digits.last() as nat
    }
}

/// The argument that decimal digits stand for: their number, if there is
/// at least one digit and the number fits into a byte.
pub open spec fn parse_argument(digits: Seq<u8>) -> Option<u8> {
    if digits.len() > 0 && digits_value(digits) <= 255 {
        Some(digits_value(digits) as u8)
    } else {
        None
    }
}

/// The arguments once the argument with these digits is complete: it is
/// added if it is an argument at all.
pub open spec fn with_argument(args: Seq<u8>, digits: Seq<u8>) -> Seq<u8> {
    match parse_argument(digits) {
        Some(n) => args.push(n),
        None => args,
    }
}

/// The argument that `digits` stand for, see [`parse_argument`].
pub fn parse_digits(digits: &Vec<u8>) -> (argument: Option<u8>)
    requires
        forall|i: int| 0 <= i < digits@.len() ==> digits@[i] <= 9,
    ensures
        argument == parse_argument(digits@),
{
    let mut value: u16 = 0;
    let mut fits = true;
    let mut i: usize = 0;
    while i < digits.len()
        invariant
            i <= digits@.len(),
            forall|k: int| 0 <= k < digits@.len() ==> digits@[k] <= 9,
            fits ==> value == digits_value(digits@.take(i as int)) && value <= 255,
            !fits ==> digits_value(digits@.take(i as int)) > 255,
        decreases digits@.len() - i,
    {
        assert(digits@.take(i + 1).drop_last() =~= digits@.take(i as int));
        if fits {
            value = value * 10 + digits[i] as u16;
            if value > 255 {
                fits = false;
            }
        }
        i += 1;
    }
    assert(digits@.take(digits@.len() as int) =~= digits@);
    if fits && digits.len() > 0 {
        Some(value as u8)
    } else {
        None
    }
}

/// What the console remembers while it goes through the arguments of a
/// colour sequence.
pub struct ColorScan {
    /// Whether an extended colour (argument 38) is being read.
    pub extended: bool,
    /// The colour model of the extended colour: 2 for red, green, blue.
    pub model: u8,
    /// Red of the extended colour.
    pub r: u8,
    /// Green of the extended colour.
    pub g: u8,
    /// Index from which the parts of the extended colour are counted.
    pub last: int,
    /// The colour so far.
    pub color: Pixel,
}

/// The scan before the first argument.
pub open spec fn scan_start(color: Pixel) -> ColorScan {
    ColorScan { extended: false, model: 255, r: 0, g: 0, last: 0, color }
}

/// The scan after the argument `arg` at index `i`.
///
/// Outside an extended colour, 0 gives white, 31 red, 90 grey and 92
/// green, 38 begins an extended colour, and any other argument does
/// nothing. Inside an extended colour the next argument is its colour
/// model; with the model 2 the three arguments after that are red, green
/// and blue, and the last of them sets the colour and ends the extended
/// colour.
pub open spec fn scan_step(s: ColorScan, i: int, arg: u8) -> ColorScan {
    if s.extended {
        if s.last + 1 == i {
            ColorScan { model: arg, ..s }
        } else if s.last + 2 == i {
            if s.model == 2 {
                ColorScan { r: arg, ..s }
            } else {
                s
            }
        } else if s.last + 3 == i && s.model == 2 {
            ColorScan { g: arg, ..s }
        } else if s.last + 4 == i && s.model == 2 {
            ColorScan {
                extended: false,
                model: 255,
                r: 0,
                g: 0,
                last: i,
                color: Pixel { r: s.r, g: s.g, b: arg },
            }
        } else {
            s
        }
    } else {
        let next = ColorScan { last: i + 1, ..s };
        if arg == 0 {
            ColorScan { color: Pixel { r: 255, g: 255, b: 255 }, ..next }
        } else if arg == 31 {
            ColorScan { color: Pixel { b: 25, g: 25, r: 200 }, ..next }
        } else if arg == 38 {
            ColorScan { extended: true, last: i, ..s }
        } else if arg == 90 {
            ColorScan { color: Pixel { r: 150, g: 150, b: 150 }, ..next }
        } else if arg == 92 {
            ColorScan { color: Pixel { r: 100, g: 244, b: 85 }, ..next }
        } else {
            next
        }
    }
}

/// The scan after the first `n` arguments.
pub open spec fn scan(args: Seq<u8>, n: int, color: Pixel) -> ColorScan
    decreases n,
{
    if n <= 0 {
        scan_start(color)
    } else {
        scan_step(scan(args, n - 1, color), n - 1, args[n - 1])
    }
}

/// The colour that a colour sequence with arguments `args` leaves, coming
/// from `color`.
pub open spec fn graphics_color(args: Seq<u8>, color: Pixel) -> Pixel {
    scan(args, args.len() as int, color).color
}

/// The colour that a colour sequence with arguments `args` leaves, coming
/// from `color`.
pub fn select_graphics(args: &Vec<u8>, color: Pixel) -> (after: Pixel)
    ensures
        after == graphics_color(args@, color),
{
    let mut extended = false;
    let mut model: u8 = 255;
    let mut r: u8 = 0;
    let mut g: u8 = 0;
    let mut last: usize = 0;
    let mut current = color;
    let mut i: usize = 0;
    while i < args.len()
        invariant
            i <= args@.len(),
            last <= i,
            scan(args@, i as int, color) == (ColorScan {
                extended,
                model,
                r,
                g,
                last: last as int,
                color: current,
            }),
        decreases args@.len() - i,
    {
        let arg: u8 = args[i];
        if extended {
            let distance: usize = i - last;
            if distance == 1 {
                model = arg;
            } else if distance == 2 {
                if model == 2 {
                    r = arg;
                }
            } else if distance == 3 && model == 2 {
                g = arg;
            } else if distance == 4 && model == 2 {
                current = Pixel { r, g, b: arg };
                extended = false;
                model = 255;
                r = 0;
                g = 0;
                last = i;
            }
        } else {
            last = i + 1;
            if arg == 0 {
                current = Pixel { r: 255, g: 255, b: 255 };
            } else if arg == 31 {
                current = Pixel { b: 25, g: 25, r: 200 };
            } else if arg == 38 {
                last = i;
                extended = true;
            } else if arg == 90 {
                current = Pixel { r: 150, g: 150, b: 150 };
            } else if arg == 92 {
                current = Pixel { r: 100, g: 244, b: 85 };
            }
        }
        i += 1;
    }
    current
}

/// Whether a pixel of the glyph `bitmap` is set: the pixel in column `x`
/// of row `y` is bit `x + 7 * y`.
pub fn glyph_pixel(bitmap: u64, x: usize, y: usize) -> (set: bool)
    requires
        x < CHAR_WIDTH,
        y < CHAR_HEIGHT,
    ensures
        set == ((bitmap >> ((x + 7 * y) as u64)) & 1 != 0),
{
    (bitmap >> ((x + y * CHAR_WIDTH) as u64)) & 1 != 0
}

/// The colour of a pixel of a glyph: `color` where the glyph is set, else
/// black.
pub fn glyph_color(set: bool, color: Pixel) -> (pixel: Pixel)
    ensures
        pixel == if set {
            color
        } else {
            Pixel { r: 0, g: 0, b: 0 }
        },
{
    if set {
        color
    } else {
        Pixel { r: 0, g: 0, b: 0 }
    }
}

/// How far an escape sequence has been read, as plain values.
pub enum EscapeView {
    /// No escape sequence is being read.
    Ground,
    /// The escape character has been read.
    Esc,
    /// The opening bracket has been read.
    Bracket,
    /// Arguments are being read; these are the digits of the one that is
    /// not complete yet.
    Argument(Seq<u8>),
}

/// The console as plain values.
pub struct LoggerView {
    /// The framebuffer.
    pub framebuffer: FramebufferInfo,
    /// The cell of the next glyph.
    pub cursor: Point,
    /// Size of a font pixel, in screen pixels.
    pub font_size: usize,
    /// The colour of the next glyph.
    pub color: Pixel,
    /// How far an escape sequence has been read.
    pub escape: EscapeView,
    /// The arguments of the escape sequence that are complete.
    pub args: Seq<u8>,
}

/// Glyphs per row of the console: each takes one more font pixel than it is
/// wide.
pub open spec fn line_width_of(info: FramebufferInfo, font_size: usize) -> int {
    info.pitch as int / (info.bpp as int / 8) / (8 * font_size)
}

/// Rows of glyphs of the console: each takes one more font pixel than a
/// glyph is high.
pub open spec fn term_height_of(info: FramebufferInfo, font_size: usize) -> int {
    info.height as int / (10 * font_size)
}

/// Whether a console can be laid out on the framebuffer: a pixel has at
/// least one byte, and there is room for at least one glyph.
pub open spec fn usable(info: FramebufferInfo, font_size: usize) -> bool {
    &&& info.bpp >= 8
    &&& 1 <= font_size <= MAX_FONT_SIZE
    &&& line_width_of(info, font_size) >= 1
    &&& term_height_of(info, font_size) >= 1
}

/// The view of the state of an escape sequence.
pub open spec fn escape_view(state: AnsiEscapeParseState) -> EscapeView {
    match state {
        AnsiEscapeParseState::Ground => EscapeView::Ground,
        AnsiEscapeParseState::Esc => EscapeView::Esc,
        AnsiEscapeParseState::Bracket => EscapeView::Bracket,
        AnsiEscapeParseState::Argument(digits) => EscapeView::Argument(digits@),
    }
}

/// Whether the digits of an argument that is being read are digits.
pub open spec fn digits_valid(state: EscapeView) -> bool {
    state matches EscapeView::Argument(digits) ==> forall|i: int|
        0 <= i < digits.len() ==> #[trigger] digits[i] <= 9
}

impl LoggerView {
    /// Glyphs per row.
    pub open spec fn line_width(self) -> int {
        line_width_of(self.framebuffer, self.font_size)
    }

    /// Rows of glyphs.
    pub open spec fn term_height(self) -> int {
        term_height_of(self.framebuffer, self.font_size)
    }

    /// The cursor once it has left row `y` at the bottom: it stays in the
    /// last row, as the console does not scroll.
    pub open spec fn settled(self, x: int, y: int) -> Point {
        Point {
            x: x as usize,
            y: (if y >= self.term_height() {
                y - 1
            } else {
                y
            }) as usize,
        }
    }

    /// What writing `letter` does to the console.
    ///
    /// A line feed moves the cursor to the start of the next row. The
    /// escape character begins an escape sequence unless one is being
    /// read, and a bracket right after it opens the arguments. While
    /// arguments are read, a digit adds to the argument at hand, a
    /// semicolon completes it, and `m` completes it and sets the colour
    /// from all arguments; any other character is refused. Every other
    /// character is a glyph: it moves the cursor on by one cell, to the
    /// next row at the end of a row.
    pub open spec fn written(self, letter: char) -> LoggerView {
        let x = self.cursor.x as int;
        let y = self.cursor.y as int;
        if letter == '\n' {
            LoggerView { cursor: self.settled(0, y + 1), ..self }
        } else if letter == ESCAPE {
            if self.escape is Ground {
                LoggerView { escape: EscapeView::Esc, ..self }
            } else {
                self
            }
        } else if letter == '[' && self.escape is Esc {
            LoggerView { escape: EscapeView::Bracket, ..self }
        } else if self.escape is Bracket || self.escape is Argument {
            let digits = match self.escape {
                EscapeView::Argument(digits) => digits,
                _ => Seq::<u8>::empty(),
            };
            if '0' <= letter <= '9' {
                LoggerView { escape: EscapeView::Argument(digits.push((letter as u32 - 48) as u8)), ..self }
            } else if letter == ';' {
                LoggerView {
                    escape: EscapeView::Argument(Seq::<u8>::empty()),
                    args: with_argument(self.args, digits),
                    ..self
                }
            } else if letter == 'm' {
                LoggerView {
                    escape: EscapeView::Ground,
                    args: Seq::<u8>::empty(),
                    color: graphics_color(with_argument(self.args, digits), self.color),
                    ..self
                }
            } else {
                self
            }
        } else if x + 1 >= self.line_width() {
            LoggerView { cursor: self.settled(0, y + 1), ..self }
        } else {
            LoggerView { cursor: self.settled(x + 1, y), ..self }
        }
    }

    /// What writing `letter` returns: the cell of the glyph to draw, if the
    /// character is a glyph, or the refusal.
    pub open spec fn write_result(self, letter: char) -> Result<Option<Point>, ConsoleError> {
        if letter == '\n' || letter == ESCAPE || (letter == '[' && self.escape is Esc) {
            Ok(None)
        } else if self.escape is Bracket || self.escape is Argument {
            if ('0' <= letter <= '9') || letter == ';' || letter == 'm' {
                Ok(None)
            } else {
                Err(ConsoleError::UnsupportedEscape)
            }
        } else {
            Ok(Some(self.cursor))
        }
    }
}

/// The console after the first `n` characters of `s` are written.
pub open spec fn written_all(v: LoggerView, s: Seq<char>, n: int) -> LoggerView
    decreases n,
{
    if n <= 0 {
        v
    } else {
        written_all(v, s, n - 1).written(s[n - 1])
    }
}

/// Whether each of the first `n` characters of `s` is accepted when they
/// are written in order.
pub open spec fn accepted_all(v: LoggerView, s: Seq<char>, n: int) -> bool
    decreases n,
{
    n <= 0 || (accepted_all(v, s, n - 1) && written_all(v, s, n - 1).write_result(s[n - 1]) is Ok)
}

/// The glyphs among the first `n` characters of `s`, each with the cell in
/// which it is drawn.
pub open spec fn drawn_all(v: LoggerView, s: Seq<char>, n: int) -> Seq<(Point, char)>
    decreases n,
{
    if n <= 0 {
        Seq::<(Point, char)>::empty()
    } else {
        match written_all(v, s, n - 1).write_result(s[n - 1]) {
            Ok(Some(p)) => drawn_all(v, s, n - 1).push((p, s[n - 1])),
            _ => drawn_all(v, s, n - 1),
        }
    }
}

/// The `k`-th write of a glyph whose upper left pixel is at `base`: the
/// address of a screen pixel and its colour.
///
/// The rows of font pixels come from the top down, in each row the font
/// pixels from left to right, and each font pixel as rows of screen pixels
/// in the same order. A font pixel that is set in `bitmap` has the colour
/// of the console, any other is black.
pub open spec fn glyph_write(v: LoggerView, base: int, bitmap: u64, k: int) -> (int, Pixel) {
    let size = v.font_size as int;
    let xx = k % size;
    let yy = (k / size) % size;
    let x = (k / (size * size)) % 7;
    let y = k / (size * size * 7);
    (
        base + (size * x + xx) * v.framebuffer.bpp / 8 + (size * y + yy) * v.framebuffer.pitch,
        if (bitmap >> ((x + 7 * y) as u64)) & 1 != 0 {
            v.color
        } else {
            Pixel { r: 0, g: 0, b: 0 }
        },
    )
}

/// Whether `n` is a number that the machine can hold in an address.
pub open spec fn in_usize(n: int) -> bool {
    0 <= n <= usize::MAX
}

impl LoggerView {
    /// Column within its row and row of screen pixels at which the glyph of
    /// cell `offset` begins.
    pub open spec fn glyph_offset(self, offset: (usize, usize)) -> (int, int) {
        (
            offset.0 as int % self.line_width(),
            self.font_size * 10 * (offset.1 + offset.0 as int / self.line_width()),
        )
    }

    /// Address of the upper left pixel of the glyph of cell `offset`.
    pub open spec fn glyph_base(self, offset: (usize, usize)) -> int {
        self.framebuffer.address + self.glyph_offset(offset).1 * self.framebuffer.pitch + self.glyph_offset(
            offset,
        ).0 * self.font_size * 8 * self.framebuffer.bpp / 8
    }

    /// Whether the addresses of the glyph of cell `offset` can be worked
    /// out on this machine.
    pub open spec fn drawable(self, offset: (usize, usize)) -> bool {
        &&& in_usize(offset.1 + offset.0 as int / self.line_width())
        &&& in_usize(self.glyph_offset(offset).1)
        &&& in_usize(self.glyph_offset(offset).1 * self.framebuffer.pitch)
        &&& in_usize(self.glyph_offset(offset).0 * self.font_size * 8 * self.framebuffer.bpp)
        &&& in_usize(
            self.glyph_base(offset) + 7 * self.font_size * self.framebuffer.bpp + 9 * self.font_size
                * self.framebuffer.pitch,
        )
    }
}

/// The text console on a framebuffer.
pub struct FramebufferLogger {
    framebuffer: FramebufferInfo,
    cursor: Point,
    font_size: usize,
    color: Pixel,
    escape: AnsiEscape,
}

impl View for FramebufferLogger {
    type V = LoggerView;

    closed spec fn view(&self) -> LoggerView {
        LoggerView {
            framebuffer: self.framebuffer,
            cursor: self.cursor,
            font_size: self.font_size,
            color: self.color,
            escape: escape_view(self.escape.escape),
            args: self.escape.args@,
        }
    }
}

impl FramebufferLogger {
    #[verifier::type_invariant]
    spec fn laid_out(self) -> bool {
        &&& usable(self.framebuffer, self.font_size)
        &&& self.cursor.x < line_width_of(self.framebuffer, self.font_size)
        &&& self.cursor.y < term_height_of(self.framebuffer, self.font_size)
        &&& digits_valid(escape_view(self.escape.escape))
    }

    /// A console on `framebuffer` that writes white glyphs with font
    /// pixels of two screen pixels, from the upper left corner on; nothing
    /// where the framebuffer has no room for one glyph.
    pub fn new(framebuffer: FramebufferInfo) -> (logger: Option<FramebufferLogger>)
        ensures
            logger is Some == usable(framebuffer, 2),
            logger matches Some(l) ==> l@ == (LoggerView {
                framebuffer,
                cursor: Point { x: 0, y: 0 },
                font_size: 2,
                color: Pixel { r: 255, g: 255, b: 255 },
                escape: EscapeView::Ground,
                args: Seq::<u8>::empty(),
            }),
    {
        if framebuffer.bpp < 8 {
            return None;
        }
        let line_width: usize = framebuffer.pitch as usize / (framebuffer.bpp as usize / 8) / 16;
        let term_height: usize = framebuffer.height as usize / 20;
        if line_width < 1 || term_height < 1 {
            return None;
        }
        Some(
            FramebufferLogger {
                framebuffer,
                cursor: Point { x: 0, y: 0 },
                color: Pixel { r: 255, g: 255, b: 255 },
                font_size: 2,
                escape: AnsiEscape::new(),
            },
        )
    }

    /// Glyphs per row.
    pub fn line_width(&self) -> (width: usize)
        ensures
            width == self@.line_width(),
            width >= 1,
            self@.cursor.x < width,
    {
        proof {
            use_type_invariant(self);
        }
        self.framebuffer.pitch as usize / (self.framebuffer.bpp as usize / 8) / ((CHAR_WIDTH + 1)
            * self.font_size)
    }

    /// Rows of glyphs.
    pub fn term_height(&self) -> (height: usize)
        ensures
            height == self@.term_height(),
            height >= 1,
            self@.cursor.y < height,
    {
        proof {
            use_type_invariant(self);
        }
        self.framebuffer.height as usize / ((1 + CHAR_HEIGHT) * self.font_size)
    }

    /// The cell of the next glyph.
    pub fn cursor(&self) -> (cursor: Point)
        ensures
            cursor == self@.cursor,
    {
        self.cursor
    }

    /// The colour of the next glyph.
    pub fn color(&self) -> (color: Pixel)
        ensures
            color == self@.color,
    {
        self.color
    }

    /// Size of a font pixel, in screen pixels.
    pub fn font_size(&self) -> (size: usize)
        ensures
            size == self@.font_size,
            1 <= size <= MAX_FONT_SIZE,
    {
        proof {
            use_type_invariant(self);
        }
        self.font_size
    }

    /// Sets the colour of the next glyph.
    pub fn set_color(&mut self, color: Pixel)
        ensures
            final(self)@ == (LoggerView { color, ..old(self)@ }),
    {
        proof {
            use_type_invariant(&*self);
        }
        self.color = color;
    }

    /// Writes `letter`: see [`LoggerView::written`]. Where the character
    /// is a glyph, the cell in which the caller is to draw it is returned.
    /// A refused character leaves the console as it is.
    pub fn write(&mut self, letter: char) -> (r: Result<Option<Point>, ConsoleError>)
        ensures
            r == old(self)@.write_result(letter),
            final(self)@ == old(self)@.written(letter),
    {
        proof {
            use_type_invariant(&*self);
        }
        let line_width: usize = self.line_width();
        let term_height: usize = self.term_height();
        let at = self.cursor;
        let mut x: usize = at.x;
        let mut y: usize = at.y;
        let mut draw: Option<Point> = None;
        let mut escape = AnsiEscape::new();
        core::mem::swap(&mut escape, &mut self.escape);
        let AnsiEscape { escape: state, args } = escape;
        let mut args = args;
        let mut color = self.color;
        let next: AnsiEscapeParseState;
        if letter == '\n' {
            x = 0;
            y = y + 1;
            next = state;
        } else if letter == ESCAPE {
            next = match state {
                AnsiEscapeParseState::Ground => AnsiEscapeParseState::Esc,
                other => other,
            };
        } else {
            match state {
                AnsiEscapeParseState::Esc => {
                    if letter == '[' {
                        next = AnsiEscapeParseState::Bracket;
                    } else {
                        next = AnsiEscapeParseState::Esc;
                        draw = Some(at);
                    }
                },
                AnsiEscapeParseState::Ground => {
                    next = AnsiEscapeParseState::Ground;
                    draw = Some(at);
                },
                AnsiEscapeParseState::Bracket => {
                    let digits: Vec<u8> = Vec::new();
                    match Self::argument_step(digits, args, color, letter) {
                        Ok((after, rest, painted)) => {
                            next = after;
                            args = rest;
                            color = painted;
                        },
                        Err((digits, rest)) => {
                            self.escape = AnsiEscape { escape: AnsiEscapeParseState::Bracket, args: rest };
                            return Err(ConsoleError::UnsupportedEscape);
                        },
                    }
                },
                AnsiEscapeParseState::Argument(digits) => {
                    match Self::argument_step(digits, args, color, letter) {
                        Ok((after, rest, painted)) => {
                            next = after;
                            args = rest;
                            color = painted;
                        },
                        Err((digits, rest)) => {
                            self.escape = AnsiEscape { escape: AnsiEscapeParseState::Argument(digits), args: rest };
                            return Err(ConsoleError::UnsupportedEscape);
                        },
                    }
                },
            }
        }
        if draw.is_some() {
            x = x + 1;
            if x >= line_width {
                y = y + 1;
                x = 0;
            }
        }
        if y >= term_height {
            y = y - 1;
        }
        self.escape = AnsiEscape { escape: next, args };
        self.color = color;
        self.cursor = Point { x, y };
        match draw {
            Some(p) => Ok(Some(p)),
            None => Ok(None),
        }
    }

    /// Where the glyph of cell `offset` begins: the column within its row,
    /// and the row of screen pixels. A column past the end of a row counts
    /// on into the rows below.
    pub fn calculate_offset(&self, offset: (usize, usize)) -> (r: (usize, usize))
        requires
            in_usize(offset.1 + offset.0 as int / self@.line_width()),
            in_usize(self@.font_size * 10 * (offset.1 + offset.0 as int / self@.line_width())),
        ensures
            r.0 == offset.0 as int % self@.line_width(),
            r.1 == self@.font_size * 10 * (offset.1 + offset.0 as int / self@.line_width()),
    {
        let line_width: usize = self.line_width();
        let font_size: usize = self.font_size();
        let offset_y: usize = font_size * (1 + CHAR_HEIGHT) * (offset.1 + (offset.0 / line_width));
        let offset_x: usize = offset.0 % line_width;
        (offset_x, offset_y)
    }

    /// Address of the upper left pixel of the glyph that begins in column
    /// `offset.0` of the row of screen pixels `offset.1`.
    pub fn character_addr(&self, offset: (usize, usize)) -> (address: usize)
        requires
            in_usize(offset.1 * self@.framebuffer.pitch),
            in_usize(offset.0 * self@.font_size * 8 * self@.framebuffer.bpp),
            in_usize(
                self@.framebuffer.address + offset.1 * self@.framebuffer.pitch + offset.0 * self@.font_size * 8
                    * self@.framebuffer.bpp / 8,
            ),
        ensures
            address == self@.framebuffer.address + offset.1 * self@.framebuffer.pitch + offset.0
                * self@.font_size * 8 * self@.framebuffer.bpp / 8,
    {
        let font_size: usize = self.font_size();
        proof {
            use_type_invariant(self);
        }
        assert(offset.0 * font_size <= offset.0 * font_size * 8 <= offset.0 * font_size * 8
            * self.framebuffer.bpp) by (nonlinear_arith)
            requires
                self.framebuffer.bpp >= 1,
                offset.0 >= 0,
                font_size >= 0,
        ;
        self.framebuffer.address + (offset.1 * self.framebuffer.pitch as usize) + (offset.0 * font_size
            * (CHAR_WIDTH + 1) * self.framebuffer.bpp as usize / 8)
    }

    /// Address of one screen pixel of a glyph whose upper left pixel is at
    /// `character_addr`: the screen pixel in column `xx` and row `yy` of
    /// the font pixel in column `x` and row `y`.
    pub fn pixel_addr(&self, character_addr: usize, x: usize, y: usize, xx: usize, yy: usize) -> (address: usize)
        requires
            x < CHAR_WIDTH,
            y < CHAR_HEIGHT,
            xx < self@.font_size,
            yy < self@.font_size,
            in_usize((self@.font_size * y + yy) * self@.framebuffer.pitch),
            in_usize(
                character_addr + (self@.font_size * x + xx) * self@.framebuffer.bpp / 8 + (self@.font_size * y
                    + yy) * self@.framebuffer.pitch,
            ),
        ensures
            address == character_addr + (self@.font_size * x + xx) * self@.framebuffer.bpp / 8 + (
            self@.font_size * y + yy) * self@.framebuffer.pitch,
    {
        let font_size: usize = self.font_size();
        assert(font_size * x <= 448 && font_size * y <= 576 && (font_size * x + xx) * self.framebuffer.bpp
            <= 512 * 255) by (nonlinear_arith)
            requires
                font_size <= 64,
                x < 7,
                y < 9,
                xx < font_size,
                self.framebuffer.bpp <= 255,
        ;
        character_addr + (((font_size * x) + xx) * self.framebuffer.bpp as usize / 8) + ((font_size * y)
            + yy) * self.framebuffer.pitch as usize
    }

    /// Whether the addresses of the glyph of cell `offset` can be worked
    /// out on this machine, see [`LoggerView::drawable`].
    pub fn is_drawable(&self, offset: (usize, usize)) -> (fits: bool)
        ensures
            fits == self@.drawable(offset),
    {
        let limit: u128 = usize::MAX as u128;
        let size: u128 = self.font_size() as u128;
        let width: u128 = self.line_width() as u128;
        let pitch: u128 = self.framebuffer.pitch as u128;
        let bpp: u128 = self.framebuffer.bpp as u128;
        let line: u128 = offset.1 as u128 + offset.0 as u128 / width;
        assert(size * 10 * line <= 640 * 0x2_0000_0000_0000_0000) by (nonlinear_arith)
            requires
                size <= 64,
                line <= 0x2_0000_0000_0000_0000,
        ;
        let row: u128 = size * 10 * line;
        let column: u128 = offset.0 as u128 % width;
        assert(column * size <= 0x1_0000_0000_0000_0000 * 64 && column * size * 8 * bpp
            <= 0x1_0000_0000_0000_0000 * 64 * 8 * 255) by (nonlinear_arith)
            requires
                size <= 64,
                column <= 0x1_0000_0000_0000_0000,
                bpp <= 255,
        ;
        let across: u128 = column * size * 8 * bpp;
        assert(row * pitch <= 640 * 0x2_0000_0000_0000_0000 * 0x1_0000_0000) by (nonlinear_arith)
            requires
                row <= 640 * 0x2_0000_0000_0000_0000,
                pitch <= 0x1_0000_0000,
        ;
        assert(7 * size * bpp <= 7 * 64 * 255 && 9 * size * pitch <= 9 * 64 * 0x1_0000_0000) by (nonlinear_arith)
            requires
                size <= 64,
                bpp <= 255,
                pitch <= 0x1_0000_0000,
        ;
        let base: u128 = self.framebuffer.address as u128 + row * pitch + across / 8;
        let end: u128 = base + 7 * size * bpp + 9 * size * pitch;
        line <= limit && row <= limit && row * pitch <= limit && across <= limit && end <= limit
    }

    /// The writes that draw the glyph `bitmap` in cell `offset`, in order:
    /// `63 * font_size * font_size` screen pixels, see [`glyph_write`].
    pub fn write_bitmap(&self, offset: (usize, usize), bitmap: u64) -> (writes: Vec<(usize, Pixel)>)
        requires
            self@.drawable(offset),
        ensures
            writes@.len() == 63 * self@.font_size * self@.font_size,
            forall|k: int|
                0 <= k < writes@.len() ==> (#[trigger] writes@[k]).0 == glyph_write(
                    self@,
                    self@.glyph_base(offset),
                    bitmap,
                    k,
                ).0 && writes@[k].1 == glyph_write(self@, self@.glyph_base(offset), bitmap, k).1,
    {
        let size: usize = self.font_size();
        let color = self.color();
        let place = self.calculate_offset(offset);
        proof {
            use_type_invariant(self);
            let bpp = self@.framebuffer.bpp as int;
            let pitch = self@.framebuffer.pitch as int;
            assert(7 * size * bpp >= 0 && 9 * size * pitch >= 0) by (nonlinear_arith)
                requires
                    size >= 0,
                    bpp >= 0,
                    pitch >= 0,
            ;
        }
        let base: usize = self.character_addr(place);
        assert(size * size <= 4096 && size * size >= 1 && size * size * 7 == 7 * (size * size) && 63 * size
            * size == 9 * (size * size * 7)) by (nonlinear_arith)
            requires
                1 <= size <= 64,
        ;
        let total: usize = 63 * size * size;
        let mut writes: Vec<(usize, Pixel)> = Vec::new();
        let mut k: usize = 0;
        while k < total
            invariant
                k <= total,
                total == 63 * size * size,
                total == 9 * (size * size * 7),
                1 <= size <= 64,
                size == self@.font_size,
                color == self@.color,
                size * size <= 4096,
                size * size >= 1,
                base == self@.glyph_base(offset),
                in_usize(
                    base + 7 * self@.font_size * self@.framebuffer.bpp + 9 * self@.font_size
                        * self@.framebuffer.pitch,
                ),
                writes@.len() == k,
                forall|j: int|
                    0 <= j < k ==> (#[trigger] writes@[j]).0 == glyph_write(self@, base as int, bitmap, j).0
                        && writes@[j].1 == glyph_write(self@, base as int, bitmap, j).1,
            decreases total - k,
        {
            let xx: usize = k % size;
            let yy: usize = (k / size) % size;
            let x: usize = (k / (size * size)) % 7;
            let y: usize = k / (size * size * 7);
            proof {
                lemma_mod_bound(k as int, size as int);
                lemma_mod_bound(k as int / size as int, size as int);
                lemma_mod_bound(k as int / (size * size), 7);
                lemma_multiply_divide_lt(k as int, (size * size * 7) as int, 9);
                let pitch = self@.framebuffer.pitch as int;
                let bpp = self@.framebuffer.bpp as int;
                assert((size * y + yy) * pitch <= 9 * size * pitch && (size * x + xx) * bpp <= 7 * size * bpp
                    && (size * x + xx) * bpp >= 0 && (size * y + yy) * pitch >= 0) by (nonlinear_arith)
                    requires
                        1 <= size,
                        x < 7,
                        y < 9,
                        xx < size,
                        yy < size,
                        pitch >= 0,
                        bpp >= 0,
                ;
            }
            let address: usize = self.pixel_addr(base, x, y, xx, yy);
            let pixel = glyph_color(glyph_pixel(bitmap, x, y), color);
            writes.push((address, pixel));
            k += 1;
        }
        writes
    }

    /// What a character does while the arguments of an escape sequence are
    /// read, given the digits of the argument at hand, the complete
    /// arguments and the colour. A character that is refused gives the
    /// digits and the arguments back.
    fn argument_step(digits: Vec<u8>, args: Vec<u8>, color: Pixel, letter: char) -> (r: Result<
        (AnsiEscapeParseState, Vec<u8>, Pixel),
        (Vec<u8>, Vec<u8>),
    >)
        requires
            forall|i: int| 0 <= i < digits@.len() ==> #[trigger] digits@[i] <= 9,
        ensures
            r is Ok == (('0' <= letter <= '9') || letter == ';' || letter == 'm'),
            r matches Err(back) ==> back.0 == digits && back.1 == args,
            r matches Ok(step) ==> {
                &&& digits_valid(escape_view(step.0))
                &&& '0' <= letter <= '9' ==> escape_view(step.0) == EscapeView::Argument(
                    digits@.push((letter as u32 - 48) as u8),
                ) && step.1@ == args@ && step.2 == color
                &&& letter == ';' ==> escape_view(step.0) == EscapeView::Argument(Seq::<u8>::empty())
                    && step.1@ == with_argument(args@, digits@) && step.2 == color
                &&& letter == 'm' ==> escape_view(step.0) == EscapeView::Ground && step.1@ == Seq::<
                    u8,
                >::empty() && step.2 == graphics_color(with_argument(args@, digits@), color)
            },
    {
        let mut digits = digits;
        let mut args = args;
        if '0' <= letter && letter <= '9' {
            digits.push((letter as u32 - 48) as u8);
            Ok((AnsiEscapeParseState::Argument(digits), args, color))
        } else if letter == ';' {
            match parse_digits(&digits) {
                Some(n) => {
                    args.push(n);
                },
                None => {},
            }
            Ok((AnsiEscapeParseState::Argument(Vec::new()), args, color))
        } else if letter == 'm' {
            match parse_digits(&digits) {
                Some(n) => {
                    args.push(n);
                },
                None => {},
            }
            let painted = select_graphics(&args, color);
            Ok((AnsiEscapeParseState::Ground, Vec::new(), painted))
        } else {
            Err((digits, args))
        }
    }

    /// Writes the characters of `s` in order and returns the cells of the
    /// glyphs to draw, each with its character. Writing ends at the first
    /// character that is refused.
    pub fn write_str(&mut self, s: &str) -> (r: Result<Vec<(Point, char)>, ConsoleError>)
        ensures
            r matches Ok(cells) ==> {
                &&& accepted_all(old(self)@, s@, s@.len() as int)
                &&& final(self)@ == written_all(old(self)@, s@, s@.len() as int)
                &&& cells@ == drawn_all(old(self)@, s@, s@.len() as int)
            },
            r is Err ==> exists|k: int|
                0 <= k < s@.len() && accepted_all(old(self)@, s@, k) && (#[trigger] written_all(
                    old(self)@,
                    s@,
                    k,
                )).write_result(s@[k]) is Err && final(self)@ == written_all(old(self)@, s@, k),
    {
        let n: usize = s.unicode_len();
        let mut cells: Vec<(Point, char)> = Vec::new();
        let mut i: usize = 0;
        while i < n
            invariant
                i <= n,
                n == s@.len(),
                accepted_all(old(self)@, s@, i as int),
                self@ == written_all(old(self)@, s@, i as int),
                cells@ == drawn_all(old(self)@, s@, i as int),
            decreases n - i,
        {
            let c = s.get_char(i);
            match self.write(c) {
                Err(e) => {
                    return Err(e);
                },
                Ok(Some(p)) => {
                    cells.push((p, c));
                },
                Ok(None) => {},
            }
            i += 1;
        }
        Ok(cells)
    }
}

} // verus!
