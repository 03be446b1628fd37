//! The text-mode screen: 25 rows of 80 character cells, written at the
//! bottom row and scrolled up at each new line.
use vstd::prelude::*;
use vstd::string::StringSliceAdditionalSpecFns;

verus! {

/// Rows on the screen.
pub const BUFFER_HEIGHT: usize = 25;

/// Columns on the screen.
pub const BUFFER_WIDTH: usize = 80;

/// Cells on the screen.
pub const BUFFER_CELLS: usize = 2000;

/// The sixteen colors of text mode.
#[derive(Clone, Copy, Debug, PartialEq, Eq, Structural)]
pub enum Color {
    Black,
    Blue,
    Green,
    Cyan,
    Red,
    Magenta,
    Brown,
    LightGray,
    DarkGray,
    LightBlue,
    LightGreen,
    LightCyan,
    LightRed,
    Pink,
    Yellow,
    White,
}

impl Color {
    /// The color's number in text mode.
    pub open spec fn spec_value(self) -> u8 {
        match self {
            Color::Black => 0,
            Color::Blue => 1,
            Color::Green => 2,
            Color::Cyan => 3,
            Color::Red => 4,
            Color::Magenta => 5,
            Color::Brown => 6,
            Color::LightGray => 7,
            Color::DarkGray => 8,
            Color::LightBlue => 9,
            Color::LightGreen => 10,
            Color::LightCyan => 11,
            Color::LightRed => 12,
            Color::Pink => 13,
            Color::Yellow => 14,
            Color::White => 15,
        }
    }

    pub fn value(self) -> (r: u8)
        ensures
            r == self.spec_value(),
    {
        match self {
            Color::Black => 0,
            Color::Blue => 1,
            Color::Green => 2,
            Color::Cyan => 3,
            Color::Red => 4,
            Color::Magenta => 5,
            Color::Brown => 6,
            Color::LightGray => 7,
            Color::DarkGray => 8,
            Color::LightBlue => 9,
            Color::LightGreen => 10,
            Color::LightCyan => 11,
            Color::LightRed => 12,
            Color::Pink => 13,
            Color::Yellow => 14,
            Color::White => 15,
        }
    }
}

/// A foreground and a background color, packed in one byte: the background
/// in the high four bits, the foreground in the low four.
#[derive(Clone, Copy, Debug, PartialEq, Eq, Structural)]
pub struct ColorCode(pub u8);

impl ColorCode {
    pub fn new(foreground: Color, background: Color) -> (r: ColorCode)
        ensures
            r.0 == background.spec_value() * 16 + foreground.spec_value(),
    {
        let f = foreground.value();
        let b = background.value();
        assert(((b << 4u8) | f) == b * 16 + f) by (bit_vector)
            requires b < 16, f < 16;
        ColorCode((b << 4) | f)
    }
}

/// One cell of the screen: a character byte and its colors.
#[derive(Clone, Copy, Debug, PartialEq, Eq, Structural)]
pub struct ScreenChar {
    pub ascii_character: u8,
    pub color_code: ColorCode,
}

/// The screen after a new line: every row moves one up, the top row is lost,
/// and the bottom row is filled with `blank`.
pub open spec fn scrolled(cells: Seq<ScreenChar>, blank: ScreenChar) -> Seq<ScreenChar> {
    Seq::new(
        BUFFER_CELLS as nat,
        |i: int|
            if i < BUFFER_CELLS - BUFFER_WIDTH {
                cells[i + BUFFER_WIDTH]
            } else {
                blank
            },
    )
}

/// The cursor column and the screen after writing `byte`: a new line for
/// `'\n'`; any other byte goes at the cursor in the bottom row, after a new
/// line if the row is full.
pub open spec fn after_byte(column: nat, cells: Seq<ScreenChar>, color: ColorCode, byte: u8) -> (nat, Seq<ScreenChar>) {
    let blank = ScreenChar { ascii_character: 0x20, color_code: color };
    if byte == 0x0a {
        (0, scrolled(cells, blank))
    } else {
        let (col, base) = if column >= BUFFER_WIDTH {
            (0nat, scrolled(cells, blank))
        } else {
            (column, cells)
        };
        (
            col + 1,
            base.update(
                (BUFFER_CELLS - BUFFER_WIDTH + col) as int,
                ScreenChar { ascii_character: byte, color_code: color },
            ),
        )
    }
}

/// The byte that stands on the screen for `byte`: itself if it is printable
/// ASCII or a new line, a filled square otherwise.
pub open spec fn shown_byte(byte: u8) -> u8 {
    if (0x20 <= byte <= 0x7e) || byte == 0x0a {
        byte
    } else {
        0xfe
    }
}

/// The cursor column and the screen after writing `bytes`, one after another.
pub open spec fn after_bytes(column: nat, cells: Seq<ScreenChar>, color: ColorCode, bytes: Seq<u8>) -> (
    nat,
    Seq<ScreenChar>,
)
    decreases bytes.len(),
{
    if bytes.len() == 0 {
        (column, cells)
    } else {
        let (c, s) = after_bytes(column, cells, color, bytes.drop_last());
        after_byte(c, s, color, shown_byte(bytes.last()))
    }
}

/// Writes text to the screen, always at the bottom row.
pub struct Writer {
    column_position: usize,
    color_code: ColorCode,
    buffer: Vec<ScreenChar>,
}

impl Writer {
    /// The cells, row by row from the top.
    pub closed spec fn cells(&self) -> Seq<ScreenChar> {
        self.buffer@
    }

    /// The cursor's column in the bottom row.
    pub closed spec fn column(&self) -> nat {
        self.column_position as nat
    }

    pub closed spec fn color(&self) -> ColorCode {
        self.color_code
    }

    pub open spec fn wf(&self) -> bool {
        &&& self.cells().len() == BUFFER_CELLS
        &&& self.column() <= BUFFER_WIDTH
    }

    /// A writer in `color_code` over a blank screen, cursor at the left.
    pub fn new(color_code: ColorCode) -> (r: Writer)
        ensures
            r.wf(),
            r.column() == 0,
            r.color() == color_code,
            r.cells() == Seq::new(
                BUFFER_CELLS as nat,
                |i: int| ScreenChar { ascii_character: 0x20, color_code },
            ),
    {
        let mut buffer: Vec<ScreenChar> = Vec::new();
        let mut i: usize = 0;
        while i < BUFFER_CELLS
            invariant
                i <= BUFFER_CELLS,
                buffer@ == Seq::new(i as nat, |k: int| ScreenChar { ascii_character: 0x20, color_code }),
            decreases BUFFER_CELLS - i,
        {
            buffer.push(ScreenChar { ascii_character: 0x20, color_code });
            proof {
                assert(buffer@ =~= Seq::new((i + 1) as nat, |k: int| ScreenChar { ascii_character: 0x20, color_code }));
            }
            i = i + 1;
        }
        Writer { column_position: 0, color_code, buffer }
    }

    /// The cell at `row`, `col`.
    pub fn char_at(&self, row: usize, col: usize) -> (r: ScreenChar)
        requires
            self.wf(),
            row < BUFFER_HEIGHT,
            col < BUFFER_WIDTH,
        ensures
            r == self.cells()[row * BUFFER_WIDTH + col],
    {
        self.buffer[row * BUFFER_WIDTH + col]
    }

    pub fn column_position(&self) -> (r: usize)
        ensures
            r == self.column(),
    {
        self.column_position
    }

    /// Writes one byte at the cursor; `'\n'` starts a new line.
    pub fn write_byte(&mut self, byte: u8)
        requires
            old(self).wf(),
        ensures
            final(self).wf(),
            final(self).color() == old(self).color(),
            (final(self).column(), final(self).cells()) == after_byte(
                old(self).column(),
                old(self).cells(),
                old(self).color(),
                byte,
            ),
    {
        if byte == 0x0a {
            self.new_line();
        } else {
            if self.column_position >= BUFFER_WIDTH {
                self.new_line();
            }
            let row = BUFFER_HEIGHT - 1;
            let col = self.column_position;
            let color_code = self.color_code;
            self.buffer.set(row * BUFFER_WIDTH + col, ScreenChar { ascii_character: byte, color_code });
            self.column_position = self.column_position + 1;
        }
    }

    /// Moves every row one up, dropping the top row, clears the bottom row and
    /// puts the cursor at its left.
    fn new_line(&mut self)
        requires
            old(self).wf(),
        ensures
            final(self).wf(),
            final(self).color() == old(self).color(),
            final(self).column() == 0,
            final(self).cells() == scrolled(
                old(self).cells(),
                ScreenChar { ascii_character: 0x20, color_code: old(self).color() },
            ),
    {
        let ghost old_cells = self.buffer@;
        let mut i: usize = 0;
        while i < BUFFER_CELLS - BUFFER_WIDTH
            invariant
                self.wf(),
                self.color() == old(self).color(),
                old_cells == old(self).cells(),
                i <= BUFFER_CELLS - BUFFER_WIDTH,
                forall|k: int| 0 <= k < i ==> #[trigger] self.buffer@[k] == old_cells[k + BUFFER_WIDTH],
                forall|k: int| i <= k < BUFFER_CELLS ==> #[trigger] self.buffer@[k] == old_cells[k],
            decreases BUFFER_CELLS - BUFFER_WIDTH - i,
        {
            let character = self.buffer[i + BUFFER_WIDTH];
            self.buffer.set(i, character);
            i = i + 1;
        }
        self.clear_row(BUFFER_HEIGHT - 1);
        self.column_position = 0;
        proof {
            assert(self.buffer@ =~= scrolled(
                old_cells,
                ScreenChar { ascii_character: 0x20, color_code: self.color_code },
            ));
        }
    }

    /// Fills row `row` with blanks in the writer's colors.
    fn clear_row(&mut self, row: usize)
        requires
            old(self).wf(),
            row < BUFFER_HEIGHT,
        ensures
            final(self).wf(),
            final(self).color() == old(self).color(),
            final(self).column() == old(self).column(),
            forall|k: int|
                0 <= k < BUFFER_CELLS ==> #[trigger] final(self).cells()[k] == if row * BUFFER_WIDTH <= k < (row
                    + 1) * BUFFER_WIDTH {
                    ScreenChar { ascii_character: 0x20, color_code: old(self).color() }
                } else {
                    old(self).cells()[k]
                },
    {
        let blank = ScreenChar { ascii_character: 0x20, color_code: self.color_code };
        let mut col: usize = 0;
        while col < BUFFER_WIDTH
            invariant
                self.wf(),
                self.color() == old(self).color(),
                self.column() == old(self).column(),
                row < BUFFER_HEIGHT,
                col <= BUFFER_WIDTH,
                blank == (ScreenChar { ascii_character: 0x20, color_code: old(self).color() }),
                forall|k: int|
                    0 <= k < BUFFER_CELLS ==> #[trigger] self.cells()[k] == if row * BUFFER_WIDTH <= k < row
                        * BUFFER_WIDTH + col {
                        blank
                    } else {
                        old(self).cells()[k]
                    },
            decreases BUFFER_WIDTH - col,
        {
            self.buffer.set(row * BUFFER_WIDTH + col, blank);
            col = col + 1;
        }
    }

    /// Writes `s` byte by byte; a byte that is neither printable ASCII nor a
    /// new line shows as a filled square.
    pub fn write_string(&mut self, s: &str)
        requires
            old(self).wf(),
        ensures
            final(self).wf(),
            final(self).color() == old(self).color(),
            (final(self).column(), final(self).cells()) == after_bytes(
                old(self).column(),
                old(self).cells(),
                old(self).color(),
                s.spec_bytes(),
            ),
    {
        let bytes = s.as_bytes();
        let mut i: usize = 0;
        while i < bytes.len()
            invariant
                self.wf(),
                self.color() == old(self).color(),
                bytes@ == s.spec_bytes(),
                i <= bytes@.len(),
                (self.column(), self.cells()) == after_bytes(
                    old(self).column(),
                    old(self).cells(),
                    old(self).color(),
                    bytes@.subrange(0, i as int),
                ),
            decreases bytes@.len() - i,
        {
            let byte = bytes[i];
            proof {
                assert(bytes@.subrange(0, i as int + 1).drop_last() =~= bytes@.subrange(0, i as int));
            }
            if (0x20 <= byte && byte <= 0x7e) || byte == 0x0a {
                self.write_byte(byte);
            } else {
                self.write_byte(0xfe);
            }
            i = i + 1;
        }
        proof {
            assert(bytes@.subrange(0, bytes@.len() as int) =~= bytes@);
        }
    }
}

} // verus!
