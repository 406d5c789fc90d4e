//! The character-cell display writer: an owned 25-by-80 grid of character
//! cells written at the bottom line, scrolled up on line breaks, with a
//! bounded backspace that can roll the screen back down one line.
//!
//! The memory-mapped buffer the hardware scans out lives at a fixed
//! physical address; the kernel's writer here owns its cells as plain data,
//! and the hardware edge copies them out. Every line movement is a bounded
//! loop over the known grid dimensions: nothing here recurses on the fixed
//! kernel stack.

use vstd::prelude::*;
use vstd::string::StringSliceAdditionalSpecFns;

verus! {

/// Width of the character grid in cells.
pub const BUFFER_WIDTH: usize = 80;

/// Height of the character grid in cells.
pub const BUFFER_HEIGHT: usize = 25;

/// The sixteen display colors.
#[allow(dead_code)]
#[derive(Debug, Clone, Copy, PartialEq, Eq, Structural)]
pub enum Color {
    Black,
    Blue,
    Green,
    Cyan,
    Red,
    Magenta,
    Brown,
    LightGray,
    DarkGray,
    LightBlue,
    LightGreen,
    LightCyan,
    LightRed,
    Pink,
    Yellow,
    White,
}

impl Color {
    /// The 4-bit hardware code of this color.
    pub open spec fn spec_code(self) -> u8 {
        match self {
            Color::Black => 0,
            Color::Blue => 1,
            Color::Green => 2,
            Color::Cyan => 3,
            Color::Red => 4,
            Color::Magenta => 5,
            Color::Brown => 6,
            Color::LightGray => 7,
            Color::DarkGray => 8,
            Color::LightBlue => 9,
            Color::LightGreen => 10,
            Color::LightCyan => 11,
            Color::LightRed => 12,
            Color::Pink => 13,
            Color::Yellow => 14,
            Color::White => 15,
        }
    }

    pub fn code(self) -> (r: u8)
        ensures
            r == self.spec_code(),
            r < 16,
    {
        match self {
            Color::Black => 0,
            Color::Blue => 1,
            Color::Green => 2,
            Color::Cyan => 3,
            Color::Red => 4,
            Color::Magenta => 5,
            Color::Brown => 6,
            Color::LightGray => 7,
            Color::DarkGray => 8,
            Color::LightBlue => 9,
            Color::LightGreen => 10,
            Color::LightCyan => 11,
            Color::LightRed => 12,
            Color::Pink => 13,
            Color::Yellow => 14,
            Color::White => 15,
        }
    }
}

/// A packed color attribute: background color in the high four bits,
/// foreground in the low four.
#[derive(Debug, Clone, Copy, PartialEq, Eq, Structural)]
pub struct ColorCode(pub u8);

impl ColorCode {
    pub fn new(foreground: Color, background: Color) -> (r: ColorCode)
        ensures
            r.0 == background.spec_code() * 16 + foreground.spec_code(),
    {
        let fg: u8 = foreground.code();
        let bg: u8 = background.code();
        proof {
            assert(bg < 16 && fg < 16 ==> ((bg << 4) | fg) == bg * 16 + fg) by (bit_vector);
        }
        ColorCode((bg << 4) | fg)
    }
}

/// One display cell: a code-page character byte and its color attribute.
#[derive(Debug, Clone, Copy, PartialEq, Eq, Structural)]
pub struct VGAChar {
    pub ascii_character: u8,
    pub color_code: ColorCode,
}

/// The blank cell the writer fills vacated space with.
pub open spec fn spec_null_char(color: ColorCode) -> VGAChar {
    VGAChar { ascii_character: 0, color_code: color }
}

/// A row of blank cells.
pub open spec fn spec_null_row(color: ColorCode) -> Seq<VGAChar> {
    Seq::new(BUFFER_WIDTH as nat, |x: int| spec_null_char(color))
}

/// The owned character grid.
pub struct Buffer {
    pub chars: Vec<Vec<VGAChar>>,
}

impl Buffer {
    /// Full 25-by-80 grid.
    pub open spec fn wf(self) -> bool {
        &&& self.chars@.len() == BUFFER_HEIGHT
        &&& forall|y: int|
            0 <= y < BUFFER_HEIGHT ==> (#[trigger] self.chars@[y])@.len() == BUFFER_WIDTH
    }

    /// The grid as a sequence of rows of cells.
    pub open spec fn grid(self) -> Seq<Seq<VGAChar>> {
        self.chars@.map_values(|r: Vec<VGAChar>| r@)
    }

    /// A fresh grid filled with the given cell.
    pub fn filled(cell: VGAChar) -> (b: Buffer)
        ensures
            b.wf(),
            forall|y: int, x: int|
                0 <= y < BUFFER_HEIGHT && 0 <= x < BUFFER_WIDTH ==> b.grid()[y][x] == cell,
    {
        let mut chars: Vec<Vec<VGAChar>> = Vec::new();
        let mut y: usize = 0;
        while y < BUFFER_HEIGHT
            invariant
                y <= BUFFER_HEIGHT,
                chars@.len() == y,
                forall|j: int| 0 <= j < y ==> (#[trigger] chars@[j])@.len() == BUFFER_WIDTH,
                forall|j: int, x: int|
                    0 <= j < y && 0 <= x < BUFFER_WIDTH ==> #[trigger] chars@[j]@[x] == cell,
            decreases BUFFER_HEIGHT - y,
        {
            let mut row: Vec<VGAChar> = Vec::new();
            let mut x: usize = 0;
            while x < BUFFER_WIDTH
                invariant
                    x <= BUFFER_WIDTH,
                    row@.len() == x,
                    forall|i: int| 0 <= i < x ==> row@[i] == cell,
                decreases BUFFER_WIDTH - x,
            {
                row.push(cell);
                x = x + 1;
            }
            chars.push(row);
            y = y + 1;
        }
        Buffer { chars }
    }
}

/// Read one cell.
fn get_cell(buf: &Buffer, y: usize, x: usize) -> (r: VGAChar)
    requires
        buf.wf(),
        y < BUFFER_HEIGHT,
        x < BUFFER_WIDTH,
    ensures
        r == buf.grid()[y as int][x as int],
{
    *buf.chars.get(y).unwrap().get(x).unwrap()
}

/// Write one cell, leaving every other cell in place.
fn set_cell(buf: &mut Buffer, y: usize, x: usize, v: VGAChar)
    requires
        old(buf).wf(),
        y < BUFFER_HEIGHT,
        x < BUFFER_WIDTH,
    ensures
        final(buf).wf(),
        final(buf).grid() == old(buf).grid().update(
            y as int,
            old(buf).grid()[y as int].update(x as int, v),
        ),
{
    let mut row: Vec<VGAChar> = buf.chars.remove(y);
    row.set(x, v);
    buf.chars.insert(y, row);
    proof {
        assert(buf.chars@ =~= old(buf).chars@.update(y as int, row));
        assert(buf.grid() =~~= old(buf).grid().update(
            y as int,
            old(buf).grid()[y as int].update(x as int, v),
        ));
    }
}

/// The grid after one upward scroll: every row moves up one line and the
/// bottom line is blanked in the writer's color.
pub open spec fn spec_scrolled_up(g: Seq<Seq<VGAChar>>, color: ColorCode) -> Seq<Seq<VGAChar>> {
    Seq::new(
        BUFFER_HEIGHT as nat,
        |y: int|
            if y < BUFFER_HEIGHT - 1 {
                g[y + 1]
            } else {
                spec_null_row(color)
            },
    )
}

/// The grid after one downward roll: every row moves down one line and the
/// top line is blanked.
pub open spec fn spec_rolled_down(g: Seq<Seq<VGAChar>>, color: ColorCode) -> Seq<Seq<VGAChar>> {
    Seq::new(
        BUFFER_HEIGHT as nat,
        |y: int|
            if y >= 1 {
                g[y - 1]
            } else {
                spec_null_row(color)
            },
    )
}

/// The writer: cursor column on the bottom line, current color, and the
/// owned grid it writes into.
pub struct Writer {
    pub column_position: usize,
    pub color_code: ColorCode,
    pub buffer: Buffer,
}

/// The grid and cursor after writing one non-control byte.
pub open spec fn spec_after_write(
    g: Seq<Seq<VGAChar>>,
    col: int,
    color: ColorCode,
    byte: u8,
) -> (Seq<Seq<VGAChar>>, int) {
    let cell = VGAChar { ascii_character: byte, color_code: color };
    if col >= BUFFER_WIDTH {
        let s = spec_scrolled_up(g, color);
        (s.update(BUFFER_HEIGHT - 1, s[BUFFER_HEIGHT - 1].update(0, cell)), 1)
    } else {
        (
            g.update(BUFFER_HEIGHT - 1, g[BUFFER_HEIGHT - 1].update(col, cell)),
            col + 1,
        )
    }
}

/// The byte actually written for one byte of text: code-page printable
/// bytes and the line break pass through, everything else shows as the
/// replacement glyph.
pub open spec fn spec_printable(b: u8) -> u8 {
    if b == 0x0a || (0x20 <= b <= 0x7e) {
        b
    } else {
        0xfe
    }
}

/// The grid and cursor after writing a whole sequence of text bytes.
pub open spec fn spec_after_writes(
    g: Seq<Seq<VGAChar>>,
    col: int,
    color: ColorCode,
    bytes: Seq<u8>,
) -> (Seq<Seq<VGAChar>>, int)
    decreases bytes.len(),
{
    if bytes.len() == 0 {
        (g, col)
    } else {
        let b = spec_printable(bytes[0]);
        if b == 0x0a {
            spec_after_writes(spec_scrolled_up(g, color), 0, color, bytes.drop_first())
        } else {
            let step = spec_after_write(g, col, color, b);
            spec_after_writes(step.0, step.1, color, bytes.drop_first())
        }
    }
}

impl Writer {
    pub open spec fn wf(self) -> bool {
        self.buffer.wf()
    }

    /// A writer over the given grid, cursor at the given column.
    pub fn new(col_pos: usize, col_code: ColorCode, buf: Buffer) -> (w: Writer)
        requires
            buf.wf(),
        ensures
            w.wf(),
            w.column_position == col_pos,
            w.color_code == col_code,
            w.buffer == buf,
    {
        Writer { column_position: col_pos, color_code: col_code, buffer: buf }
    }

    /// Scroll every line up by one and blank the bottom line; the cursor
    /// returns to the left margin.
    fn new_line(&mut self)
        requires
            old(self).wf(),
        ensures
            final(self).wf(),
            final(self).color_code == old(self).color_code,
            final(self).column_position == 0,
            final(self).buffer.grid() == spec_scrolled_up(
                old(self).buffer.grid(),
                old(self).color_code,
            ),
    {
        let ghost g0 = self.buffer.grid();
        let ghost target = spec_scrolled_up(g0, self.color_code);
        let mut y: usize = 0;
        while y < BUFFER_HEIGHT - 1
            invariant
                self.wf(),
                self.color_code == old(self).color_code,
                self.column_position == old(self).column_position,
                y <= BUFFER_HEIGHT - 1,
                g0 == old(self).buffer.grid(),
                target == spec_scrolled_up(g0, self.color_code),
                forall|j: int| 0 <= j < y ==> self.buffer.grid()[j] == #[trigger] target[j],
                forall|j: int|
                    y <= j < BUFFER_HEIGHT ==> self.buffer.grid()[j] == #[trigger] g0[j],
            decreases BUFFER_HEIGHT - 1 - y,
        {
            let mut x: usize = 0;
            while x < BUFFER_WIDTH
                invariant
                    self.wf(),
                    self.color_code == old(self).color_code,
                    self.column_position == old(self).column_position,
                    y < BUFFER_HEIGHT - 1,
                    x <= BUFFER_WIDTH,
                    g0 == old(self).buffer.grid(),
                    target == spec_scrolled_up(g0, self.color_code),
                    forall|j: int| 0 <= j < y ==> self.buffer.grid()[j] == #[trigger] target[j],
                    forall|j: int|
                        y < j < BUFFER_HEIGHT ==> self.buffer.grid()[j] == #[trigger] g0[j],
                    self.buffer.grid()[y as int].len() == BUFFER_WIDTH,
                    forall|i: int|
                        0 <= i < x ==> self.buffer.grid()[y as int][i] == #[trigger] target[y as int][i],
                    forall|i: int|
                        x <= i < BUFFER_WIDTH ==> self.buffer.grid()[y as int][i]
                            == #[trigger] g0[y as int][i],
                decreases BUFFER_WIDTH - x,
            {
                let c = get_cell(&self.buffer, y + 1, x);
                set_cell(&mut self.buffer, y, x, c);
                x = x + 1;
            }
            proof {
                assert(self.buffer.grid()[y as int] =~= target[y as int]);
            }
            y = y + 1;
        }
        let null_cell = VGAChar { ascii_character: 0, color_code: self.color_code };
        let mut x: usize = 0;
        while x < BUFFER_WIDTH
            invariant
                self.wf(),
                self.color_code == old(self).color_code,
                x <= BUFFER_WIDTH,
                null_cell == spec_null_char(self.color_code),
                target == spec_scrolled_up(g0, self.color_code),
                forall|j: int|
                    0 <= j < BUFFER_HEIGHT - 1 ==> self.buffer.grid()[j] == #[trigger] target[j],
                self.buffer.grid()[BUFFER_HEIGHT - 1].len() == BUFFER_WIDTH,
                forall|i: int|
                    0 <= i < x ==> #[trigger] self.buffer.grid()[BUFFER_HEIGHT - 1][i]
                        == spec_null_char(self.color_code),
            decreases BUFFER_WIDTH - x,
        {
            set_cell(&mut self.buffer, BUFFER_HEIGHT - 1, x, null_cell);
            x = x + 1;
        }
        self.column_position = 0;
        proof {
            assert(self.buffer.grid()[BUFFER_HEIGHT - 1] =~= target[BUFFER_HEIGHT - 1]);
            assert(self.buffer.grid() =~= target);
        }
    }

    /// Roll every line down by one and blank the top line; the cursor
    /// parks at the right margin of the restored line.
    fn roll_up(&mut self)
        requires
            old(self).wf(),
        ensures
            final(self).wf(),
            final(self).color_code == old(self).color_code,
            final(self).column_position == BUFFER_WIDTH - 1,
            final(self).buffer.grid() == spec_rolled_down(
                old(self).buffer.grid(),
                old(self).color_code,
            ),
    {
        let ghost g0 = self.buffer.grid();
        let ghost target = spec_rolled_down(g0, self.color_code);
        let mut y: usize = BUFFER_HEIGHT - 1;
        while y > 0
            invariant
                self.wf(),
                self.color_code == old(self).color_code,
                y <= BUFFER_HEIGHT - 1,
                g0 == old(self).buffer.grid(),
                target == spec_rolled_down(g0, self.color_code),
                forall|j: int|
                    y < j < BUFFER_HEIGHT ==> self.buffer.grid()[j] == #[trigger] target[j],
                forall|j: int| 0 <= j <= y ==> self.buffer.grid()[j] == #[trigger] g0[j],
            decreases y,
        {
            y = y - 1;
            let mut x: usize = 0;
            while x < BUFFER_WIDTH
                invariant
                    self.wf(),
                    self.color_code == old(self).color_code,
                    y < BUFFER_HEIGHT - 1,
                    x <= BUFFER_WIDTH,
                    g0 == old(self).buffer.grid(),
                    target == spec_rolled_down(g0, self.color_code),
                    forall|j: int|
                        y + 1 < j < BUFFER_HEIGHT ==> self.buffer.grid()[j] == #[trigger] target[j],
                    forall|j: int| 0 <= j <= y ==> self.buffer.grid()[j] == #[trigger] g0[j],
                    self.buffer.grid()[y + 1].len() == BUFFER_WIDTH,
                    forall|i: int|
                        0 <= i < x ==> self.buffer.grid()[y + 1][i] == #[trigger] target[y + 1][i],
                    forall|i: int|
                        x <= i < BUFFER_WIDTH ==> self.buffer.grid()[y + 1][i] == #[trigger] g0[y
                            + 1][i],
                decreases BUFFER_WIDTH - x,
            {
                let c = get_cell(&self.buffer, y, x);
                set_cell(&mut self.buffer, y + 1, x, c);
                x = x + 1;
            }
            proof {
                assert(self.buffer.grid()[y + 1] =~= target[y + 1]);
            }
        }
        let null_cell = VGAChar { ascii_character: 0, color_code: self.color_code };
        let mut x: usize = 0;
        while x < BUFFER_WIDTH
            invariant
                self.wf(),
                self.color_code == old(self).color_code,
                x <= BUFFER_WIDTH,
                null_cell == spec_null_char(self.color_code),
                target == spec_rolled_down(g0, self.color_code),
                forall|j: int|
                    0 < j < BUFFER_HEIGHT ==> self.buffer.grid()[j] == #[trigger] target[j],
                self.buffer.grid()[0].len() == BUFFER_WIDTH,
                forall|i: int|
                    0 <= i < x ==> #[trigger] self.buffer.grid()[0][i] == spec_null_char(
                        self.color_code,
                    ),
            decreases BUFFER_WIDTH - x,
        {
            set_cell(&mut self.buffer, 0, x, null_cell);
            x = x + 1;
        }
        self.column_position = BUFFER_WIDTH - 1;
        proof {
            assert(self.buffer.grid()[0] =~= target[0]);
            assert(self.buffer.grid() =~= target);
        }
    }

    /// Write one byte at the cursor on the bottom line. A line break
    /// scrolls; the erase byte runs the backspace; at the right margin the
    /// line scrolls first. Everything else lands in the cell under the
    /// cursor and advances it.
    pub fn write_byte(&mut self, byte: u8)
        requires
            old(self).wf(),
        ensures
            final(self).wf(),
            final(self).color_code == old(self).color_code,
            byte == 0x0a ==> final(self).buffer.grid() == spec_scrolled_up(
                old(self).buffer.grid(),
                old(self).color_code,
            ) && final(self).column_position == 0,
            byte != 0x0a && byte != 0xff ==> (final(self).buffer.grid(), final(self).column_position as int) == spec_after_write(
                old(self).buffer.grid(),
                old(self).column_position as int,
                old(self).color_code,
                byte,
            ),
            byte == 0xff ==> final(self).column_position < BUFFER_WIDTH,
    {
        if byte == 0x0a {
            self.new_line();
        } else if byte == 0xff {
            self.backspace(0);
        } else {
            if self.column_position >= BUFFER_WIDTH {
                self.new_line();
            }
            let row: usize = BUFFER_HEIGHT - 1;
            let col: usize = self.column_position;
            let color_code = self.color_code;
            set_cell(&mut self.buffer, row, col, VGAChar { ascii_character: byte, color_code });
            self.column_position = self.column_position + 1;
        }
    }

    /// Erase leftwards: step the cursor back (rolling the screen down once
    /// at the margin, beyond the rolls already granted), skip blank cells,
    /// and blank the character found; on a wholly blank line the cursor
    /// parks before the first blank. Always bounded by the grid size.
    pub fn backspace(&mut self, num_times_rolled_up: usize)
        requires
            old(self).wf(),
        ensures
            final(self).wf(),
            final(self).color_code == old(self).color_code,
            final(self).column_position < BUFFER_WIDTH,
    {
        let mut rolled = num_times_rolled_up;
        if self.column_position > 0 {
            self.column_position = self.column_position - 1;
            if self.column_position >= BUFFER_WIDTH {
                self.column_position = BUFFER_WIDTH - 1;
            }
        } else {
            if rolled < usize::MAX {
                rolled = rolled + 1;
            }
            self.roll_up();
        }
        let null_char = VGAChar { ascii_character: 0, color_code: self.color_code };
        while get_cell(&self.buffer, BUFFER_HEIGHT - 1, self.column_position) == null_char && (
        self.column_position > 0 || rolled < 1)
            invariant
                self.wf(),
                self.color_code == old(self).color_code,
                self.column_position < BUFFER_WIDTH,
                null_char == spec_null_char(self.color_code),
            decreases self.column_position + (if rolled < 1 {
                BUFFER_WIDTH as int
            } else {
                0int
            }),
        {
            if self.column_position > 0 {
                self.column_position = self.column_position - 1;
            } else {
                rolled = rolled + 1;
                self.roll_up();
            }
        }
        if get_cell(&self.buffer, BUFFER_HEIGHT - 1, self.column_position) == null_char {
            // the line is blank to the left: park before the first blank
            self.column_position = 0;
            while self.column_position < BUFFER_WIDTH - 1 && get_cell(
                &self.buffer,
                BUFFER_HEIGHT - 1,
                self.column_position,
            ) != null_char
                invariant
                    self.wf(),
                    self.color_code == old(self).color_code,
                    self.column_position < BUFFER_WIDTH,
                    null_char == spec_null_char(self.color_code),
                decreases BUFFER_WIDTH - self.column_position,
            {
                self.column_position = self.column_position + 1;
            }
        } else {
            let col = self.column_position;
            set_cell(&mut self.buffer, BUFFER_HEIGHT - 1, col, null_char);
        }
    }

    /// Write a string: printable bytes and line breaks as they are, every
    /// other byte as the replacement glyph.
    pub fn write_string(&mut self, text: &str)
        requires
            old(self).wf(),
        ensures
            final(self).wf(),
            final(self).color_code == old(self).color_code,
            (final(self).buffer.grid(), final(self).column_position as int) == spec_after_writes(
                old(self).buffer.grid(),
                old(self).column_position as int,
                old(self).color_code,
                text.spec_bytes(),
            ),
    {
        let bytes: &[u8] = text.as_bytes();
        let n: usize = bytes.len();
        let ghost all = text.spec_bytes();
        let mut i: usize = 0;
        proof {
            assert(all.skip(0) =~= all);
        }
        while i < n
            invariant
                self.wf(),
                self.color_code == old(self).color_code,
                n == all.len(),
                bytes@ == all,
                i <= n,
                spec_after_writes(
                    old(self).buffer.grid(),
                    old(self).column_position as int,
                    old(self).color_code,
                    all,
                ) == spec_after_writes(
                    self.buffer.grid(),
                    self.column_position as int,
                    self.color_code,
                    all.skip(i as int),
                ),
            decreases n - i,
        {
            let ghost before = all.skip(i as int);
            let byte: u8 = bytes[i];
            proof {
                assert(before[0] == all[i as int]);
                assert(before.drop_first() =~= all.skip(i as int + 1));
            }
            let to_write: u8 = if byte == 0x0a || (0x20 <= byte && byte <= 0x7e) {
                byte
            } else {
                0xfe
            };
            self.write_byte(to_write);
            i = i + 1;
        }
        proof {
            assert(all.skip(n as int) =~= Seq::<u8>::empty());
        }
    }

    /// Write a string followed by a line break.
    pub fn write_line(&mut self, text: &str)
        requires
            old(self).wf(),
        ensures
            final(self).wf(),
            final(self).color_code == old(self).color_code,
            final(self).column_position == 0,
            final(self).buffer.grid() == spec_scrolled_up(
                spec_after_writes(
                    old(self).buffer.grid(),
                    old(self).column_position as int,
                    old(self).color_code,
                    text.spec_bytes(),
                ).0,
                old(self).color_code,
            ),
    {
        self.write_string(text);
        self.write_byte(0x0a);
    }

    /// Move the cursor to the given column of the bottom line.
    pub fn set_column_position(&mut self, pos: usize)
        requires
            old(self).wf(),
        ensures
            final(self).wf(),
            final(self).column_position == pos,
            final(self).color_code == old(self).color_code,
            final(self).buffer == old(self).buffer,
    {
        self.column_position = pos;
    }

    /// The cursor's current column.
    pub fn get_column_position(&mut self) -> (r: usize)
        ensures
            r == old(self).column_position,
            *final(self) == *old(self),
    {
        self.column_position
    }
}

/// Clear the screen by writing a full screen's worth of blank cells
/// through the writer, scrolling the old contents off the top.
pub fn init(writer: &mut Writer)
    requires
        old(writer).wf(),
    ensures
        final(writer).wf(),
        final(writer).color_code == old(writer).color_code,
        final(writer).column_position == BUFFER_WIDTH,
        forall|y: int, x: int|
            0 <= y < BUFFER_HEIGHT && 0 <= x < BUFFER_WIDTH ==> #[trigger] final(writer).buffer.grid()[y][x] == spec_null_char(final(writer).color_code),
{
    let ghost color = writer.color_code;
    writer.set_column_position(0);
    let mut y: usize = 0;
    while y < BUFFER_HEIGHT
        invariant
            writer.wf(),
            writer.color_code == color,
            y <= BUFFER_HEIGHT,
            y == 0 ==> writer.column_position == 0,
            y > 0 ==> writer.column_position == BUFFER_WIDTH,
            forall|j: int, xx: int|
                BUFFER_HEIGHT - y <= j < BUFFER_HEIGHT && 0 <= xx < BUFFER_WIDTH
                    ==> #[trigger] writer.buffer.grid()[j][xx] == spec_null_char(color),
        decreases BUFFER_HEIGHT - y,
    {
        let mut x: usize = 0;
        while x < BUFFER_WIDTH
            invariant
                writer.wf(),
                writer.color_code == color,
                y < BUFFER_HEIGHT,
                x <= BUFFER_WIDTH,
                x == 0 && y == 0 ==> writer.column_position == 0,
                x == 0 && y > 0 ==> writer.column_position == BUFFER_WIDTH,
                x > 0 ==> writer.column_position == x,
                forall|j: int, xx: int|
                    BUFFER_HEIGHT - y <= j < BUFFER_HEIGHT && 0 <= xx < BUFFER_WIDTH
                        ==> #[trigger] writer.buffer.grid()[j][xx] == spec_null_char(color),
                x > 0 && y > 0 ==> forall|j: int, xx: int|
                    BUFFER_HEIGHT - 1 - y <= j < BUFFER_HEIGHT && 0 <= xx < BUFFER_WIDTH
                        ==> #[trigger] writer.buffer.grid()[j][xx] == spec_null_char(color),
                y == 0 ==> forall|xx: int|
                    0 <= xx < x ==> #[trigger] writer.buffer.grid()[BUFFER_HEIGHT - 1][xx]
                        == spec_null_char(color),
            decreases BUFFER_WIDTH - x,
        {
            let ghost gb = writer.buffer.grid();
            let ghost cb = writer.column_position as int;
            writer.write_byte(0x0);
            proof {
                let gnew = writer.buffer.grid();
                let cell = VGAChar { ascii_character: 0, color_code: color };
                assert(cell == spec_null_char(color));
                if cb >= BUFFER_WIDTH {
                    let sc = spec_scrolled_up(gb, color);
                    assert(gnew == sc.update(
                        BUFFER_HEIGHT - 1,
                        sc[BUFFER_HEIGHT - 1].update(0, cell),
                    ));
                    assert forall|j: int, xx: int|
                        BUFFER_HEIGHT - 1 - y <= j < BUFFER_HEIGHT && 0 <= xx < BUFFER_WIDTH
                            implies #[trigger] gnew[j][xx] == spec_null_char(color) by {
                        if j == BUFFER_HEIGHT - 1 {
                            assert(sc[j] == spec_null_row(color));
                            assert(gnew[j] == sc[j].update(0, cell));
                            assert(gnew[j][xx] == spec_null_char(color));
                        } else {
                            assert(gnew[j] == sc[j]);
                            assert(sc[j] == gb[j + 1]);
                            assert(gb[j + 1][xx] == spec_null_char(color));
                        }
                    }
                } else {
                    assert(gnew == gb.update(
                        BUFFER_HEIGHT - 1,
                        gb[BUFFER_HEIGHT - 1].update(cb, cell),
                    ));
                    assert forall|j: int, xx: int|
                        BUFFER_HEIGHT - y <= j < BUFFER_HEIGHT && 0 <= xx < BUFFER_WIDTH
                            implies #[trigger] gnew[j][xx] == spec_null_char(color) by {
                        if j == BUFFER_HEIGHT - 1 && xx != cb {
                            assert(gnew[j][xx] == gb[j][xx]);
                        } else if j == BUFFER_HEIGHT - 1 {
                            assert(gnew[j][xx] == cell);
                        } else {
                            assert(gnew[j] == gb[j]);
                        }
                    }
                    if y > 0 {
                        assert forall|j: int, xx: int|
                            BUFFER_HEIGHT - 1 - y <= j < BUFFER_HEIGHT && 0 <= xx < BUFFER_WIDTH
                                implies #[trigger] gnew[j][xx] == spec_null_char(color) by {
                            if j == BUFFER_HEIGHT - 1 && xx == cb {
                                assert(gnew[j][xx] == cell);
                            } else if j == BUFFER_HEIGHT - 1 {
                                assert(gnew[j][xx] == gb[j][xx]);
                            } else {
                                assert(gnew[j] == gb[j]);
                            }
                        }
                    }
                    if y == 0 {
                        assert forall|xx: int|
                            0 <= xx < x + 1 implies #[trigger] gnew[BUFFER_HEIGHT - 1][xx]
                                == spec_null_char(color) by {
                            if xx == cb {
                                assert(gnew[BUFFER_HEIGHT - 1][xx] == cell);
                            } else {
                                assert(gnew[BUFFER_HEIGHT - 1][xx] == gb[BUFFER_HEIGHT - 1][xx]);
                            }
                        }
                    }
                }
            }
            x = x + 1;
        }
        y = y + 1;
    }
}

} // verus!
