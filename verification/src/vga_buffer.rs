//! Model of the text-mode display: a fixed grid of coloured ASCII cells,
//! a cursor column, and the write/wrap/scroll rules of the driver.  The
//! surrounding program copies the grid into the memory-mapped text buffer;
//! the rules themselves are verified here.
use vstd::prelude::*;
use vstd::string::StringSliceAdditionalSpecFns;

verus! {

/// Columns of the text grid.
pub const BUFFER_WIDTH: usize = 25;

/// Rows of the text grid.
pub const BUFFER_HEIGHT: usize = 80;

/// The sixteen hardware text colours.
#[derive(Debug, Eq, PartialEq, Copy, Clone, Structural)]
pub enum Colour {
    Black,
    Blue,
    Green,
    Cyan,
    Red,
    Magenta,
    Brown,
    LightGray,
    DarkGrey,
    LightBlue,
    LightGreen,
    LightCyan,
    LightRed,
    Pink,
    Yellow,
    White,
}

/// The 4-bit code of a colour, as the hardware reads it.
pub open spec fn spec_colour_bits(c: Colour) -> u8 {
    match c {
        Colour::Black => 0,
        Colour::Blue => 1,
        Colour::Green => 2,
        Colour::Cyan => 3,
        Colour::Red => 4,
        Colour::Magenta => 5,
        Colour::Brown => 6,
        Colour::LightGray => 7,
        Colour::DarkGrey => 8,
        Colour::LightBlue => 9,
        Colour::LightGreen => 10,
        Colour::LightCyan => 11,
        Colour::LightRed => 12,
        Colour::Pink => 13,
        Colour::Yellow => 14,
        Colour::White => 15,
    }
}

impl Colour {
    /// The colour's 4-bit code.
    pub fn bits(self) -> (r: u8)
        ensures
            r == spec_colour_bits(self),
            r < 16,
    {
        match self {
            Colour::Black => 0,
            Colour::Blue => 1,
            Colour::Green => 2,
            Colour::Cyan => 3,
            Colour::Red => 4,
            Colour::Magenta => 5,
            Colour::Brown => 6,
            Colour::LightGray => 7,
            Colour::DarkGrey => 8,
            Colour::LightBlue => 9,
            Colour::LightGreen => 10,
            Colour::LightCyan => 11,
            Colour::LightRed => 12,
            Colour::Pink => 13,
            Colour::Yellow => 14,
            Colour::White => 15,
        }
    }
}

/// A full colour byte: background in the high nibble, foreground in the
/// low one — the byte layout the text buffer demands.
#[derive(Debug, Eq, PartialEq, Copy, Clone, Structural)]
pub struct ColourCode(pub u8);

impl ColourCode {
    /// Packs a foreground and a background colour into one byte.
    pub fn new(foreground: Colour, background: Colour) -> (r: ColourCode)
        ensures
            r.0 == spec_colour_bits(background) * 16 + spec_colour_bits(foreground),
    {
        let fg = foreground.bits();
        let bg = background.bits();
        proof {
            assert(fg < 16 && bg < 16 ==> ((bg << 4) | fg) == bg * 16 + fg) by (bit_vector);
        }
        ColourCode((bg << 4) | fg)
    }
}

/// One cell of the grid: an ASCII byte and its colour.
#[derive(Debug, Clone, Copy, PartialEq, Eq, Structural)]
pub struct ScreenChar {
    pub ascii_char: u8,
    pub colour_code: ColourCode,
}

/// A blank cell: a space in the given colour.
pub open spec fn blank_char(cc: ColourCode) -> ScreenChar {
    ScreenChar { ascii_char: 0x20, colour_code: cc }
}

/// A row of blank cells.
pub open spec fn blank_row(cc: ColourCode) -> Seq<ScreenChar> {
    Seq::new(25, |c: int| blank_char(cc))
}

/// The grid scrolled up one row: every row takes the one below it, and the
/// bottom row becomes blank.
pub open spec fn scrolled(s: Seq<Seq<ScreenChar>>, cc: ColourCode) -> Seq<Seq<ScreenChar>> {
    Seq::new(
        80,
        |r: int|
            if r < 79 {
                s[r + 1]
            } else {
                blank_row(cc)
            },
    )
}

/// One byte written at the cursor: a newline scrolls and returns the cursor
/// to the left edge; any other byte first wraps a full line, then lands in
/// the bottom row at the cursor column, which advances.
pub open spec fn spec_write_byte(s: Seq<Seq<ScreenChar>>, col: int, cc: ColourCode, b: u8) -> (
    Seq<Seq<ScreenChar>>,
    int,
) {
    if b == 0x0a {
        (scrolled(s, cc), 0)
    } else {
        let shifted = if col >= 25 {
            (scrolled(s, cc), 0)
        } else {
            (s, col)
        };
        (
            shifted.0.update(
                79,
                shifted.0[79].update(shifted.1, ScreenChar { ascii_char: b, colour_code: cc }),
            ),
            shifted.1 + 1,
        )
    }
}

/// How a byte reaches the grid: printable ASCII and the newline pass
/// through, every other byte becomes the replacement glyph.
pub open spec fn filter_byte(b: u8) -> u8 {
    if b == 0x0a || (0x20 <= b && b <= 0x7e) {
        b
    } else {
        0xfe
    }
}

/// A byte sequence put through the printable filter.
pub open spec fn filter_bytes(bs: Seq<u8>) -> Seq<u8> {
    bs.map_values(|b: u8| filter_byte(b))
}

/// A sequence of bytes written one after the other, unfiltered.
pub open spec fn spec_write_bytes(
    s: Seq<Seq<ScreenChar>>,
    col: int,
    cc: ColourCode,
    bs: Seq<u8>,
) -> (Seq<Seq<ScreenChar>>, int)
    decreases bs.len(),
{
    if bs.len() == 0 {
        (s, col)
    } else {
        let prev = spec_write_bytes(s, col, cc, bs.drop_last());
        spec_write_byte(prev.0, prev.1, cc, bs.last())
    }
}

/// Text written byte by byte through the printable filter — the bytes of
/// a string, not its characters, so a multi-byte character leaves one
/// replacement glyph per byte.
pub open spec fn spec_write_string(
    s: Seq<Seq<ScreenChar>>,
    col: int,
    cc: ColourCode,
    bs: Seq<u8>,
) -> (Seq<Seq<ScreenChar>>, int) {
    spec_write_bytes(s, col, cc, filter_bytes(bs))
}

/// Writes coloured ASCII into the text grid, wrapping full lines and
/// scrolling at newlines.
pub struct ScreenWriter {
    pub column_position: usize,
    pub colour_code: ColourCode,
    pub buffer: Vec<Vec<ScreenChar>>,
}

impl ScreenWriter {
    /// The grid as a mathematical sequence of rows.
    pub open spec fn screen(self) -> Seq<Seq<ScreenChar>> {
        Seq::new(self.buffer@.len(), |r: int| self.buffer@[r]@)
    }

    pub open spec fn wf(self) -> bool {
        &&& self.buffer@.len() == 80
        &&& forall|r: int| 0 <= r < 80 ==> (#[trigger] self.buffer@[r])@.len() == 25
        &&& self.column_position <= 25
    }

    /// A blank grid in the given colour, cursor at the left edge.
    pub fn new(colour_code: ColourCode) -> (w: ScreenWriter)
        ensures
            w.wf(),
            w.column_position == 0,
            w.colour_code == colour_code,
            w.screen() == Seq::new(80, |r: int| blank_row(colour_code)),
    {
        let mut buffer: Vec<Vec<ScreenChar>> = Vec::new();
        let mut r: usize = 0;
        while r < BUFFER_HEIGHT
            invariant
                r <= 80,
                buffer@.len() == r,
                forall|q: int| 0 <= q < r ==> (#[trigger] buffer@[q])@ == blank_row(colour_code),
            decreases 80 - r,
        {
            let mut row: Vec<ScreenChar> = Vec::new();
            let mut c: usize = 0;
            while c < BUFFER_WIDTH
                invariant
                    c <= 25,
                    row@.len() == c,
                    forall|q: int| 0 <= q < c ==> row@[q] == blank_char(colour_code),
                decreases 25 - c,
            {
                row.push(ScreenChar { ascii_char: 0x20, colour_code });
                c = c + 1;
            }
            proof {
                assert(row@ =~= blank_row(colour_code));
            }
            buffer.push(row);
            r = r + 1;
        }
        let w = ScreenWriter { column_position: 0, colour_code, buffer };
        proof {
            assert(w.screen() =~~= Seq::new(80, |q: int| blank_row(colour_code)));
        }
        w
    }

    /// Blanks one row in the current colour.
    #[verifier::loop_isolation(false)]
    fn clear_row(&mut self, row: usize)
        requires
            old(self).wf(),
            row < 80,
        ensures
            final(self).wf(),
            final(self).column_position == old(self).column_position,
            final(self).colour_code == old(self).colour_code,
            final(self).screen() == old(self).screen().update(
                row as int,
                blank_row(old(self).colour_code),
            ),
    {
        let cc = self.colour_code;
        let mut col: usize = 0;
        while col < BUFFER_WIDTH
            invariant
                self.wf(),
                col <= 25,
                self.colour_code == old(self).colour_code,
                self.column_position == old(self).column_position,
                forall|r: int| 0 <= r < 80 && r != row ==> self.screen()[r] == old(self).screen()[r],
                forall|c: int|
                    0 <= c < col ==> #[trigger] self.screen()[row as int][c] == blank_char(cc),
                forall|c: int|
                    col <= c < 25 ==> #[trigger] self.screen()[row as int][c] == old(
                        self,
                    ).screen()[row as int][c],
            decreases 25 - col,
        {
            let ghost prev = *self;
            self.buffer[row][col] = ScreenChar { ascii_char: 0x20, colour_code: cc };
            proof {
                assert(self.buffer@[row as int]@ == prev.buffer@[row as int]@.update(
                    col as int,
                    blank_char(cc),
                ));
                assert forall|r: int| 0 <= r < 80 && r != row implies self.screen()[r]
                    == prev.screen()[r] by {
                    assert(self.buffer@[r] == prev.buffer@[r]);
                }
                assert forall|c2: int| 0 <= c2 <= col implies #[trigger] self.screen()[row as int][c2]
                    == blank_char(cc) by {
                    assert(self.screen()[row as int] == self.buffer@[row as int]@);
                    assert(prev.screen()[row as int] == prev.buffer@[row as int]@);
                    if c2 < col {
                        assert(prev.screen()[row as int][c2] == blank_char(cc));
                    }
                }
                assert forall|c2: int| col + 1 <= c2 < 25 implies #[trigger] self.screen()[row as int][c2]
                    == old(self).screen()[row as int][c2] by {
                    assert(self.screen()[row as int] == self.buffer@[row as int]@);
                    assert(prev.screen()[row as int] == prev.buffer@[row as int]@);
                    assert(prev.screen()[row as int][c2] == old(self).screen()[row as int][c2]);
                }
            }
            col = col + 1;
        }
        proof {
            assert(self.screen()[row as int] =~= blank_row(cc));
            assert(self.screen() =~~= old(self).screen().update(row as int, blank_row(cc)));
        }
    }

    /// Scrolls the grid one row up and returns the cursor to the left edge.
    #[verifier::loop_isolation(false)]
    fn new_line(&mut self)
        requires
            old(self).wf(),
        ensures
            final(self).wf(),
            final(self).colour_code == old(self).colour_code,
            final(self).column_position == 0,
            final(self).screen() == scrolled(old(self).screen(), old(self).colour_code),
    {
        let mut row: usize = 1;
        while row < BUFFER_HEIGHT
            invariant
                self.wf(),
                1 <= row <= 80,
                self.colour_code == old(self).colour_code,
                self.column_position == old(self).column_position,
                forall|r: int| 0 <= r < row - 1 ==> self.screen()[r] == old(self).screen()[r + 1],
                forall|r: int| row - 1 <= r < 80 ==> self.screen()[r] == old(self).screen()[r],
            decreases 80 - row,
        {
            let ghost entry = self.screen();
            let mut col: usize = 0;
            while col < BUFFER_WIDTH
                invariant
                    self.wf(),
                    col <= 25,
                    1 <= row < 80,
                    self.colour_code == old(self).colour_code,
                    self.column_position == old(self).column_position,
                    forall|r: int| 0 <= r < 80 && r != row - 1 ==> self.screen()[r] == entry[r],
                    forall|c: int|
                        0 <= c < col ==> #[trigger] self.screen()[row - 1][c] == entry[row as int][c],
                    forall|c: int|
                        col <= c < 25 ==> #[trigger] self.screen()[row - 1][c] == entry[row - 1][c],
                decreases 25 - col,
            {
                let ghost prev = *self;
                let ch = self.buffer[row][col];
                self.buffer[row - 1][col] = ch;
                proof {
                    assert(self.buffer@[row - 1]@ == prev.buffer@[row - 1]@.update(
                        col as int,
                        ch,
                    ));
                    assert forall|r: int| 0 <= r < 80 && r != row - 1 implies self.screen()[r]
                        == prev.screen()[r] by {
                        assert(self.buffer@[r] == prev.buffer@[r]);
                    }
                    assert(ch == entry[row as int][col as int]);
                    assert forall|c2: int| 0 <= c2 <= col implies #[trigger] self.screen()[row - 1][c2]
                        == entry[row as int][c2] by {
                        assert(self.screen()[row - 1] == self.buffer@[row - 1]@);
                        assert(prev.screen()[row - 1] == prev.buffer@[row - 1]@);
                        if c2 < col {
                            assert(prev.screen()[row - 1][c2] == entry[row as int][c2]);
                        }
                    }
                    assert forall|c2: int| col + 1 <= c2 < 25 implies #[trigger] self.screen()[row - 1][c2]
                        == entry[row - 1][c2] by {
                        assert(self.screen()[row - 1] == self.buffer@[row - 1]@);
                        assert(prev.screen()[row - 1] == prev.buffer@[row - 1]@);
                        assert(prev.screen()[row - 1][c2] == entry[row - 1][c2]);
                    }
                }
                col = col + 1;
            }
            proof {
                assert(self.screen()[row - 1] =~= entry[row as int]);
                assert forall|r: int| 0 <= r < row implies self.screen()[r] == old(
                    self,
                ).screen()[r + 1] by {
                    if r < row - 1 {
                        assert(self.screen()[r] == entry[r]);
                        assert(entry[r] == old(self).screen()[r + 1]);
                    } else {
                        assert(self.screen()[r] == entry[row as int]);
                        assert(entry[row as int] == old(self).screen()[row as int]);
                    }
                }
            }
            row = row + 1;
        }
        self.clear_row(BUFFER_HEIGHT - 1);
        self.column_position = 0;
        proof {
            assert(self.screen() =~~= scrolled(old(self).screen(), old(self).colour_code));
        }
    }

    /// Writes a single ASCII byte at the cursor, wrapping and scrolling as
    /// the grid demands.
    pub fn write_byte(&mut self, byte: u8)
        requires
            old(self).wf(),
        ensures
            final(self).wf(),
            final(self).colour_code == old(self).colour_code,
            (final(self).screen(), final(self).column_position as int) == spec_write_byte(
                old(self).screen(),
                old(self).column_position as int,
                old(self).colour_code,
                byte,
            ),
    {
        if byte == 0x0a {
            self.new_line();
        } else {
            if self.column_position >= BUFFER_WIDTH {
                self.new_line();
            }
            let ghost mid = *self;
            let col = self.column_position;
            let cc = self.colour_code;
            self.buffer[BUFFER_HEIGHT - 1][col] = ScreenChar { ascii_char: byte, colour_code: cc };
            self.column_position = col + 1;
            proof {
                assert(self.screen() =~~= mid.screen().update(
                    79,
                    mid.screen()[79].update(col as int, ScreenChar {
                        ascii_char: byte,
                        colour_code: cc,
                    }),
                ));
            }
        }
    }

    /// Writes the bytes of a string, each through the printable filter,
    /// as the hardware sink takes them: a multi-byte character appears as
    /// one replacement glyph per byte.
    pub fn write_string(&mut self, s: &str)
        requires
            old(self).wf(),
        ensures
            final(self).wf(),
            final(self).colour_code == old(self).colour_code,
            (final(self).screen(), final(self).column_position as int) == spec_write_string(
                old(self).screen(),
                old(self).column_position as int,
                old(self).colour_code,
                s.spec_bytes(),
            ),
    {
        self.write_bytes(s.as_bytes());
    }

    /// Writes raw bytes one after the other, each through the printable
    /// filter.
    #[verifier::loop_isolation(false)]
    pub fn write_bytes(&mut self, bs: &[u8])
        requires
            old(self).wf(),
        ensures
            final(self).wf(),
            final(self).colour_code == old(self).colour_code,
            (final(self).screen(), final(self).column_position as int) == spec_write_string(
                old(self).screen(),
                old(self).column_position as int,
                old(self).colour_code,
                bs@,
            ),
    {
        let n = bs.len();
        let mut i: usize = 0;
        while i < n
            invariant
                self.wf(),
                i <= n,
                n == bs@.len(),
                self.colour_code == old(self).colour_code,
                (self.screen(), self.column_position as int) == spec_write_string(
                    old(self).screen(),
                    old(self).column_position as int,
                    old(self).colour_code,
                    bs@.take(i as int),
                ),
            decreases n - i,
        {
            let b = bs[i];
            let fb: u8 = if b == 0x0a || (0x20 <= b && b <= 0x7e) {
                b
            } else {
                0xfe
            };
            proof {
                assert(fb == filter_byte(bs@[i as int]));
                assert(filter_bytes(bs@.take(i + 1)).drop_last() =~= filter_bytes(
                    bs@.take(i as int),
                ));
                assert(filter_bytes(bs@.take(i + 1)).last() == filter_byte(bs@[i as int]));
            }
            self.write_byte(fb);
            i = i + 1;
        }
        proof {
            assert(bs@.take(n as int) =~= bs@);
        }
    }
}

} // verus!
