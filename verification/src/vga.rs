//! The text console model: an 80 by 25 cell buffer written at the bottom
//! row, scrolling upward on newlines.  The live framebuffer the kernel
//! writes through lives outside the library; the logic of writing,
//! tabulation and scrolling is all here.

use vstd::prelude::*;

verus! {

/// Rows of the console.
pub const BUF_HEIGHT: usize = 25;

/// Columns of the console.
pub const BUF_WIDTH: usize = 80;

/// The sixteen standard console colors.
#[derive(Clone, Copy, PartialEq, Eq, Structural, Debug)]
pub enum Color {
    Black,
    Blue,
    Green,
    Cyan,
    Red,
    Magenta,
    Brown,
    LightGray,
    DarkGray,
    LightBlue,
    LightGreen,
    LightCyan,
    LightRed,
    Pink,
    Yellow,
    White,
}

/// The palette number of a color.
pub open spec fn color_code(c: Color) -> u8 {
    match c {
        Color::Black => 0,
        Color::Blue => 1,
        Color::Green => 2,
        Color::Cyan => 3,
        Color::Red => 4,
        Color::Magenta => 5,
        Color::Brown => 6,
        Color::LightGray => 7,
        Color::DarkGray => 8,
        Color::LightBlue => 9,
        Color::LightGreen => 10,
        Color::LightCyan => 11,
        Color::LightRed => 12,
        Color::Pink => 13,
        Color::Yellow => 14,
        Color::White => 15,
    }
}

impl Color {
    /// The palette number of the color.
    pub fn code(&self) -> (r: u8)
        ensures
            r == color_code(*self),
    {
        match *self {
            Color::Black => 0,
            Color::Blue => 1,
            Color::Green => 2,
            Color::Cyan => 3,
            Color::Red => 4,
            Color::Magenta => 5,
            Color::Brown => 6,
            Color::LightGray => 7,
            Color::DarkGray => 8,
            Color::LightBlue => 9,
            Color::LightGreen => 10,
            Color::LightCyan => 11,
            Color::LightRed => 12,
            Color::Pink => 13,
            Color::Yellow => 14,
            Color::White => 15,
        }
    }
}

/// A cell attribute: background in the high four bits, foreground in the
/// low four.
#[derive(Clone, Copy, PartialEq, Eq, Structural, Debug)]
pub struct VGAColor(pub u8);

impl VGAColor {
    /// Pack a foreground and a background color.
    pub fn new(fg: Color, bg: Color) -> (r: VGAColor)
        ensures
            r.0 == color_code(bg) * 16 + color_code(fg),
    {
        let f = fg.code();
        let b = bg.code();
        proof {
            assert((b << 4u8) | f == b * 16 + f) by (bit_vector)
                requires
                    b < 16,
                    f < 16u8,
            ;
        }
        (VGAColor((b << 4) | f))
    }
}

/// One console cell: a character and its attribute.
#[derive(Clone, Copy, PartialEq, Eq, Structural, Debug)]
pub struct ScreenChar {
    pub ch: u8,
    pub color: VGAColor,
}

/// The writer's configuration: the attribute it writes with and the tab
/// width.
#[derive(Clone, Copy, PartialEq, Eq, Structural, Debug)]
pub struct VGAConfig {
    pub color: VGAColor,
    pub tab_width: u8,
}

impl VGAConfig {
    /// Light gray on black, tabs of four.
    pub fn new() -> (r: VGAConfig)
        ensures
            r.color.0 == 7,
            r.tab_width == 4,
    {
        VGAConfig { color: VGAColor::new(Color::LightGray, Color::Black), tab_width: 4 }
    }
}

/// The blank cell the writer clears with.
pub open spec fn blank_cell(color: VGAColor) -> ScreenChar {
    ScreenChar { ch: 32, color }
}

/// The buffer after scrolling one row: everything moves up, and the bottom
/// row is cleared.
pub open spec fn spec_scroll(cells: Seq<ScreenChar>, color: VGAColor) -> Seq<ScreenChar> {
    cells.subrange(80, 2000) + Seq::new(80, |i: int| blank_cell(color))
}

/// The cells and column after writing one byte: a newline scrolls, a tab
/// pads to the next stop, and any other byte lands at the cursor on the
/// bottom row, scrolling first when the row is full.
pub open spec fn spec_write_byte(cells: Seq<ScreenChar>, col: int, byte: u8, color: VGAColor) -> (
    Seq<ScreenChar>,
    int,
) {
    if byte == 10 {
        (spec_scroll(cells, color), 0)
    } else if byte == 9 {
        let stop = if col + (5 - col % 5) < 80 {
            col + (5 - col % 5)
        } else {
            80int
        };
        (
            Seq::new(
                2000,
                |i: int|
                    if 24 * 80 + col <= i < 24 * 80 + stop {
                        blank_cell(color)
                    } else {
                        cells[i]
                    },
            ),
            col + (5 - col % 5),
        )
    } else if col >= 80 {
        (
            spec_scroll(cells, color).update(24 * 80 as int, ScreenChar { ch: byte, color }),
            1,
        )
    } else {
        (cells.update(24 * 80 + col, ScreenChar { ch: byte, color }), col + 1)
    }
}

/// The cells and column after writing a string, byte by byte.
pub open spec fn spec_write_bytes(
    cells: Seq<ScreenChar>,
    col: int,
    bs: Seq<u8>,
    color: VGAColor,
) -> (Seq<ScreenChar>, int)
    decreases bs.len(),
{
    if bs.len() == 0 {
        (cells, col)
    } else {
        let st = spec_write_byte(cells, col, bs[0], color);
        spec_write_bytes(st.0, st.1, bs.skip(1), color)
    }
}

/// Writing one more byte extends the fold by one step.
proof fn lemma_write_bytes_snoc(
    cells: Seq<ScreenChar>,
    col: int,
    bs: Seq<u8>,
    k: int,
    color: VGAColor,
)
    requires
        0 <= k < bs.len(),
    ensures
        spec_write_bytes(cells, col, bs.take(k + 1), color) == spec_write_byte(
            spec_write_bytes(cells, col, bs.take(k), color).0,
            spec_write_bytes(cells, col, bs.take(k), color).1,
            bs[k],
            color,
        ),
    decreases k,
{
    if k == 0 {
        assert(bs.take(0) =~= Seq::<u8>::empty());
        assert(bs.take(1) =~= seq![bs[0]]);
        let st = spec_write_byte(cells, col, bs[0], color);
        assert(bs.take(1).skip(1) =~= Seq::<u8>::empty());
        assert(spec_write_bytes(cells, col, bs.take(0), color) == (cells, col));
        assert(spec_write_bytes(cells, col, bs.take(1), color) == spec_write_bytes(
            st.0,
            st.1,
            bs.take(1).skip(1),
            color,
        ));
        assert(spec_write_bytes(st.0, st.1, Seq::<u8>::empty(), color) == st);
    } else {
        let st = spec_write_byte(cells, col, bs[0], color);
        assert(bs.take(k + 1)[0] == bs[0] && bs.take(k)[0] == bs[0]);
        assert(bs.take(k + 1).skip(1) =~= bs.skip(1).take(k));
        assert(bs.take(k).skip(1) =~= bs.skip(1).take(k - 1));
        assert(spec_write_bytes(cells, col, bs.take(k + 1), color) == spec_write_bytes(
            st.0,
            st.1,
            bs.skip(1).take(k),
            color,
        ));
        assert(spec_write_bytes(cells, col, bs.take(k), color) == spec_write_bytes(
            st.0,
            st.1,
            bs.skip(1).take(k - 1),
            color,
        ));
        lemma_write_bytes_snoc(st.0, st.1, bs.skip(1), k - 1, color);
        assert(bs.skip(1)[k - 1] == bs[k]);
    }
}

/// The writer: the console cells in row-major order, the current column of
/// the bottom row, and the configuration.
pub struct Writer {
    cur_cmn: usize,
    config: VGAConfig,
    buf: Vec<ScreenChar>,
}

impl Writer {
    /// The console cells, row-major.
    pub closed spec fn cells(&self) -> Seq<ScreenChar> {
        self.buf@
    }

    /// The current column of the bottom row.
    pub closed spec fn col(&self) -> int {
        self.cur_cmn as int
    }

    /// The writer's configuration.
    pub closed spec fn conf(&self) -> VGAConfig {
        self.config
    }

    /// A full buffer, a bounded column, and the fixed tab width.
    pub open spec fn wf(&self) -> bool {
        &&& self.cells().len() == 2000
        &&& 0 <= self.col() <= 85
        &&& self.conf().tab_width == 4
    }

    /// A fresh blank console.
    pub fn new(config: VGAConfig) -> (r: Writer)
        requires
            config.tab_width == 4,
        ensures
            r.wf(),
            r.conf() == config,
            r.col() == 0,
            forall|i: int| 0 <= i < 2000 ==> r.cells()[i] == blank_cell(config.color),
    {
        let mut buf: Vec<ScreenChar> = Vec::new();
        let mut k: usize = 0;
        while k < 2000
            invariant
                k <= 2000,
                buf@.len() == k,
                forall|i: int| 0 <= i < k ==> buf@[i] == blank_cell(config.color),
            decreases 2000 - k,
        {
            buf.push(ScreenChar { ch: 32, color: config.color });
            k = k + 1;
        }
        Writer { cur_cmn: 0, config, buf }
    }

    /// Clear one row to blanks.
    fn clear_row(&mut self, row: usize)
        requires
            old(self).wf(),
            row < 25,
        ensures
            final(self).wf(),
            final(self).col() == old(self).col(),
            final(self).conf() == old(self).conf(),
            forall|i: int|
                0 <= i < 2000 ==> final(self).cells()[i] == if row * 80 <= i < row * 80 + 80 {
                    blank_cell(old(self).conf().color)
                } else {
                    old(self).cells()[i]
                },
    {
        let mut c: usize = 0;
        while c < 80
            invariant
                self.wf(),
                c <= 80,
                row < 25,
                self.col() == old(self).col(),
                self.conf() == old(self).conf(),
                forall|i: int|
                    0 <= i < 2000 ==> self.cells()[i] == if row * 80 <= i < row * 80 + c {
                        blank_cell(old(self).conf().color)
                    } else {
                        old(self).cells()[i]
                    },
            decreases 80 - c,
        {
            let color = self.config.color;
            let e = &mut self.buf[row * 80 + c];
            *e = ScreenChar { ch: 32, color };
            c = c + 1;
        }
    }

    /// Scroll the console one row and return to the first column.
    fn newline(&mut self)
        requires
            old(self).wf(),
        ensures
            final(self).wf(),
            final(self).col() == 0,
            final(self).conf() == old(self).conf(),
            final(self).cells() == spec_scroll(old(self).cells(), old(self).conf().color),
    {
        let mut row: usize = 1;
        while row < 25
            invariant
                self.wf(),
                1 <= row <= 25,
                self.col() == old(self).col(),
                self.conf() == old(self).conf(),
                forall|i: int|
                    0 <= i < 2000 ==> self.cells()[i] == if i < (row - 1) * 80 {
                        old(self).cells()[i + 80]
                    } else {
                        old(self).cells()[i]
                    },
            decreases 25 - row,
        {
            let mut c: usize = 0;
            while c < 80
                invariant
                    self.wf(),
                    1 <= row < 25,
                    c <= 80,
                    self.col() == old(self).col(),
                    self.conf() == old(self).conf(),
                    forall|i: int|
                        0 <= i < 2000 ==> self.cells()[i] == if i < (row - 1) * 80 + c {
                            old(self).cells()[i + 80]
                        } else {
                            old(self).cells()[i]
                        },
                decreases 80 - c,
            {
                let v = self.buf[row * 80 + c];
                let e = &mut self.buf[(row - 1) * 80 + c];
                *e = v;
                c = c + 1;
            }
            row = row + 1;
        }
        self.clear_row(24);
        self.cur_cmn = 0;
        proof {
            assert(self.cells() =~= spec_scroll(old(self).cells(), old(self).conf().color));
        }
    }

    /// Advance to the next multiple of `tab_width + 1`, blanking the cells
    /// passed over on the bottom row.
    fn tabulate(&mut self)
        requires
            old(self).wf(),
            old(self).col() <= 80,
        ensures
            final(self).wf(),
            final(self).conf() == old(self).conf(),
            final(self).col() == old(self).col() + (5 - old(self).col() % 5),
            ({
                let stop = if old(self).col() + (5 - old(self).col() % 5) < 80 {
                    old(self).col() + (5 - old(self).col() % 5)
                } else {
                    80int
                };
                forall|i: int|
                    0 <= i < 2000 ==> final(self).cells()[i] == if 24 * 80 + old(self).col()
                        <= i < 24 * 80 + stop {
                        blank_cell(old(self).conf().color)
                    } else {
                        old(self).cells()[i]
                    }
            }),
    {
        let tab_width = self.config.tab_width as usize;
        let pad = (tab_width + 1) - self.cur_cmn % (tab_width + 1);
        let target = self.cur_cmn + pad;
        let stop = if target < 80 {
            target
        } else {
            80
        };
        let mut c = self.cur_cmn;
        while c < stop
            invariant
                self.wf(),
                old(self).wf(),
                old(self).col() <= c,
                c <= stop,
                stop <= 80,
                stop == if old(self).col() + (5 - old(self).col() % 5) < 80 {
                    old(self).col() + (5 - old(self).col() % 5)
                } else {
                    80int
                },
                self.col() == old(self).col(),
                self.conf() == old(self).conf(),
                forall|i: int|
                    0 <= i < 2000 ==> self.cells()[i] == if 24 * 80 + old(self).col() <= i < 24
                        * 80 + c {
                        blank_cell(old(self).conf().color)
                    } else {
                        old(self).cells()[i]
                    },
            decreases stop - c,
        {
            let color = self.config.color;
            let e = &mut self.buf[24 * 80 + c];
            *e = ScreenChar { ch: 32, color };
            c = c + 1;
        }
        self.cur_cmn = self.cur_cmn + pad;
    }

    /// Write one byte: newline scrolls, tab pads to the next stop, and any
    /// other byte lands at the cursor on the bottom row, scrolling first
    /// when the row is full.
    pub fn write_byte(&mut self, byte: u8)
        requires
            old(self).wf(),
            byte == 9 ==> old(self).col() <= 80,
        ensures
            final(self).wf(),
            final(self).conf() == old(self).conf(),
            (final(self).cells(), final(self).col()) == spec_write_byte(
                old(self).cells(),
                old(self).col(),
                byte,
                old(self).conf().color,
            ),
            byte == 10 ==> final(self).cells() == spec_scroll(
                old(self).cells(),
                old(self).conf().color,
            ) && final(self).col() == 0,
            byte != 10 && byte != 9 && old(self).col() < 80 ==> final(self).cells() == old(
                self,
            ).cells().update(
                24 * 80 + old(self).col(),
                ScreenChar { ch: byte, color: old(self).conf().color },
            ) && final(self).col() == old(self).col() + 1,
            byte != 10 && byte != 9 && old(self).col() >= 80 ==> final(self).cells()
                == spec_scroll(old(self).cells(), old(self).conf().color).update(
                24 * 80 as int,
                ScreenChar { ch: byte, color: old(self).conf().color },
            ) && final(self).col() == 1,
    {
        if byte == 10 {
            self.newline();
        } else if byte == 9 {
            self.tabulate();
        } else {
            if self.cur_cmn >= 80 {
                self.newline();
            }
            let color = self.config.color;
            let cc = self.cur_cmn;
            let e = &mut self.buf[24 * 80 + cc];
            *e = ScreenChar { ch: byte, color };
            self.cur_cmn = self.cur_cmn + 1;
        }
    }

    /// Write a string of bytes, one by one.
    pub fn write_str(&mut self, s: &[u8])
        requires
            old(self).wf(),
            forall|i: int| 0 <= i < s@.len() ==> s@[i] != 9,
        ensures
            final(self).wf(),
            final(self).conf() == old(self).conf(),
            (final(self).cells(), final(self).col()) == spec_write_bytes(
                old(self).cells(),
                old(self).col(),
                s@,
                old(self).conf().color,
            ),
    {
        let mut k: usize = 0;
        proof {
            assert(s@.take(0) =~= Seq::<u8>::empty());
        }
        while k < s.len()
            invariant
                self.wf(),
                old(self).wf(),
                self.conf() == old(self).conf(),
                k <= s@.len(),
                forall|i: int| 0 <= i < s@.len() ==> s@[i] != 9,
                (self.cells(), self.col()) == spec_write_bytes(
                    old(self).cells(),
                    old(self).col(),
                    s@.take(k as int),
                    old(self).conf().color,
                ),
            decreases s@.len() - k,
        {
            let b = s[k];
            proof {
                lemma_write_bytes_snoc(
                    old(self).cells(),
                    old(self).col(),
                    s@,
                    k as int,
                    old(self).conf().color,
                );
            }
            self.write_byte(b);
            k = k + 1;
        }
        proof {
            assert(s@.take(s@.len() as int) =~= s@);
        }
    }

    /// The cell at a row and column.
    pub fn cell_at(&self, row: usize, c: usize) -> (r: ScreenChar)
        requires
            self.wf(),
            row < 25,
            c < 80,
        ensures
            r == self.cells()[row * 80 + c],
    {
        self.buf[row * 80 + c]
    }

    /// The current column.
    pub fn column(&self) -> (r: usize)
        requires
            self.wf(),
        ensures
            r == self.col(),
    {
        self.cur_cmn
    }
}

} // verus!
