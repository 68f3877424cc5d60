//! The VGA text-mode screen: an 80x25 grid of (character, attribute) byte pairs and a cursor.
use vstd::prelude::*;
use vstd::string::StringSliceAdditionalSpecFns;

verus! {

/// Columns of the text screen.
pub const VGA_WIDTH: usize = 80;
/// Rows of the text screen.
pub const VGA_HEIGHT: usize = 25;
/// Bytes of screen memory: a character and an attribute per cell.
pub const VGA_BUFFER_SIZE: usize = 4000;
/// Bytes in one row of screen memory.
pub const VGA_ROW_BYTES: usize = 160;

/// The sixteen VGA colours.
#[derive(Debug, Clone, Copy, PartialEq, Eq, Structural)]
pub enum VgaColor {
    Black,
    Blue,
    Green,
    Cyan,
    Red,
    Magenta,
    Brown,
    LightGray,
    DarkGray,
    LightBlue,
    LightGreen,
    LightCyan,
    LightRed,
    Pink,
    Yellow,
    White,
}

/// The hardware number of a colour.
pub open spec fn color_number(c: VgaColor) -> u8 {
    match c {
        VgaColor::Black => 0,
        VgaColor::Blue => 1,
        VgaColor::Green => 2,
        VgaColor::Cyan => 3,
        VgaColor::Red => 4,
        VgaColor::Magenta => 5,
        VgaColor::Brown => 6,
        VgaColor::LightGray => 7,
        VgaColor::DarkGray => 8,
        VgaColor::LightBlue => 9,
        VgaColor::LightGreen => 10,
        VgaColor::LightCyan => 11,
        VgaColor::LightRed => 12,
        VgaColor::Pink => 13,
        VgaColor::Yellow => 14,
        VgaColor::White => 15,
    }
}

impl VgaColor {
    /// The hardware number of this colour.
    pub fn number(&self) -> (r: u8)
        ensures
            r == color_number(*self),
    {
        match self {
            VgaColor::Black => 0,
            VgaColor::Blue => 1,
            VgaColor::Green => 2,
            VgaColor::Cyan => 3,
            VgaColor::Red => 4,
            VgaColor::Magenta => 5,
            VgaColor::Brown => 6,
            VgaColor::LightGray => 7,
            VgaColor::DarkGray => 8,
            VgaColor::LightBlue => 9,
            VgaColor::LightGreen => 10,
            VgaColor::LightCyan => 11,
            VgaColor::LightRed => 12,
            VgaColor::Pink => 13,
            VgaColor::Yellow => 14,
            VgaColor::White => 15,
        }
    }
}

/// A cell attribute: background in the high nibble, foreground in the low one.
#[derive(Debug, Clone, Copy, PartialEq, Eq, Structural)]
pub struct ColorCode(pub u8);

impl ColorCode {
    /// The attribute for `foreground` on `background`.
    pub fn new(foreground: VgaColor, background: VgaColor) -> (c: ColorCode)
        ensures
            c.0 == color_number(background) * 16 + color_number(foreground),
    {
        let f = foreground.number();
        let b = background.number();
        ColorCode(b * 16 + f)
    }
}

/// Screen memory and cursor `(row, column)` as one value.
pub struct Screen {
    pub buf: Seq<u8>,
    pub row: int,
    pub col: int,
}

/// A blank row in attribute `color`.
pub open spec fn blank_row(color: u8) -> Seq<u8> {
    Seq::new(VGA_ROW_BYTES as nat, |i: int| if i % 2 == 0 { 32u8 } else { color })
}

/// A blank screen in attribute `color`.
pub open spec fn blank_screen(color: u8) -> Seq<u8> {
    Seq::new(VGA_BUFFER_SIZE as nat, |i: int| if i % 2 == 0 { 32u8 } else { color })
}

/// The screen after a line break: the cursor moves to the next row, or on the last row every
/// row moves up one, the last row is blanked and the cursor stays on it.
pub open spec fn new_line_spec(s: Screen, color: u8) -> Screen {
    if s.row < VGA_HEIGHT - 1 {
        Screen { buf: s.buf, row: s.row + 1, col: 0 }
    } else {
        Screen {
            buf: s.buf.subrange(VGA_ROW_BYTES as int, VGA_BUFFER_SIZE as int) + blank_row(color),
            row: VGA_HEIGHT - 1,
            col: 0,
        }
    }
}

/// The screen after writing `byte`: a newline breaks the line; any other byte wraps first when
/// the row is full, is stored with `color` at the cursor, and advances the cursor.
pub open spec fn write_byte_spec(s: Screen, color: u8, byte: u8) -> Screen {
    if byte == 10 {
        new_line_spec(s, color)
    } else {
        let t = if s.col >= VGA_WIDTH { new_line_spec(s, color) } else { s };
        let off = (t.row * VGA_WIDTH + t.col) * 2;
        Screen { buf: t.buf.update(off, byte).update(off + 1, color), row: t.row, col: t.col + 1 }
    }
}

/// The byte shown for `b`: printable ASCII and newline as they are, anything else as 0xfe.
pub open spec fn shown_byte(b: u8) -> u8 {
    if (0x20 <= b && b <= 0x7e) || b == 10 { b } else { 0xfe }
}

/// The screen after writing the bytes `bs` one by one.
pub open spec fn write_bytes_spec(s: Screen, color: u8, bs: Seq<u8>) -> Screen
    decreases bs.len(),
{
    if bs.len() == 0 {
        s
    } else {
        write_bytes_spec(write_byte_spec(s, color, shown_byte(bs[0])), color, bs.drop_first())
    }
}

/// The screen after erasing the character before the cursor on its row.
pub open spec fn erase_back_spec(s: Screen) -> Screen {
    if s.col > 0 {
        Screen { buf: s.buf.update((s.row * VGA_WIDTH + (s.col - 1)) * 2, 32u8), row: s.row, col: s.col - 1 }
    } else {
        s
    }
}

/// A writer on the text screen with a fixed attribute; it owns screen memory and cursor.
pub struct VgaWriter {
    pub color_code: ColorCode,
    pub buffer: Vec<u8>,
    pub cursor: (usize, usize),
}

impl VgaWriter {
    /// Screen memory has its full size, the cursor row is on screen and the column at most one
    /// past the last.
    pub open spec fn wf(&self) -> bool {
        &&& self.buffer@.len() == VGA_BUFFER_SIZE
        &&& self.cursor.0 < VGA_HEIGHT
        &&& self.cursor.1 <= VGA_WIDTH
    }

    /// Screen memory and cursor.
    pub open spec fn screen(&self) -> Screen {
        Screen { buf: self.buffer@, row: self.cursor.0 as int, col: self.cursor.1 as int }
    }

    /// A writer in `foreground` on `background` over a zeroed screen, cursor at the origin.
    pub fn new(foreground: VgaColor, background: VgaColor) -> (w: VgaWriter)
        ensures
            w.wf(),
            w.color_code.0 == color_number(background) * 16 + color_number(foreground),
            w.buffer@ == Seq::new(VGA_BUFFER_SIZE as nat, |i: int| 0u8),
            w.cursor == (0usize, 0usize),
    {
        let buffer = vec![0u8; VGA_BUFFER_SIZE];
        let w = VgaWriter { color_code: ColorCode::new(foreground, background), buffer, cursor: (0, 0) };
        assert(w.buffer@ =~= Seq::new(VGA_BUFFER_SIZE as nat, |i: int| 0u8));
        w
    }

    /// Breaks the line, scrolling when the cursor is on the last row.
    fn new_line(&mut self)
        requires
            old(self).wf(),
        ensures
            final(self).wf(),
            final(self).color_code == old(self).color_code,
            final(self).screen() == new_line_spec(old(self).screen(), old(self).color_code.0),
    {
        let row = self.cursor.0;
        if row < VGA_HEIGHT - 1 {
            self.cursor = (row + 1, 0);
        } else {
            let ghost b0 = self.buffer@;
            let mut i: usize = 0;
            while i < VGA_BUFFER_SIZE - VGA_ROW_BYTES
                invariant
                    i <= VGA_BUFFER_SIZE - VGA_ROW_BYTES,
                    self.color_code == old(self).color_code,
                    self.buffer@.len() == VGA_BUFFER_SIZE,
                    b0.len() == VGA_BUFFER_SIZE,
                    forall|k: int| 0 <= k < i ==> self.buffer@[k] == b0[k + VGA_ROW_BYTES],
                    forall|k: int| i <= k < VGA_BUFFER_SIZE ==> self.buffer@[k] == b0[k],
                decreases VGA_BUFFER_SIZE - VGA_ROW_BYTES - i,
            {
                let b = self.buffer[i + VGA_ROW_BYTES];
                self.buffer.set(i, b);
                i = i + 1;
            }
            let color = self.color_code.0;
            let mut j: usize = 0;
            while j < VGA_WIDTH
                invariant
                    j <= VGA_WIDTH,
                    self.color_code == old(self).color_code,
                    color == self.color_code.0,
                    self.buffer@.len() == VGA_BUFFER_SIZE,
                    b0.len() == VGA_BUFFER_SIZE,
                    forall|k: int| 0 <= k < VGA_BUFFER_SIZE - VGA_ROW_BYTES ==> self.buffer@[k] == b0[k + VGA_ROW_BYTES],
                    forall|k: int| 0 <= k < 2 * j ==> self.buffer@[VGA_BUFFER_SIZE - VGA_ROW_BYTES + k]
                        == blank_row(color)[k],
                decreases VGA_WIDTH - j,
            {
                let base = VGA_BUFFER_SIZE - VGA_ROW_BYTES;
                self.buffer.set(base + j * 2, 32u8);
                self.buffer.set(base + j * 2 + 1, color);
                proof {
                    assert((2 * j) % 2 == 0);
                    assert((2 * j + 1) % 2 == 1);
                }
                j = j + 1;
            }
            self.cursor = (VGA_HEIGHT - 1, 0);
            assert(self.buffer@ =~= b0.subrange(VGA_ROW_BYTES as int, VGA_BUFFER_SIZE as int) + blank_row(color));
        }
    }

    /// Writes one byte at the cursor (see `write_byte_spec`).
    pub fn write_byte(&mut self, byte: u8)
        requires
            old(self).wf(),
        ensures
            final(self).wf(),
            final(self).color_code == old(self).color_code,
            final(self).screen() == write_byte_spec(old(self).screen(), old(self).color_code.0, byte),
    {
        if byte == 10u8 {
            self.new_line();
        } else {
            if self.cursor.1 >= VGA_WIDTH {
                self.new_line();
            }
            let (row, col) = self.cursor;
            let off = (row * VGA_WIDTH + col) * 2;
            assert(off + 1 < VGA_BUFFER_SIZE) by (nonlinear_arith)
                requires row < 25, col < 80, off == (row * 80 + col) * 2;
            self.buffer.set(off, byte);
            self.buffer.set(off + 1, self.color_code.0);
            self.cursor = (row, col + 1);
        }
    }

    /// Moves the cursor back one column and blanks the character there (the attribute
    /// byte is kept); at the start of a row nothing changes.
    pub fn erase_back(&mut self)
        requires
            old(self).wf(),
        ensures
            final(self).wf(),
            final(self).color_code == old(self).color_code,
            final(self).screen() == erase_back_spec(old(self).screen()),
    {
        let (row, col) = self.cursor;
        if col > 0 {
            self.cursor = (row, col - 1);
            let offset = (row * VGA_WIDTH + (col - 1)) * 2;
            self.buffer.set(offset, 32u8);
        }
    }

    /// Writes the UTF-8 bytes of `s`, showing non-printable bytes as 0xfe.
    pub fn write_string(&mut self, s: &str)
        requires
            old(self).wf(),
        ensures
            final(self).wf(),
            final(self).color_code == old(self).color_code,
            final(self).screen() == write_bytes_spec(old(self).screen(), old(self).color_code.0, s.spec_bytes()),
    {
        let bytes = s.as_bytes();
        let ghost c = self.color_code.0;
        let ghost s0 = self.screen();
        let mut i: usize = 0;
        assert(bytes@.subrange(0, bytes@.len() as int) =~= bytes@);
        while i < bytes.len()
            invariant
                self.wf(),
                self.color_code.0 == c,
                i <= bytes@.len(),
                bytes@ == s.spec_bytes(),
                write_bytes_spec(s0, c, bytes@) == write_bytes_spec(self.screen(), c, bytes@.subrange(i as int, bytes@.len() as int)),
            decreases bytes@.len() - i,
        {
            let b = bytes[i];
            let shown: u8 = if (0x20u8 <= b && b <= 0x7eu8) || b == 10u8 { b } else { 0xfeu8 };
            let ghost rest = bytes@.subrange(i as int, bytes@.len() as int);
            assert(rest.drop_first() =~= bytes@.subrange(i + 1, bytes@.len() as int));
            self.write_byte(shown);
            i = i + 1;
        }
        assert(bytes@.subrange(i as int, bytes@.len() as int) =~= Seq::<u8>::empty());
    }

    /// Blanks the screen in this writer's attribute and homes the cursor.
    pub fn clear_screen(&mut self)
        requires
            old(self).wf(),
        ensures
            final(self).wf(),
            final(self).color_code == old(self).color_code,
            final(self).buffer@ == blank_screen(old(self).color_code.0),
            final(self).cursor == (0usize, 0usize),
    {
        let color = self.color_code.0;
        let mut i: usize = 0;
        while i < VGA_WIDTH * VGA_HEIGHT
            invariant
                i <= VGA_WIDTH * VGA_HEIGHT,
                self.color_code == old(self).color_code,
                color == self.color_code.0,
                self.buffer@.len() == VGA_BUFFER_SIZE,
                forall|k: int| 0 <= k < 2 * i ==> self.buffer@[k] == blank_screen(color)[k],
            decreases VGA_WIDTH * VGA_HEIGHT - i,
        {
            self.buffer.set(i * 2, 32u8);
            self.buffer.set(i * 2 + 1, color);
            proof {
                assert((2 * i) % 2 == 0);
                assert((2 * i + 1) % 2 == 1);
            }
            i = i + 1;
        }
        self.cursor = (0, 0);
        assert(self.buffer@ =~= blank_screen(color));
    }
}

/// A white-on-black writer over a freshly blanked screen.
pub fn init_vga() -> (w: VgaWriter)
    ensures
        w.wf(),
        w.color_code.0 == 15,
        w.buffer@ == blank_screen(15),
        w.cursor == (0usize, 0usize),
{
    let mut w = VgaWriter::new(VgaColor::White, VgaColor::Black);
    w.clear_screen();
    w
}

/// The writer slot of the system console.
pub fn drv_vga_writer(slot: &mut Option<VgaWriter>) -> (r: &mut Option<VgaWriter>)
    ensures
        *r == *old(slot),
        *final(slot) == *final(r),
{
    slot
}

} // verus!
