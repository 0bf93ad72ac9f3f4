use vstd::prelude::*;
use vstd::string::StringSliceAdditionalSpecFns;
use crate::syscall::SyscallEffect;

verus! {

/// Columns of the text screen.
pub const VGA_WIDTH: usize = 80;
/// Rows of the text screen.
pub const VGA_HEIGHT: usize = 25;
/// Bytes of the text buffer: a character and a color per cell.
pub const VGA_BUFFER_BYTES: usize = 4000;
/// White on black.
pub const VGA_COLOR: u8 = 0x0f;
/// The byte of a blank cell.
pub const BLANK: u8 = 0x20;
/// Line feed.
pub const NEWLINE: u8 = 0x0A;
/// Backspace.
pub const BACKSPACE: u8 = 0x08;

/// A byte to store at `offset` in the text buffer.
#[derive(Debug, Clone, Copy, PartialEq, Eq, Structural)]
pub struct CellWrite {
    pub offset: usize,
    pub value: u8,
}

/// The two writes that put `ch` in the cell at `row`, `col`.
pub open spec fn cell_writes(row: int, col: int, ch: u8) -> Seq<CellWrite> {
    let off = (row * VGA_WIDTH + col) * 2;
    seq![CellWrite { offset: off as usize, value: ch }, CellWrite { offset: (off + 1) as usize, value: VGA_COLOR }]
}

/// The writes that blank every cell, row by row.
pub open spec fn clear_writes() -> Seq<CellWrite> {
    Seq::new(VGA_BUFFER_BYTES as nat, |k: int| CellWrite {
        offset: k as usize,
        value: if k % 2 == 0 { BLANK } else { VGA_COLOR },
    })
}

/// Cursor and writes after a line feed at `row`: column 0 of the next
/// row, or, past the last row, a cleared screen with the cursor home.
pub open spec fn newline_step(row: int) -> (int, int, Seq<CellWrite>) {
    if row + 1 >= VGA_HEIGHT {
        (0, 0, clear_writes())
    } else {
        (0, row + 1, Seq::empty())
    }
}

/// Cursor and writes after writing `byte` with the cursor at `col`, `row`:
/// a line feed moves to the next line; a backspace steps back (to the end
/// of the previous row at column 0) and blanks that cell; any other byte
/// wraps to a new line when the row is full, is stored at the cursor and
/// advances it.
pub open spec fn vga_step(col: int, row: int, byte: u8) -> (int, int, Seq<CellWrite>) {
    if byte == NEWLINE {
        newline_step(row)
    } else if byte == BACKSPACE {
        let (c, r) = if col > 0 { (col - 1, row) } else if row > 0 { (VGA_WIDTH - 1, row - 1) } else { (col, row) };
        (c, r, cell_writes(r, c, BLANK))
    } else {
        let (c, r, w) = if col >= VGA_WIDTH { newline_step(row) } else { (col, row, Seq::empty()) };
        (c + 1, r, w + cell_writes(r, c, byte))
    }
}

/// Console output of one byte with the cursor at `col`, `row`: the byte on
/// the serial line, then its cell writes.
pub open spec fn console_step(col: int, row: int, byte: u8) -> (int, int, Seq<SyscallEffect>) {
    let (c, r, w) = vga_step(col, row, byte);
    (c, r, seq![SyscallEffect::Serial(byte)] + w.map_values(|x: CellWrite| SyscallEffect::Vga(x)))
}

/// Console output of `bytes` in order, from the cursor at `col`, `row`.
pub open spec fn console_run(col: int, row: int, bytes: Seq<u8>) -> (int, int, Seq<SyscallEffect>)
    decreases bytes.len(),
{
    if bytes.len() == 0 {
        (col, row, Seq::empty())
    } else {
        let (c, r, e) = console_run(col, row, bytes.drop_last());
        let (c2, r2, e2) = console_step(c, r, bytes.last());
        (c2, r2, e + e2)
    }
}

/// A text-mode writer: the cursor, and the cell writes that output needs.
#[derive(Debug, Clone, Copy, PartialEq, Eq, Structural)]
pub struct VgaWriter {
    column_position: usize,
    row_position: usize,
}

/// The cursor is on the screen; the column may sit just past the last
/// cell of its row.
pub open spec fn cursor_ok(col: int, row: int) -> bool {
    0 <= col <= VGA_WIDTH && 0 <= row < VGA_HEIGHT
}

impl VgaWriter {
    pub closed spec fn col(&self) -> int {
        self.column_position as int
    }

    pub closed spec fn row(&self) -> int {
        self.row_position as int
    }

    pub open spec fn wf(&self) -> bool {
        cursor_ok(self.col(), self.row())
    }

    /// A writer with the cursor at the top left.
    pub fn new() -> (w: Self)
        ensures
            w.wf(),
            w.col() == 0 && w.row() == 0,
    {
        VgaWriter { column_position: 0, row_position: 0 }
    }

    fn push_cell(out: &mut Vec<CellWrite>, row: usize, col: usize, ch: u8)
        requires
            row < VGA_HEIGHT,
            col < VGA_WIDTH,
        ensures
            final(out)@ == old(out)@ + cell_writes(row as int, col as int, ch),
    {
        let off = (row * VGA_WIDTH + col) * 2;
        out.push(CellWrite { offset: off, value: ch });
        out.push(CellWrite { offset: off + 1, value: VGA_COLOR });
        assert(out@ =~= old(out)@ + cell_writes(row as int, col as int, ch));
    }

    /// Moves the cursor home and returns the writes that blank every cell.
    pub fn clear_screen(&mut self) -> (w: Vec<CellWrite>)
        ensures
            final(self).wf(),
            final(self).col() == 0 && final(self).row() == 0,
            w@ == clear_writes(),
    {
        self.column_position = 0;
        self.row_position = 0;
        let mut w: Vec<CellWrite> = Vec::new();
        let mut row: usize = 0;
        while row < VGA_HEIGHT
            invariant
                row <= VGA_HEIGHT,
                w@ == clear_writes().take((row * VGA_WIDTH * 2) as int),
            decreases VGA_HEIGHT - row,
        {
            let mut col: usize = 0;
            while col < VGA_WIDTH
                invariant
                    row < VGA_HEIGHT,
                    col <= VGA_WIDTH,
                    w@ == clear_writes().take(((row * VGA_WIDTH + col) * 2) as int),
                decreases VGA_WIDTH - col,
            {
                Self::push_cell(&mut w, row, col, BLANK);
                proof {
                    let k = ((row * VGA_WIDTH + col) * 2) as int;
                    assert(w@ =~= clear_writes().take(k + 2)) by {
                        assert(k % 2 == 0);
                        assert((k + 1) % 2 == 1);
                    }
                }
                col = col + 1;
            }
            row = row + 1;
        }
        assert(w@ =~= clear_writes());
        w
    }

    fn new_line(&mut self) -> (w: Vec<CellWrite>)
        requires
            old(self).wf(),
        ensures
            final(self).wf(),
            (final(self).col(), final(self).row(), w@) == newline_step(old(self).row()),
    {
        self.column_position = 0;
        self.row_position = self.row_position + 1;
        if self.row_position >= VGA_HEIGHT {
            self.clear_screen()
        } else {
            Vec::new()
        }
    }

    /// The cell writes one byte needs, moving the cursor.
    fn write_cells(&mut self, byte: u8) -> (w: Vec<CellWrite>)
        requires
            old(self).wf(),
        ensures
            final(self).wf(),
            (final(self).col(), final(self).row(), w@) == vga_step(old(self).col(), old(self).row(), byte),
    {
        if byte == NEWLINE {
            return self.new_line();
        }
        if byte == BACKSPACE {
            if self.column_position > 0 {
                self.column_position = self.column_position - 1;
            } else if self.row_position > 0 {
                self.row_position = self.row_position - 1;
                self.column_position = VGA_WIDTH - 1;
            }
            let mut w: Vec<CellWrite> = Vec::new();
            Self::push_cell(&mut w, self.row_position, self.column_position, BLANK);
            assert(w@ =~= cell_writes(self.row(), self.col(), BLANK));
            return w;
        }
        let mut w: Vec<CellWrite> = if self.column_position >= VGA_WIDTH { self.new_line() } else { Vec::new() };
        Self::push_cell(&mut w, self.row_position, self.column_position, byte);
        self.column_position = self.column_position + 1;
        w
    }

    /// Writes one byte: returns its output in order, the byte on the serial
    /// line first, then the cell writes it needs on the screen.
    pub fn write_byte(&mut self, byte: u8) -> (e: Vec<SyscallEffect>)
        requires
            old(self).wf(),
        ensures
            final(self).wf(),
            (final(self).col(), final(self).row(), e@) == console_step(old(self).col(), old(self).row(), byte),
    {
        let mut e: Vec<SyscallEffect> = Vec::new();
        e.push(SyscallEffect::Serial(byte));
        let cells = self.write_cells(byte);
        let mut k: usize = 0;
        while k < cells.len()
            invariant
                k <= cells@.len(),
                e@ == seq![SyscallEffect::Serial(byte)] + cells@.take(k as int).map_values(|x: CellWrite| SyscallEffect::Vga(x)),
            decreases cells@.len() - k,
        {
            e.push(SyscallEffect::Vga(cells[k]));
            assert(cells@.take(k as int + 1).map_values(|x: CellWrite| SyscallEffect::Vga(x))
                =~= cells@.take(k as int).map_values(|x: CellWrite| SyscallEffect::Vga(x)).push(SyscallEffect::Vga(cells@[k as int])));
            k = k + 1;
        }
        assert(cells@.take(k as int) =~= cells@);
        e
    }

    /// Writes the bytes of `s` in order: returns the output of each byte
    /// in turn, as `write_byte` gives it.
    pub fn write_string(&mut self, s: &str) -> (e: Vec<SyscallEffect>)
        requires
            old(self).wf(),
        ensures
            final(self).wf(),
            (final(self).col(), final(self).row(), e@) == console_run(old(self).col(), old(self).row(), s.spec_bytes()),
    {
        let bytes = s.as_bytes();
        let mut e: Vec<SyscallEffect> = Vec::new();
        let mut i: usize = 0;
        while i < bytes.len()
            invariant
                i <= bytes@.len(),
                bytes@ == s.spec_bytes(),
                self.wf(),
                (self.col(), self.row(), e@) == console_run(old(self).col(), old(self).row(), bytes@.take(i as int)),
            decreases bytes@.len() - i,
        {
            let mut more = self.write_byte(bytes[i]);
            e.append(&mut more);
            assert(bytes@.take(i as int + 1).drop_last() =~= bytes@.take(i as int));
            i = i + 1;
        }
        assert(bytes@.take(i as int) =~= bytes@);
        e
    }
}


/// The serial-line bytes among the effects `e`, in order.
pub open spec fn serial_part(e: Seq<SyscallEffect>) -> Seq<u8>
    decreases e.len(),
{
    if e.len() == 0 {
        Seq::empty()
    } else {
        serial_part(e.drop_last()) + match e.last() {
            SyscallEffect::Serial(x) => seq![x],
            _ => Seq::empty(),
        }
    }
}

proof fn lemma_serial_part_concat(a: Seq<SyscallEffect>, b: Seq<SyscallEffect>)
    ensures
        serial_part(a + b) == serial_part(a) + serial_part(b),
    decreases b.len(),
{
    if b.len() == 0 {
        assert(a + b =~= a);
        assert(serial_part(a) + serial_part(b) =~= serial_part(a));
    } else {
        lemma_serial_part_concat(a, b.drop_last());
        assert((a + b).drop_last() =~= a + b.drop_last());
        assert((a + b).last() == b.last());
        assert(serial_part(a + b) =~= serial_part(a) + serial_part(b));
    }
}

proof fn lemma_cells_not_serial(w: Seq<CellWrite>)
    ensures
        serial_part(w.map_values(|x: CellWrite| SyscallEffect::Vga(x))) == Seq::<u8>::empty(),
    decreases w.len(),
{
    if w.len() > 0 {
        lemma_cells_not_serial(w.drop_last());
        assert(w.map_values(|x: CellWrite| SyscallEffect::Vga(x)).drop_last()
            =~= w.drop_last().map_values(|x: CellWrite| SyscallEffect::Vga(x)));
    }
}

/// Every byte written to the console goes to the serial line first, and
/// exactly once: the output of one byte, whatever the cursor and whatever
/// the byte (line feed and backspace included), starts with that byte on
/// the serial line and has only screen cell writes after it.
pub proof fn law_console_byte_serial_first(col: int, row: int, byte: u8)
    ensures
        console_step(col, row, byte).2.len() >= 1,
        console_step(col, row, byte).2[0] == SyscallEffect::Serial(byte),
        forall|j: int| 1 <= j < console_step(col, row, byte).2.len() ==> #[trigger] console_step(col, row, byte).2[j] is Vga,
{
}

/// The serial line receives exactly the bytes written, in order.
pub proof fn law_console_serial_is_input(col: int, row: int, bytes: Seq<u8>)
    ensures
        serial_part(console_run(col, row, bytes).2) == bytes,
    decreases bytes.len(),
{
    if bytes.len() > 0 {
        law_console_serial_is_input(col, row, bytes.drop_last());
        let (c, r, e) = console_run(col, row, bytes.drop_last());
        let (c2, r2, w) = vga_step(c, r, bytes.last());
        let one = seq![SyscallEffect::Serial(bytes.last())];
        let cells = w.map_values(|x: CellWrite| SyscallEffect::Vga(x));
        lemma_serial_part_concat(one, cells);
        lemma_cells_not_serial(w);
        assert(serial_part(one) =~= seq![bytes.last()]) by {
            assert(one.drop_last() =~= Seq::<SyscallEffect>::empty());
            assert(serial_part(one.drop_last()) =~= Seq::<u8>::empty());
            assert(one.last() == SyscallEffect::Serial(bytes.last()));
        }
        lemma_serial_part_concat(e, one + cells);
        assert(bytes.drop_last().push(bytes.last()) =~= bytes);
        assert(serial_part(e) + (serial_part(one) + serial_part(cells)) =~= bytes);
    }
}

} // verus!
