use vstd::prelude::*;

verus! {

/// Columns of the VGA text buffer.
pub const WIDTH: usize = 80;

/// Rows of the VGA text buffer.
pub const HEIGHT: usize = 25;

/// Bytes in the VGA text buffer: one character byte and one color byte per cell.
pub const BUFFER_BYTES: usize = 4000;

/// White on black.
pub const COLOR: u8 = 0x0F;

/// The text-mode cursor: the cell the next character goes to.
///
/// Output does not scroll: once the cursor reaches the bottom row, later lines
/// stay clamped to that row.
#[derive(Clone, Copy, Debug, PartialEq, Eq, Structural)]
pub struct VgaCursor {
    row: usize,
    col: usize,
}

/// One character written at byte `offset` of the text buffer; its color byte
/// goes to `offset + 1`.
#[derive(Clone, Copy, Debug, PartialEq, Eq, Structural)]
pub struct CellWrite {
    pub offset: usize,
    pub byte: u8,
}

impl View for VgaCursor {
    type V = (int, int);

    /// The cursor as `(row, column)`.
    closed spec fn view(&self) -> (int, int) {
        (self.row as int, self.col as int)
    }
}

/// The cursor lies on a visible row, at most one past the last column.
pub open spec fn cursor_ok(c: (int, int)) -> bool {
    0 <= c.0 < HEIGHT && 0 <= c.1 <= WIDTH
}

/// The cursor after a line break from `c`.
pub open spec fn after_newline(c: (int, int)) -> (int, int) {
    if c.0 + 1 >= HEIGHT {
        (HEIGHT - 1, 0)
    } else {
        (c.0 + 1, 0)
    }
}

/// The cursor after writing `byte` at `c`, and the cell written, if any.
pub open spec fn step(c: (int, int), byte: u8) -> ((int, int), Option<CellWrite>) {
    if byte == 10 {
        (after_newline(c), None)
    } else {
        let at = if c.1 >= WIDTH {
            after_newline(c)
        } else {
            c
        };
        ((at.0, at.1 + 1), Some(CellWrite { offset: ((at.0 * WIDTH + at.1) * 2) as usize, byte }))
    }
}

/// The cursor after writing `bytes` from `c`, and the cells written, in order.
pub open spec fn render(c: (int, int), bytes: Seq<u8>) -> ((int, int), Seq<CellWrite>)
    decreases bytes.len(),
{
    if bytes.len() == 0 {
        (c, seq![])
    } else {
        let (c2, cells) = render(c, bytes.drop_last());
        let (c3, w) = step(c2, bytes.last());
        (
            c3,
            match w {
                Some(x) => cells.push(x),
                None => cells,
            },
        )
    }
}

impl VgaCursor {
    /// The cursor at the top-left cell.
    pub fn new() -> (r: Self)
        ensures
            r@ == (0int, 0int),
    {
        VgaCursor { row: 0, col: 0 }
    }

    /// Moves the cursor to the start of the next row, clamped to the last row.
    fn newline(&mut self)
        requires
            cursor_ok(old(self)@),
        ensures
            final(self)@ == after_newline(old(self)@),
            cursor_ok(final(self)@),
    {
        self.col = 0;
        self.row = self.row + 1;
        if self.row >= HEIGHT {
            self.row = HEIGHT - 1;
        }
    }

    /// Writes one byte at the cursor: a newline byte moves to the next row;
    /// any other byte fills the current cell, wrapping first when the row is
    /// full, and advances the column.
    fn write_byte(&mut self, byte: u8) -> (r: Option<CellWrite>)
        requires
            cursor_ok(old(self)@),
        ensures
            (final(self)@, r) == step(old(self)@, byte),
            cursor_ok(final(self)@),
            r matches Some(w) ==> w.offset + 1 < BUFFER_BYTES,
    {
        if byte == 10 {
            self.newline();
            return None;
        }
        if self.col >= WIDTH {
            self.newline();
        }
        let offset = (self.row * WIDTH + self.col) * 2;
        self.col = self.col + 1;
        Some(CellWrite { offset, byte })
    }
}

/// The text buffer `screen` after filling `cells` in order: each cell's
/// character byte at its offset and the color byte after it.
pub open spec fn paint(screen: Seq<u8>, cells: Seq<CellWrite>) -> Seq<u8>
    decreases cells.len(),
{
    if cells.len() == 0 {
        screen
    } else {
        let c = cells.last();
        paint(screen, cells.drop_last()).update(c.offset as int, c.byte).update(
            c.offset + 1,
            COLOR,
        )
    }
}

/// Writes a byte slice at `cursor` into the text buffer `screen`, one byte at
/// a time; every cell written lies inside the visible text buffer.
pub fn write_bytes(cursor: &mut VgaCursor, bytes: &[u8], screen: &mut [u8; BUFFER_BYTES])
    requires
        cursor_ok(old(cursor)@),
    ensures
        final(cursor)@ == render(old(cursor)@, bytes@).0,
        final(screen)@ == paint(old(screen)@, render(old(cursor)@, bytes@).1),
        cursor_ok(final(cursor)@),
{
    let ghost cells: Seq<CellWrite> = seq![];
    let mut i: usize = 0;
    while i < bytes.len()
        invariant
            i <= bytes@.len(),
            cursor_ok(cursor@),
            (cursor@, cells) == render(old(cursor)@, bytes@.take(i as int)),
            screen@ == paint(old(screen)@, cells),
            screen@.len() == BUFFER_BYTES,
        decreases bytes@.len() - i,
    {
        assert(bytes@.take(i as int + 1).drop_last() =~= bytes@.take(i as int));
        assert(bytes@.take(i as int + 1).last() == bytes@[i as int]);
        match cursor.write_byte(bytes[i]) {
            Some(w) => {
                screen[w.offset] = w.byte;
                screen[w.offset + 1] = COLOR;
                proof {
                    let next = cells.push(w);
                    assert(next.drop_last() =~= cells);
                    cells = next;
                }
            },
            None => {},
        }
        i += 1;
    }
    assert(bytes@.take(bytes@.len() as int) =~= bytes@);
}

} // verus!
