//! The character grid and the console writer's line discipline.
use crate::color::ColorCode;
use vstd::prelude::*;
use vstd::string::StringSliceAdditionalSpecFns;
use volatile::Volatile;

verus! {

/// Grid height in rows; row 0 is the top, the last row is the active line.
pub const BUFFER_HEIGHT: usize = 25;

/// Grid width in columns.
pub const BUFFER_WIDTH: usize = 80;

/// One displayable unit: a character byte and its attribute byte.
#[derive(Clone, Copy, Debug, PartialEq, Eq, Structural)]
pub struct ScreenChar {
    pub ascii_character: u8,
    pub color_code: ColorCode,
}

#[verifier::external_type_specification]
#[verifier::external_body]
#[verifier::reject_recursive_types(T)]
pub struct ExVolatile<T: Copy>(Volatile<T>);

/// The value that a volatile cell currently holds.
pub uninterp spec fn held(v: Volatile<ScreenChar>) -> ScreenChar;

/// Relies on volatile::Volatile::new: the new cell holds the value given.
#[verifier::external_body]
fn make_cell(c: ScreenChar) -> (r: Volatile<ScreenChar>)
    ensures
        held(r) == c,
{
    Volatile::new(c)
}

/// Relies on volatile::Volatile::read: a volatile load yields the value held.
#[verifier::external_body]
fn load_cell(v: &Volatile<ScreenChar>) -> (r: ScreenChar)
    ensures
        r == held(*v),
{
    v.read()
}

/// Relies on volatile::Volatile::write: after a volatile store the cell
/// holds the value stored.
#[verifier::external_body]
fn store_cell(v: &mut Volatile<ScreenChar>, c: ScreenChar)
    ensures
        held(*final(v)) == c,
{
    v.write(c)
}

/// Position of cell (row, col) in the row-major grid.
pub open spec fn index(row: int, col: int) -> int {
    row * 80 + col
}

/// An 80x25 grid of cells, row-major, each read and written only through
/// volatile accesses.
pub struct Buffer {
    chars: Vec<Volatile<ScreenChar>>,
}

impl View for Buffer {
    type V = Seq<ScreenChar>;

    /// The cells, row-major.
    closed spec fn view(&self) -> Seq<ScreenChar> {
        self.chars@.map_values(|v: Volatile<ScreenChar>| held(v))
    }
}

impl Buffer {
    /// The grid has exactly 25 rows of 80 cells.
    pub closed spec fn wf(&self) -> bool {
        self.chars@.len() == 2000
    }

    /// A grid whose every cell holds `fill`.
    pub fn new(fill: ScreenChar) -> (r: Buffer)
        ensures
            r.wf(),
            r@ == Seq::new(2000, |i: int| fill),
    {
        let mut chars: Vec<Volatile<ScreenChar>> = Vec::new();
        let mut i: usize = 0;
        while i < BUFFER_HEIGHT * BUFFER_WIDTH
            invariant
                i <= 2000,
                chars@.len() == i,
                forall|j: int| 0 <= j < i ==> held(#[trigger] chars@[j]) == fill,
            decreases 2000 - i,
        {
            chars.push(make_cell(fill));
            i = i + 1;
        }
        let r = Buffer { chars };
        assert(r@ =~= Seq::new(2000, |i: int| fill));
        r
    }

    /// The cell at (row, col).
    pub fn read(&self, row: usize, col: usize) -> (r: ScreenChar)
        requires
            self.wf(),
            row < 25,
            col < 80,
        ensures
            r == self@[index(row as int, col as int)],
    {
        load_cell(&self.chars[row * BUFFER_WIDTH + col])
    }

    /// Stores `c` at (row, col), leaving every other cell as it was.
    pub fn write(&mut self, row: usize, col: usize, c: ScreenChar)
        requires
            old(self).wf(),
            row < 25,
            col < 80,
        ensures
            final(self).wf(),
            final(self)@ == old(self)@.update(index(row as int, col as int), c),
    {
        let i = row * BUFFER_WIDTH + col;
        store_cell(&mut self.chars[i], c);
        assert(self@ =~= old(self)@.update(i as int, c));
    }
}


/// Backspace: erases the character before the cursor.
pub const BACKSPACE: u8 = 8;

/// Line feed: scrolls and starts a new prompt line.
pub const NEWLINE: u8 = 10;

/// Horizontal tab: expands to two spaces.
pub const TABULATION: u8 = 9;

/// The glyph written in place of a byte that has no safe rendering.
pub const PLACEHOLDER: u8 = 0xFE;

/// The prompt written at the start of every line that a scroll opens.
pub const GREET: &'static str = "@> ";

/// The bytes of the prompt.
pub open spec fn prompt() -> Seq<u8> {
    seq![64u8, 62u8, 32u8]
}

/// The bytes of `GREET`.
fn prompt_bytes() -> (r: &'static [u8])
    ensures
        r@ == prompt(),
{
    let bytes = GREET.as_bytes();
    proof {
        reveal_strlit("@> ");
        broadcast use vstd::string::is_ascii_spec_bytes;

        assert(GREET@ =~= seq!['@', '>', ' ']);
        assert(GREET.is_ascii());
        assert(bytes@ =~= prompt());
    }
    bytes
}

/// What the console shows and where it writes next.
pub ghost struct Console {
    /// The 2000 cells, row-major.
    pub grid: Seq<ScreenChar>,
    /// Column of the next forward write on the active (last) row.
    pub column: nat,
    /// Attribute used for new characters.
    pub color: ColorCode,
}

impl Console {
    pub open spec fn wf(self) -> bool {
        self.grid.len() == 2000 && self.column <= 80
    }

    pub open spec fn cell(self, row: int, col: int) -> ScreenChar {
        self.grid[index(row, col)]
    }
}

/// An empty cell in the given attribute.
pub open spec fn blank_of(color: ColorCode) -> ScreenChar {
    ScreenChar { ascii_character: 32, color_code: color }
}

/// The cursor indicator: an empty cell with the blink bit set.
pub open spec fn cursor_of(color: ColorCode) -> ScreenChar {
    ScreenChar { ascii_character: 32, color_code: ColorCode(color.0 | 0x80u8) }
}

/// Draws the cursor indicator at the current column, if that is on the grid.
pub open spec fn with_cursor(s: Console) -> Console {
    if s.column < 80 {
        Console { grid: s.grid.update(index(24, s.column as int), cursor_of(s.color)), ..s }
    } else {
        s
    }
}

/// Places `b` at the current column of the active row (which must be on
/// the grid), advances, and redraws the cursor.
pub open spec fn put(s: Console, b: u8) -> Console {
    with_cursor(
        Console {
            grid: s.grid.update(
                index(24, s.column as int),
                ScreenChar { ascii_character: b, color_code: s.color },
            ),
            column: s.column + 1,
            ..s
        },
    )
}

/// Places each of `bytes` in turn, with no wrapping.
pub open spec fn put_all(s: Console, bytes: Seq<u8>) -> Console
    decreases bytes.len(),
{
    if bytes.len() == 0 {
        s
    } else {
        put(put_all(s, bytes.drop_last()), bytes.last())
    }
}

/// Shifts every row up by one, drops the top row, clears the active row
/// and returns to column 0. The cursor indicator that moved up with the
/// old active row is blanked.
pub open spec fn scrolled(s: Console) -> Console {
    Console {
        grid: Seq::new(
            2000,
            |i: int|
                if i >= index(24, 0) || (s.column < 80 && i == index(23, s.column as int)) {
                    blank_of(s.color)
                } else {
                    s.grid[i + 80]
                },
        ),
        column: 0,
        ..s
    }
}

/// A line break: scroll, then write the prompt.
pub open spec fn new_line(s: Console) -> Console {
    put_all(scrolled(s), prompt())
}

/// A forward write: a full active row is scrolled first.
pub open spec fn print(s: Console, b: u8) -> Console {
    if s.column >= 80 {
        put(new_line(s), b)
    } else {
        put(s, b)
    }
}

/// A backspace: steps back unless inside the prompt, blanks the cell there
/// and the one after it, and redraws the cursor.
pub open spec fn delete(s: Console) -> Console {
    let c = if s.column > prompt().len() {
        (s.column - 1) as nat
    } else {
        s.column
    };
    let g1 = if c < 80 {
        s.grid.update(index(24, c as int), blank_of(s.color))
    } else {
        s.grid
    };
    let g2 = if c + 1 < 80 {
        g1.update(index(24, c + 1int), blank_of(s.color))
    } else {
        g1
    };
    with_cursor(Console { grid: g2, column: c, ..s })
}

/// The effect of one byte on the console.
pub open spec fn step(s: Console, b: u8) -> Console {
    if b == TABULATION {
        print(print(s, 32), 32)
    } else if b == BACKSPACE {
        delete(s)
    } else if b == NEWLINE {
        new_line(s)
    } else {
        print(s, b)
    }
}

/// A byte that is printed as it is: printable ASCII.
pub open spec fn printable(b: u8) -> bool {
    0x20 <= b && b <= 0x7e
}

/// Printable ASCII and the three control bytes pass; anything else
/// becomes the placeholder glyph.
pub open spec fn sanitize(b: u8) -> u8 {
    if printable(b) || b == NEWLINE || b == BACKSPACE || b == TABULATION {
        b
    } else {
        PLACEHOLDER
    }
}

/// The effect of a byte string: each byte sanitized, then stepped.
pub open spec fn feed(s: Console, bytes: Seq<u8>) -> Console
    decreases bytes.len(),
{
    if bytes.len() == 0 {
        s
    } else {
        step(feed(s, bytes.drop_last()), sanitize(bytes.last()))
    }
}


/// The console writer: the grid, the column of the next write on the
/// active row, and the attribute for new characters.
pub struct Writer {
    column_position: usize,
    color_code: ColorCode,
    buffer: Buffer,
}

impl View for Writer {
    type V = Console;

    closed spec fn view(&self) -> Console {
        Console {
            grid: self.buffer@,
            column: self.column_position as nat,
            color: self.color_code,
        }
    }
}

impl Writer {
    /// The grid is whole and the column is within [0, 80].
    pub closed spec fn wf(&self) -> bool {
        self.buffer.wf() && self.column_position <= 80
    }

    /// A writer over `buffer` at column 0 that writes in `color_code`.
    pub fn new(color_code: ColorCode, buffer: Buffer) -> (r: Writer)
        requires
            buffer.wf(),
        ensures
            r.wf(),
            r@ == (Console { grid: buffer@, column: 0, color: color_code }),
    {
        Writer { column_position: 0, color_code, buffer }
    }

    /// Column of the next forward write on the active row.
    pub fn column_position(&self) -> (r: usize)
        ensures
            r == self@.column,
    {
        self.column_position
    }

    /// Attribute used for new characters.
    pub fn color_code(&self) -> (r: ColorCode)
        ensures
            r == self@.color,
    {
        self.color_code
    }

    /// The cell at (row, col).
    pub fn read(&self, row: usize, col: usize) -> (r: ScreenChar)
        requires
            self.wf(),
            row < 25,
            col < 80,
        ensures
            r == self@.cell(row as int, col as int),
    {
        self.buffer.read(row, col)
    }

    /// An empty cell in the current attribute.
    fn blank(&self) -> (r: ScreenChar)
        ensures
            r == blank_of(self@.color),
    {
        ScreenChar { ascii_character: 0x20, color_code: self.color_code }
    }

    /// Draws the cursor indicator at the current column, if on the grid.
    fn cursor(&mut self)
        requires
            old(self).wf(),
        ensures
            final(self).wf(),
            final(self)@ == with_cursor(old(self)@),
    {
        let col = self.column_position;
        if col < BUFFER_WIDTH {
            let color_code = self.color_code.blinking();
            self.buffer.write(BUFFER_HEIGHT - 1, col, ScreenChar { ascii_character: 0x20, color_code });
        }
    }

    /// Places `byte` at the current column, advances, redraws the cursor.
    fn put_char(&mut self, byte: u8)
        requires
            old(self).wf(),
            old(self)@.column < 80,
        ensures
            final(self).wf(),
            final(self)@ == put(old(self)@, byte),
    {
        let col = self.column_position;
        let color_code = self.color_code;
        self.buffer.write(BUFFER_HEIGHT - 1, col, ScreenChar { ascii_character: byte, color_code });
        self.column_position = col + 1;
        self.cursor();
    }

    /// Blanks every cell of `row`.
    fn clear_row(&mut self, row: usize)
        requires
            old(self).wf(),
            row < 25,
        ensures
            final(self).wf(),
            final(self)@ == (Console {
                grid: Seq::new(
                    2000,
                    |i: int|
                        if index(row as int, 0) <= i < index(row as int + 1, 0) {
                            blank_of(old(self)@.color)
                        } else {
                            old(self)@.grid[i]
                        },
                ),
                ..old(self)@
            }),
    {
        let blank = self.blank();
        let ghost g0 = self@.grid;
        let mut col: usize = 0;
        while col < BUFFER_WIDTH
            invariant
                self.wf(),
                col <= 80,
                row < 25,
                blank == blank_of(self@.color),
                self@.color == old(self)@.color,
                self@.column == old(self)@.column,
                g0 == old(self)@.grid,
                forall|i: int|
                    0 <= i < 2000 ==> #[trigger] self@.grid[i] == if index(row as int, 0) <= i
                        < index(row as int, col as int) {
                        blank
                    } else {
                        g0[i]
                    },
            decreases 80 - col,
        {
            let ghost before = self@.grid;
            self.buffer.write(row, col, blank);
            assert(self@.grid == before.update(index(row as int, col as int), blank));
            col = col + 1;
        }
        assert(self@.grid =~= Seq::new(
            2000,
            |i: int|
                if index(row as int, 0) <= i < index(row as int + 1, 0) {
                    blank_of(old(self)@.color)
                } else {
                    old(self)@.grid[i]
                },
        ));
    }

    /// Shifts every row up by one and clears the active row; see `scrolled`.
    fn scroll(&mut self)
        requires
            old(self).wf(),
        ensures
            final(self).wf(),
            final(self)@ == scrolled(old(self)@),
    {
        let ghost g0 = self@.grid;
        let mut row: usize = 1;
        while row < BUFFER_HEIGHT
            invariant
                self.wf(),
                1 <= row <= 25,
                self@.color == old(self)@.color,
                self@.column == old(self)@.column,
                g0 == old(self)@.grid,
                g0.len() == 2000,
                forall|i: int|
                    0 <= i < 2000 ==> #[trigger] self@.grid[i] == if i < index(row - 1, 0) {
                        g0[i + 80]
                    } else {
                        g0[i]
                    },
            decreases 25 - row,
        {
            let mut col: usize = 0;
            while col < BUFFER_WIDTH
                invariant
                    self.wf(),
                    1 <= row < 25,
                    col <= 80,
                    self@.color == old(self)@.color,
                    self@.column == old(self)@.column,
                    g0 == old(self)@.grid,
                    g0.len() == 2000,
                    forall|i: int|
                        0 <= i < 2000 ==> #[trigger] self@.grid[i] == if i < index(
                            row - 1,
                            col as int,
                        ) {
                            g0[i + 80]
                        } else {
                            g0[i]
                        },
                decreases 80 - col,
            {
                let character = self.buffer.read(row, col);
                let ghost before = self@.grid;
                self.buffer.write(row - 1, col, character);
                assert(self@.grid == before.update(index(row - 1, col as int), character));
                col = col + 1;
            }
            row = row + 1;
        }
        let col = self.column_position;
        if col < BUFFER_WIDTH {
            let blank = self.blank();
            let ghost before = self@.grid;
            self.buffer.write(BUFFER_HEIGHT - 2, col, blank);
            assert(self@.grid == before.update(index(23, col as int), blank));
        }
        self.clear_row(BUFFER_HEIGHT - 1);
        self.column_position = 0;
        assert(self@.grid =~= scrolled(old(self)@).grid);
    }

    /// Writes the prompt at the current column.
    fn greet(&mut self)
        requires
            old(self).wf(),
            old(self)@.column == 0,
        ensures
            final(self).wf(),
            final(self)@ == put_all(old(self)@, prompt()),
    {
        let bytes = prompt_bytes();
        let mut i: usize = 0;
        while i < bytes.len()
            invariant
                self.wf(),
                bytes@ == prompt(),
                i <= 3,
                self@.column == i,
                self@ == put_all(old(self)@, prompt().take(i as int)),
            decreases 3 - i,
        {
            self.put_char(bytes[i]);
            assert(prompt().take(i + 1).drop_last() =~= prompt().take(i as int));
            i = i + 1;
        }
        assert(prompt().take(3) =~= prompt());
    }

    /// A line break: scroll, then the prompt.
    fn new_line(&mut self)
        requires
            old(self).wf(),
        ensures
            final(self).wf(),
            final(self)@ == new_line(old(self)@),
    {
        self.scroll();
        self.greet();
    }

    /// A forward write: a full active row is scrolled first.
    fn print_char(&mut self, byte: u8)
        requires
            old(self).wf(),
        ensures
            final(self).wf(),
            final(self)@ == print(old(self)@, byte),
    {
        if self.column_position >= BUFFER_WIDTH {
            self.new_line();
            proof {
                lemma_put_all(scrolled(old(self)@), prompt());
            }
        }
        self.put_char(byte);
    }

    /// A backspace; see `delete`.
    fn delete_byte(&mut self)
        requires
            old(self).wf(),
        ensures
            final(self).wf(),
            final(self)@ == delete(old(self)@),
            final(self)@.column >= if old(self)@.column < prompt().len() {
                old(self)@.column
            } else {
                prompt().len()
            },
    {
        let blank = self.blank();
        if self.column_position > prompt_bytes().len() {
            self.column_position = self.column_position - 1;
        }
        let col = self.column_position;
        if col < BUFFER_WIDTH {
            self.buffer.write(BUFFER_HEIGHT - 1, col, blank);
        }
        if col + 1 < BUFFER_WIDTH {
            self.buffer.write(BUFFER_HEIGHT - 1, col + 1, blank);
        }
        self.cursor();
    }

    /// A tab: two spaces.
    fn tabulate(&mut self)
        requires
            old(self).wf(),
        ensures
            final(self).wf(),
            final(self)@ == print(print(old(self)@, 32), 32),
    {
        self.print_char(0x20);
        self.print_char(0x20);
    }

    /// Writes one byte: a tab, a backspace, a line break, or a character.
    pub fn write_byte(&mut self, byte: u8)
        requires
            old(self).wf(),
        ensures
            final(self).wf(),
            final(self)@ == step(old(self)@, byte),
    {
        if byte == TABULATION {
            self.tabulate();
        } else if byte == BACKSPACE {
            self.delete_byte();
        } else if byte == NEWLINE {
            self.new_line();
        } else {
            self.print_char(byte);
        }
    }

    /// Writes the bytes of `s` in order, each printable byte and each of the
    /// three control bytes as it is, every other byte as the placeholder.
    pub fn write_string(&mut self, s: &str)
        requires
            old(self).wf(),
        ensures
            final(self).wf(),
            final(self)@ == feed(old(self)@, s.spec_bytes()),
    {
        let bytes = s.as_bytes();
        let mut i: usize = 0;
        while i < bytes.len()
            invariant
                self.wf(),
                i <= bytes@.len(),
                bytes@ == s.spec_bytes(),
                self@ == feed(old(self)@, bytes@.take(i as int)),
            decreases bytes@.len() - i,
        {
            let byte = bytes[i];
            if (0x20 <= byte && byte <= 0x7e) || byte == NEWLINE || byte == BACKSPACE || byte
                == TABULATION {
                self.write_byte(byte);
            } else {
                self.write_byte(PLACEHOLDER);
            }
            assert(bytes@.take(i + 1).drop_last() =~= bytes@.take(i as int));
            i = i + 1;
        }
        assert(bytes@.take(bytes@.len() as int) =~= bytes@);
    }
}

/// Placing bytes that fit on the active row advances the column by their
/// number and changes only that row.
proof fn lemma_put_all(s: Console, bytes: Seq<u8>)
    requires
        s.wf(),
        s.column + bytes.len() <= 80,
    ensures
        put_all(s, bytes).wf(),
        put_all(s, bytes).column == s.column + bytes.len(),
        put_all(s, bytes).color == s.color,
        forall|i: int| 0 <= i < index(24, 0) ==> #[trigger] put_all(s, bytes).grid[i] == s.grid[i],
        forall|j: int|
            0 <= j < bytes.len() ==> #[trigger] put_all(s, bytes).cell(24, s.column + j) == (
            ScreenChar { ascii_character: bytes[j], color_code: s.color }),
    decreases bytes.len(),
{
    if bytes.len() > 0 {
        let front = bytes.drop_last();
        lemma_put_all(s, front);
        assert forall|j: int| 0 <= j < bytes.len() implies #[trigger] put_all(s, bytes).cell(
            24,
            s.column + j,
        ) == (ScreenChar { ascii_character: bytes[j], color_code: s.color }) by {
            if j < front.len() {
                assert(put_all(s, front).cell(24, s.column + j) == (ScreenChar {
                    ascii_character: front[j],
                    color_code: s.color,
                }));
            }
        }
    }
}

/// Printable bytes that fit on the active row are placed one after the
/// other, with no scroll.
proof fn lemma_feed_printable(s: Console, bytes: Seq<u8>)
    requires
        s.wf(),
        s.column + bytes.len() <= 80,
        forall|j: int| 0 <= j < bytes.len() ==> printable(#[trigger] bytes[j]),
    ensures
        feed(s, bytes) == put_all(s, bytes),
    decreases bytes.len(),
{
    if bytes.len() > 0 {
        let front = bytes.drop_last();
        lemma_feed_printable(s, front);
        lemma_put_all(s, front);
    }
}

/// A printable byte written at an on-grid column lands in the cell that
/// was current before the write, in the attribute active at that time.
pub proof fn lemma_printable_lands(s: Console, b: u8)
    requires
        s.wf(),
        s.column < 80,
        printable(b),
    ensures
        step(s, b).cell(24, s.column as int) == (ScreenChar {
            ascii_character: b,
            color_code: s.color,
        }),
        feed(s, seq![b]) == step(s, b),
{
    assert(seq![b].drop_last() =~= Seq::<u8>::empty());
    assert(feed(s, Seq::<u8>::empty()) == s);
}

/// Eighty printable bytes on an empty active row fill it without a scroll;
/// one more printable byte then causes exactly one scroll, which moves the
/// full row up intact, and lands right after the prompt.
pub proof fn lemma_fill_line(s: Console, bytes: Seq<u8>, b: u8)
    requires
        s.wf(),
        s.column == 0,
        bytes.len() == 80,
        forall|j: int| 0 <= j < 80 ==> printable(#[trigger] bytes[j]),
        printable(b),
    ensures
        feed(s, bytes).column == 80,
        forall|i: int| 0 <= i < index(24, 0) ==> #[trigger] feed(s, bytes).grid[i] == s.grid[i],
        forall|c: int|
            0 <= c < 80 ==> #[trigger] feed(s, bytes).cell(24, c) == (ScreenChar {
                ascii_character: bytes[c],
                color_code: s.color,
            }),
        step(feed(s, bytes), b) == put(new_line(feed(s, bytes)), b),
        forall|c: int|
            0 <= c < 80 ==> #[trigger] step(feed(s, bytes), b).cell(23, c) == feed(s, bytes).cell(
                24,
                c,
            ),
        step(feed(s, bytes), b).cell(24, prompt().len() as int) == (ScreenChar {
            ascii_character: b,
            color_code: s.color,
        }),
        step(feed(s, bytes), b).column == prompt().len() + 1,
{
    lemma_feed_printable(s, bytes);
    lemma_put_all(s, bytes);
    let t = feed(s, bytes);
    assert forall|c: int| 0 <= c < 80 implies #[trigger] t.cell(24, c) == (ScreenChar {
        ascii_character: bytes[c],
        color_code: s.color,
    }) by {
        assert(put_all(s, bytes).cell(24, s.column + c) == (ScreenChar {
            ascii_character: bytes[c],
            color_code: s.color,
        }));
    }
    lemma_put_all(scrolled(t), prompt());
    assert forall|c: int| 0 <= c < 80 implies #[trigger] step(t, b).cell(23, c) == t.cell(24, c) by {
        assert(index(23, c) < index(24, 0));
    }
}

/// However many backspaces are written, the column never drops below the
/// prompt's length (nor below where it started, if that was less).
pub proof fn lemma_backspace_floor(s: Console, n: nat)
    requires
        s.wf(),
    ensures
        feed(s, Seq::new(n, |i: int| BACKSPACE)).wf(),
        feed(s, Seq::new(n, |i: int| BACKSPACE)).column == if s.column <= prompt().len() {
            s.column as int
        } else if s.column - n >= prompt().len() {
            s.column - n
        } else {
            prompt().len() as int
        },
    decreases n,
{
    if n > 0 {
        let m = (n - 1) as nat;
        lemma_backspace_floor(s, m);
        assert(Seq::new(n, |i: int| BACKSPACE).drop_last() =~= Seq::new(m, |i: int| BACKSPACE));
    }
}

/// A line break moves each of rows 1 to 23 up by one row, cell for cell;
/// what row 0 held is gone.
pub proof fn lemma_scroll_shifts_rows(s: Console)
    requires
        s.wf(),
    ensures
        step(s, NEWLINE) == new_line(s),
        forall|r: int, c: int|
            1 <= r <= 23 && 0 <= c < 80 ==> #[trigger] new_line(s).cell(r - 1, c) == s.cell(r, c),
{
    lemma_put_all(scrolled(s), prompt());
    assert forall|r: int, c: int| 1 <= r <= 23 && 0 <= c < 80 implies #[trigger] new_line(s).cell(
        r - 1,
        c,
    ) == s.cell(r, c) by {
        assert(index(r - 1, c) < index(23, 0));
        assert(index(r - 1, c) + 80 == index(r, c));
    }
}

/// A byte that is neither printable nor one of the three control bytes is
/// written as the placeholder glyph, which differs from the byte unless the
/// byte is the placeholder itself.
pub proof fn lemma_placeholder(s: Console, b: u8)
    requires
        s.wf(),
        !printable(b),
        b != NEWLINE,
        b != BACKSPACE,
        b != TABULATION,
    ensures
        sanitize(b) == PLACEHOLDER,
        feed(s, seq![b]) == print(s, PLACEHOLDER),
        s.column < 80 ==> feed(s, seq![b]).cell(24, s.column as int) == (ScreenChar {
            ascii_character: PLACEHOLDER,
            color_code: s.color,
        }),
        s.column == 80 ==> feed(s, seq![b]).cell(24, prompt().len() as int) == (ScreenChar {
            ascii_character: PLACEHOLDER,
            color_code: s.color,
        }),
        b != PLACEHOLDER ==> sanitize(b) != b,
{
    assert(seq![b].drop_last() =~= Seq::<u8>::empty());
    assert(feed(s, Seq::<u8>::empty()) == s);
    lemma_put_all(scrolled(s), prompt());
}

} // verus!
