//! The framebuffer text console: a ring of text lines, a scroll position,
//! and the rendering of the visible lines into a back buffer.
use vstd::prelude::*;

verus! {

/// Each glyph pixel is drawn as a `SCALE` x `SCALE` block.
pub const SCALE: usize = 2;
pub const FONT_WIDTH: usize = 8 * SCALE;
pub const FONT_HEIGHT: usize = 8 * SCALE;

/// Lines of history kept.
pub const MAX_LINES: usize = 1000;

/// Characters per line.
pub const MAX_COLS: usize = 128;

/// Pixels in the back buffer (a 2560 x 1600 screen).
pub const BACKBUFFER_SIZE: usize = 2560 * 1600;

/// Background colour (ARGB).
pub const BG_COLOR: u32 = 0xFF0064FF;

/// Text colour (ARGB).
pub const FG_COLOR: u32 = 0xFFFFFFFF;

/// Lines scrolled by one key press.
pub const SCROLL_STEP: usize = 5;

/// The abstract state of the console: the character cells of the line ring
/// (row `r` at `r * MAX_COLS`), the length of each row, the number of
/// lines written so far, how many lines the view is scrolled back, and the
/// screen geometry.
pub struct ConsoleModel {
    pub cells: Seq<u8>,
    pub lens: Seq<usize>,
    pub total: int,
    pub view: int,
    pub width: int,
    pub height: int,
    pub pitch: int,
}

/// The ring row that holds line `k`.
pub open spec fn slot(k: int) -> int {
    k % (MAX_LINES as int)
}

impl ConsoleModel {
    pub open spec fn wf(self) -> bool {
        &&& self.cells.len() == MAX_LINES * MAX_COLS
        &&& self.lens.len() == MAX_LINES
        &&& forall|r: int| 0 <= r < MAX_LINES ==> #[trigger] self.lens[r] <= MAX_COLS
        &&& self.total >= 1
        &&& self.view >= 0
    }

    /// The text of line `k` while it is still in the ring.
    pub open spec fn line(self, k: int) -> Seq<u8> {
        let r = slot(k);
        self.cells.subrange(r * MAX_COLS, r * MAX_COLS + self.lens[r])
    }

    /// The state after a line break: a new, empty last line.
    pub open spec fn newline(self) -> ConsoleModel {
        ConsoleModel {
            total: self.total + 1,
            lens: self.lens.update(slot(self.total), 0),
            ..self
        }
    }

    /// The state after writing one byte: a line break for `\n`; otherwise
    /// the byte goes at the end of the last line while that line has room
    /// in the ring row and on the screen, else it starts a new line.
    pub open spec fn write_byte(self, byte: u8) -> ConsoleModel {
        let cur = slot(self.total - 1);
        let col = self.lens[cur];
        if byte == 10 {
            self.newline()
        } else if col < MAX_COLS && (col + 1) * FONT_WIDTH <= self.width {
            ConsoleModel {
                cells: self.cells.update(cur * MAX_COLS + col, byte),
                lens: self.lens.update(cur, (col + 1) as usize),
                ..self
            }
        } else {
            let n = self.newline();
            ConsoleModel {
                cells: n.cells.update(slot(n.total - 1) * MAX_COLS, byte),
                lens: n.lens.update(slot(n.total - 1), 1),
                ..n
            }
        }
    }
}

/// The byte a text byte is shown as: printable ASCII and line breaks as
/// they are, anything else as `?`.
pub open spec fn shown_byte(b: u8) -> u8 {
    if (0x20 <= b && b <= 0x7e) || b == 10 { b } else { 0x3f }
}

/// The state after writing the bytes of a text in order.
pub open spec fn write_text_spec(m: ConsoleModel, text: Seq<u8>) -> ConsoleModel
    decreases text.len(),
{
    if text.len() == 0 {
        m
    } else {
        write_text_spec(m, text.drop_last()).write_byte(shown_byte(text.last()))
    }
}

/// What writing one byte does to the last line when it has room: printable
/// ASCII (0x20 to 0x7e, the space included) is appended as itself, a line
/// break starts a new, empty line, and any other byte is appended as `?`.
/// Earlier lines are left as they were.
pub proof fn lemma_write_byte_shows(m: ConsoleModel, b: u8)
    requires
        m.wf(),
        m.lens[slot(m.total - 1)] < MAX_COLS,
        (m.lens[slot(m.total - 1)] + 1) * FONT_WIDTH <= m.width,
    ensures
        ({
            let m2 = write_text_spec(m, seq![b]);
            &&& 0x20 <= b <= 0x7e ==> m2.total == m.total && m2.line(m.total - 1) == m.line(m.total - 1).push(b)
            &&& b == 10 ==> m2.total == m.total + 1 && m2.line(m.total) == Seq::<u8>::empty()
            &&& (b < 0x20 && b != 10 || b > 0x7e) ==> m2.total == m.total
                && m2.line(m.total - 1) == m.line(m.total - 1).push(0x3fu8)
            &&& forall|k: int| m.total - MAX_LINES < k < m.total - 1 ==> #[trigger] m2.line(k) == m.line(k)
        }),
{
    let m2 = write_text_spec(m, seq![b]);
    assert(seq![b].drop_last() =~= Seq::<u8>::empty());
    assert(seq![b].last() == b);
    assert(write_text_spec(m, Seq::<u8>::empty()) == m);
    assert(m2 == m.write_byte(shown_byte(b)));
    let cur = slot(m.total - 1);
    let col = m.lens[cur];
    if shown_byte(b) != 10 {
        assert(m2.line(m.total - 1) =~= m.line(m.total - 1).push(shown_byte(b)));
    } else {
        assert(m2.line(m.total) =~= Seq::<u8>::empty());
    }
    assert forall|k: int| m.total - MAX_LINES < k < m.total - 1 implies #[trigger] m2.line(k) == m.line(k) by {
        assert(slot(k) != cur);
        if shown_byte(b) != 10 {
            assert(m2.line(k) =~= m.line(k));
        } else {
            assert(slot(k) != slot(m.total));
            assert(m2.line(k) =~= m.line(k));
        }
    }
}

/// The number of text lines that fit on the screen.
pub open spec fn visible_lines_of(height: int) -> int {
    height / FONT_HEIGHT as int
}

/// The largest scroll-back: all lines but one screenful.
pub open spec fn max_scroll(m: ConsoleModel) -> int {
    if m.total - visible_lines_of(m.height) < 0 { 0 } else { m.total - visible_lines_of(m.height) }
}

/// The 8 rows of the 8x8 glyph for a character code below 128 in the
/// `font8x8` basic legacy font; bit `x` of row `y` is the pixel at column
/// `x`.
pub uninterp spec fn basic_legacy_glyph(index: usize) -> Seq<u8>;

/// Reads `font8x8::legacy::BASIC_LEGACY[index]`, the glyph for character
/// code `index`; nothing is claimed of its bits beyond their name.
#[verifier::external_body]
fn legacy_glyph(index: usize) -> (r: [u8; 8])
    requires
        index < 128,
    ensures
        r@ == basic_legacy_glyph(index),
{
    font8x8::legacy::BASIC_LEGACY[index]
}

/// The glyph a byte is drawn with: its own below 128, else `?`.
pub open spec fn glyph_index(byte: u8) -> usize {
    if byte < 128 { byte as usize } else { 0x3f }
}

/// Pixel (`gx`, `gy`) of a glyph is set.
pub open spec fn glyph_bit(glyph: Seq<u8>, gy: int, gx: int) -> bool {
    (glyph[gy] >> (gx as u8)) & 1u8 == 1u8
}

/// The screen geometry a picture is drawn for: width and height in pixels
/// and the back buffer's row length in pixels.
pub struct Geometry {
    pub width: int,
    pub height: int,
    pub row: int,
}

/// Back-buffer index `o` is the on-screen pixel (`dx`, `dy`).
pub open spec fn point_at(g: Geometry, dx: int, dy: int, o: int) -> bool {
    dx < g.width && dy < g.height && dy * g.row + dx < BACKBUFFER_SIZE && o == dy * g.row + dx
}

/// Back-buffer index `o` is one of the `SCALE` x `SCALE` screen pixels of
/// glyph pixel (`gx`, `gy`) for a glyph drawn at (`px`, `py`).
pub open spec fn block_at(g: Geometry, px: int, py: int, gx: int, gy: int, o: int) -> bool {
    ||| point_at(g, px + gx * 2, py + gy * 2, o)
    ||| point_at(g, px + gx * 2 + 1, py + gy * 2, o)
    ||| point_at(g, px + gx * 2, py + gy * 2 + 1, o)
    ||| point_at(g, px + gx * 2 + 1, py + gy * 2 + 1, o)
}

/// Some set pixel among the first `n` of glyph row `gy` covers `o`.
pub open spec fn row_hits(glyph: Seq<u8>, g: Geometry, px: int, py: int, gy: int, n: int, o: int) -> bool
    decreases n,
{
    n > 0 && (row_hits(glyph, g, px, py, gy, n - 1, o) || (glyph_bit(glyph, gy, n - 1) && block_at(g, px, py, n - 1, gy, o)))
}

/// Some set pixel among the first `m` rows of the glyph covers `o`.
pub open spec fn glyph_hits(glyph: Seq<u8>, g: Geometry, px: int, py: int, m: int, o: int) -> bool
    decreases m,
{
    m > 0 && (glyph_hits(glyph, g, px, py, m - 1, o) || row_hits(glyph, g, px, py, m - 1, 8, o))
}

/// The drawing geometry of a console.
pub open spec fn geometry_of(m: ConsoleModel) -> Geometry {
    Geometry { width: m.width, height: m.height, row: m.pitch / 4 }
}

/// The newest line in view.
pub open spec fn bottom_line_of(m: ConsoleModel) -> int {
    if m.total - 1 < m.view { 0 } else { m.total - 1 - m.view }
}

/// The oldest line in view: a screenful above the bottom line, or line 0.
pub open spec fn start_line_of(m: ConsoleModel) -> int {
    let v = if visible_lines_of(m.height) < 1 { 0 } else { visible_lines_of(m.height) - 1 };
    if bottom_line_of(m) < v { 0 } else { bottom_line_of(m) - v }
}

/// Some character among the first `n` of line `ay`, drawn on screen row
/// `ay - start`, covers `o`.
pub open spec fn line_hits(m: ConsoleModel, start: int, ay: int, n: int, o: int) -> bool
    decreases n,
{
    n > 0 && (line_hits(m, start, ay, n - 1, o) || glyph_hits(
        basic_legacy_glyph(glyph_index(m.cells[slot(ay) * MAX_COLS + n - 1])),
        geometry_of(m),
        (n - 1) * FONT_WIDTH,
        (ay - start) * FONT_HEIGHT,
        8,
        o,
    ))
}

/// Some character of the `k` lines from `start` on covers `o`.
pub open spec fn screen_hits(m: ConsoleModel, start: int, k: int, o: int) -> bool
    decreases k,
{
    k > 0 && (screen_hits(m, start, k - 1, o) || line_hits(m, start, start + k - 1, m.lens[slot(start + k - 1)] as int, o))
}

/// The colour of back-buffer pixel `o` when the console shows the lines
/// from `start_line` to `bottom_line` in the text colour on the background.
pub open spec fn rendered_pixel(m: ConsoleModel, o: int) -> u32 {
    if screen_hits(m, start_line_of(m), bottom_line_of(m) - start_line_of(m) + 1, o) { FG_COLOR } else { BG_COLOR }
}

/// The console.
pub struct Writer {
    width: usize,
    height: usize,
    pitch: usize,
    text_buffer: Vec<u8>,
    line_len: Vec<usize>,
    total_lines: usize,
    view_offset: usize,
}

impl View for Writer {
    type V = ConsoleModel;

    closed spec fn view(&self) -> ConsoleModel {
        ConsoleModel {
            cells: self.text_buffer@,
            lens: self.line_len@,
            total: self.total_lines as int,
            view: self.view_offset as int,
            width: self.width as int,
            height: self.height as int,
            pitch: self.pitch as int,
        }
    }
}

impl Writer {
    /// The drawing geometry of the console.
    pub open spec fn geometry(&self) -> Geometry {
        Geometry { width: self@.width, height: self@.height, row: self@.pitch / 4 }
    }

    /// Every pixel on the screen has a back-buffer index that fits a
    /// `usize`.
    pub open spec fn geometry_fits(&self) -> bool {
        self@.height * (self@.pitch / 4) + self@.width <= usize::MAX
    }

    fn plot(&self, dx: usize, dy: usize, backbuffer: &mut Vec<u32>)
        requires
            self.geometry_fits(),
            old(backbuffer)@.len() == BACKBUFFER_SIZE,
        ensures
            final(backbuffer)@.len() == BACKBUFFER_SIZE,
            forall|o: int| 0 <= o < BACKBUFFER_SIZE ==> #[trigger] final(backbuffer)@[o]
                == if point_at(self.geometry(), dx as int, dy as int, o) { FG_COLOR } else { old(backbuffer)@[o] },
    {
        let pitch_u32 = self.pitch / 4;
        if dx < self.width && dy < self.height {
            proof {
                vstd::arithmetic::mul::lemma_mul_inequality(dy as int, self.height as int - 1, pitch_u32 as int);
                vstd::arithmetic::mul::lemma_mul_is_distributive_sub_other_way(pitch_u32 as int, self.height as int, 1);
            }
            let offset = dy * pitch_u32 + dx;
            if offset < BACKBUFFER_SIZE {
                backbuffer.set(offset, FG_COLOR);
            }
        }
    }

    /// Draws the set pixels of an 8x8 glyph, each as a 2x2 block, with its
    /// top-left corner at (`px`, `py`); pixels off the screen are skipped.
    pub fn draw_glyph(&self, glyph: &[u8; 8], px: usize, py: usize, backbuffer: &mut Vec<u32>)
        requires
            self.geometry_fits(),
            old(backbuffer)@.len() == BACKBUFFER_SIZE,
            px + FONT_WIDTH <= usize::MAX,
            py + FONT_HEIGHT <= usize::MAX,
        ensures
            final(backbuffer)@.len() == BACKBUFFER_SIZE,
            forall|o: int| 0 <= o < BACKBUFFER_SIZE ==> #[trigger] final(backbuffer)@[o]
                == if glyph_hits(glyph@, self.geometry(), px as int, py as int, 8, o) { FG_COLOR } else { old(backbuffer)@[o] },
    {
        let ghost g = self.geometry();
        let ghost bb0 = backbuffer@;
        let mut y: usize = 0;
        while y < 8
            invariant
                y <= 8,
                self.geometry_fits(),
                g == self.geometry(),
                px + FONT_WIDTH <= usize::MAX,
                py + FONT_HEIGHT <= usize::MAX,
                backbuffer@.len() == BACKBUFFER_SIZE,
                bb0.len() == BACKBUFFER_SIZE,
                forall|o: int| 0 <= o < BACKBUFFER_SIZE ==> #[trigger] backbuffer@[o]
                    == if glyph_hits(glyph@, g, px as int, py as int, y as int, o) { FG_COLOR } else { bb0[o] },
            decreases 8 - y,
        {
            let row = glyph[y];
            let mut x: usize = 0;
            while x < 8
                invariant
                    y < 8,
                    x <= 8,
                    row == glyph@[y as int],
                    self.geometry_fits(),
                    g == self.geometry(),
                    px + FONT_WIDTH <= usize::MAX,
                    py + FONT_HEIGHT <= usize::MAX,
                    backbuffer@.len() == BACKBUFFER_SIZE,
                    bb0.len() == BACKBUFFER_SIZE,
                    forall|o: int| 0 <= o < BACKBUFFER_SIZE ==> #[trigger] backbuffer@[o]
                        == if glyph_hits(glyph@, g, px as int, py as int, y as int, o)
                            || row_hits(glyph@, g, px as int, py as int, y as int, x as int, o) { FG_COLOR } else { bb0[o] },
                decreases 8 - x,
            {
                let set = (row & (1 << x)) != 0;
                proof {
                    let xx = x as u8;
                    assert(((row & (1u8 << xx)) != 0) == ((row >> xx) & 1u8 == 1u8)) by (bit_vector)
                        requires xx < 8;
                    assert(set == glyph_bit(glyph@, y as int, x as int));
                }
                if set {
                    let bx = px + x * SCALE;
                    let by = py + y * SCALE;
                    self.plot(bx, by, backbuffer);
                    self.plot(bx + 1, by, backbuffer);
                    self.plot(bx, by + 1, backbuffer);
                    self.plot(bx + 1, by + 1, backbuffer);
                }
                x = x + 1;
            }
            y = y + 1;
        }
    }

    /// Draws the character `byte` with its glyph from the basic legacy font
    /// (`?` for bytes from 128 on) at (`px`, `py`).
    pub fn draw_char_to_backbuffer(&self, byte: u8, px: usize, py: usize, backbuffer: &mut Vec<u32>)
        requires
            self.geometry_fits(),
            old(backbuffer)@.len() == BACKBUFFER_SIZE,
            px + FONT_WIDTH <= usize::MAX,
            py + FONT_HEIGHT <= usize::MAX,
        ensures
            final(backbuffer)@.len() == BACKBUFFER_SIZE,
            forall|o: int| 0 <= o < BACKBUFFER_SIZE ==> #[trigger] final(backbuffer)@[o]
                == if glyph_hits(basic_legacy_glyph(glyph_index(byte)), self.geometry(), px as int, py as int, 8, o) { FG_COLOR } else { old(backbuffer)@[o] },
    {
        let glyph_idx = if byte < 128 { byte as usize } else { 0x3f };
        let glyph = legacy_glyph(glyph_idx);
        self.draw_glyph(&glyph, px, py, backbuffer);
    }

    /// Draws the lines in view into the back buffer: the background
    /// everywhere, then each character of each visible line in its cell.
    pub fn redraw(&self, backbuffer: &mut Vec<u32>)
        requires
            self@.wf(),
            self.geometry_fits(),
            old(backbuffer)@.len() == BACKBUFFER_SIZE,
        ensures
            final(backbuffer)@.len() == BACKBUFFER_SIZE,
            forall|o: int| 0 <= o < BACKBUFFER_SIZE ==> #[trigger] final(backbuffer)@[o] == rendered_pixel(self@, o),
    {
        let ghost m = self@;
        let mut i: usize = 0;
        while i < BACKBUFFER_SIZE
            invariant
                i <= BACKBUFFER_SIZE,
                backbuffer@.len() == BACKBUFFER_SIZE,
                forall|o: int| 0 <= o < i ==> #[trigger] backbuffer@[o] == BG_COLOR,
            decreases BACKBUFFER_SIZE - i,
        {
            backbuffer.set(i, BG_COLOR);
            i = i + 1;
        }

        let visible_lines = self.height / FONT_HEIGHT;
        let bottom_line = self.total_lines.saturating_sub(1).saturating_sub(self.view_offset);
        let start_line = bottom_line.saturating_sub(visible_lines.saturating_sub(1));
        assert(bottom_line == bottom_line_of(m));
        assert(start_line == start_line_of(m));
        let mut absolute_y = start_line;
        while absolute_y <= bottom_line
            invariant
                m == self@,
                m.wf(),
                self.geometry_fits(),
                start_line == start_line_of(m),
                bottom_line == bottom_line_of(m),
                bottom_line < usize::MAX,
                visible_lines == visible_lines_of(m.height),
                start_line <= absolute_y <= bottom_line + 1,
                backbuffer@.len() == BACKBUFFER_SIZE,
                forall|o: int| 0 <= o < BACKBUFFER_SIZE ==> #[trigger] backbuffer@[o]
                    == if screen_hits(m, start_line as int, absolute_y - start_line, o) { FG_COLOR } else { BG_COLOR },
            decreases bottom_line + 1 - absolute_y,
        {
            let screen_y = absolute_y - start_line;
            let buf_idx = absolute_y % MAX_LINES;
            let len = self.line_len[buf_idx];
            proof {
                vstd::arithmetic::div_mod::lemma_fundamental_div_mod(m.height, FONT_HEIGHT as int);
                assert(screen_y * FONT_HEIGHT + FONT_HEIGHT <= m.height || screen_y == 0);
            }
            let mut x: usize = 0;
            while x < len
                invariant
                    m == self@,
                    m.wf(),
                    self.geometry_fits(),
                    start_line == start_line_of(m),
                    start_line <= absolute_y <= bottom_line,
                    screen_y == absolute_y - start_line,
                    screen_y * FONT_HEIGHT + FONT_HEIGHT <= usize::MAX,
                    buf_idx == slot(absolute_y as int),
                    len == m.lens[buf_idx as int],
                    len <= MAX_COLS,
                    x <= len,
                    backbuffer@.len() == BACKBUFFER_SIZE,
                    forall|o: int| 0 <= o < BACKBUFFER_SIZE ==> #[trigger] backbuffer@[o]
                        == if screen_hits(m, start_line as int, absolute_y - start_line, o)
                            || line_hits(m, start_line as int, absolute_y as int, x as int, o) { FG_COLOR } else { BG_COLOR },
                decreases len - x,
            {
                let byte = self.text_buffer[buf_idx * MAX_COLS + x];
                self.draw_char_to_backbuffer(byte, x * FONT_WIDTH, screen_y * FONT_HEIGHT, backbuffer);
                x = x + 1;
            }
            absolute_y = absolute_y + 1;
        }
    }

    /// A console with one empty line on a screen of the given size; `pitch`
    /// is the length of a framebuffer row in bytes.
    pub fn new(width: usize, height: usize, pitch: usize) -> (r: Self)
        ensures
            r@.wf(),
            r@.cells == Seq::new((MAX_LINES * MAX_COLS) as nat, |i: int| 0u8),
            r@.lens == Seq::new(MAX_LINES as nat, |i: int| 0usize),
            r@.total == 1,
            r@.view == 0,
            r@.width == width,
            r@.height == height,
            r@.pitch == pitch,
    {
        let text_buffer = vec![0u8; MAX_LINES * MAX_COLS];
        let line_len = vec![0usize; MAX_LINES];
        let r = Writer { width, height, pitch, text_buffer, line_len, total_lines: 1, view_offset: 0 };
        assert(r@.cells =~= Seq::new((MAX_LINES * MAX_COLS) as nat, |i: int| 0u8));
        assert(r@.lens =~= Seq::new(MAX_LINES as nat, |i: int| 0usize));
        r
    }

    fn newline(&mut self)
        requires
            old(self)@.wf(),
            old(self)@.total < usize::MAX,
        ensures
            final(self)@ == old(self)@.newline(),
            final(self)@.wf(),
    {
        self.total_lines = self.total_lines + 1;
        let buf_idx = (self.total_lines - 1) % MAX_LINES;
        self.line_len.set(buf_idx, 0);
    }

    /// Writes one byte (see [`ConsoleModel::write_byte`]).
    pub fn write_byte(&mut self, byte: u8)
        requires
            old(self)@.wf(),
            old(self)@.total < usize::MAX,
        ensures
            final(self)@ == old(self)@.write_byte(byte),
            final(self)@.wf(),
    {
        if byte == 10 {
            self.newline();
        } else {
            let buf_idx = (self.total_lines - 1) % MAX_LINES;
            let col = self.line_len[buf_idx];
            if col < MAX_COLS && (col + 1) * FONT_WIDTH <= self.width {
                self.text_buffer.set(buf_idx * MAX_COLS + col, byte);
                self.line_len.set(buf_idx, col + 1);
            } else {
                self.newline();
                let new_idx = (self.total_lines - 1) % MAX_LINES;
                self.text_buffer.set(new_idx * MAX_COLS, byte);
                self.line_len.set(new_idx, 1);
            }
        }
    }

    /// Writes a text: printable ASCII and line breaks as they are, any
    /// other byte as `?`.
    pub fn write_str(&mut self, s: &[u8])
        requires
            old(self)@.wf(),
            old(self)@.total + s@.len() < usize::MAX,
        ensures
            final(self)@ == write_text_spec(old(self)@, s@),
            final(self)@.wf(),
    {
        let mut i: usize = 0;
        while i < s.len()
            invariant
                i <= s@.len(),
                self@.wf(),
                self@ == write_text_spec(old(self)@, s@.subrange(0, i as int)),
                self@.total <= old(self)@.total + i,
                old(self)@.total + s@.len() < usize::MAX,
            decreases s@.len() - i,
        {
            let byte = s[i];
            let shown = if (0x20 <= byte && byte <= 0x7e) || byte == 10 { byte } else { 0x3f };
            self.write_byte(shown);
            assert(s@.subrange(0, i as int + 1).drop_last() =~= s@.subrange(0, i as int));
            i = i + 1;
        }
        assert(s@.subrange(0, s@.len() as int) =~= s@);
    }

    /// Whether every on-screen pixel has a back-buffer index that fits a
    /// `usize` (see [`Writer::geometry_fits`]).
    pub fn fits_screen(&self) -> (r: bool)
        ensures
            r == self.geometry_fits(),
    {
        let row = self.pitch / 4;
        assert(self@.pitch / 4 == row as int);
        if row == 0 {
            assert(self@.height * 0 == 0);
            return true;
        }
        let q = (usize::MAX - self.width) / row;
        if self.height > q {
            proof {
                let m = (usize::MAX - self.width) as int;
                let h = self.height as int;
                let d = row as int;
                vstd::arithmetic::div_mod::lemma_fundamental_div_mod(m, d);
                assert(h * d > m) by (nonlinear_arith)
                    requires d > 0, h > m / d, m == d * (m / d) + m % d, 0 <= m % d < d;
            }
            false
        } else {
            proof {
                let m = (usize::MAX - self.width) as int;
                let h = self.height as int;
                let d = row as int;
                vstd::arithmetic::div_mod::lemma_fundamental_div_mod(m, d);
                assert(h * d <= m) by (nonlinear_arith)
                    requires d > 0, 0 <= h <= m / d, m == d * (m / d) + m % d, 0 <= m % d < d;
            }
            true
        }
    }

    /// The number of lines written so far (at least one).
    pub fn total_lines(&self) -> (r: usize)
        ensures
            r == self@.total,
    {
        self.total_lines
    }

    /// How many lines the view is scrolled back.
    pub fn view_offset(&self) -> (r: usize)
        ensures
            r == self@.view,
    {
        self.view_offset
    }

    /// The text of line `k` as long as it is among the last `MAX_LINES`.
    pub fn line_text(&self, k: usize) -> (r: Vec<u8>)
        requires
            self@.wf(),
        ensures
            r@ == self@.line(k as int),
    {
        let row = k % MAX_LINES;
        let len = self.line_len[row];
        let mut out: Vec<u8> = Vec::new();
        let mut i: usize = 0;
        while i < len
            invariant
                self@.wf(),
                row == slot(k as int),
                len == self@.lens[row as int],
                i <= len,
                out@ == self@.cells.subrange(row * MAX_COLS, row * MAX_COLS + i),
            decreases len - i,
        {
            out.push(self.text_buffer[row * MAX_COLS + i]);
            i = i + 1;
            assert(out@ =~= self@.cells.subrange(row * MAX_COLS, row * MAX_COLS + i));
        }
        out
    }

    /// Moves the view back to the newest line, as printing does.
    pub fn reset_view(&mut self)
        ensures
            final(self)@ == (ConsoleModel { view: 0, ..old(self)@ }),
    {
        self.view_offset = 0;
    }

    /// Scrolls back by five lines, but not past the oldest screenful;
    /// returns whether the view moved (and the screen must be redrawn).
    pub fn scroll_up(&mut self) -> (moved: bool)
        requires
            old(self)@.wf(),
            old(self)@.view + SCROLL_STEP <= usize::MAX,
        ensures
            moved == (old(self)@.view < max_scroll(old(self)@)),
            moved ==> final(self)@ == (ConsoleModel {
                view: if old(self)@.view + SCROLL_STEP > max_scroll(old(self)@) { max_scroll(old(self)@) } else { old(self)@.view + SCROLL_STEP },
                ..old(self)@
            }),
            !moved ==> final(self)@ == old(self)@,
            final(self)@.wf(),
    {
        let visible_lines = self.height / FONT_HEIGHT;
        let max_scroll = self.total_lines.saturating_sub(visible_lines);
        if self.view_offset < max_scroll {
            self.view_offset = self.view_offset + SCROLL_STEP;
            if self.view_offset > max_scroll {
                self.view_offset = max_scroll;
            }
            true
        } else {
            false
        }
    }

    /// Scrolls forward by five lines, stopping at the newest line.
    pub fn scroll_down(&mut self)
        requires
            old(self)@.wf(),
        ensures
            final(self)@ == (ConsoleModel {
                view: if old(self)@.view < SCROLL_STEP { 0 } else { old(self)@.view - SCROLL_STEP },
                ..old(self)@
            }),
            final(self)@.wf(),
    {
        self.view_offset = self.view_offset.saturating_sub(SCROLL_STEP);
    }
}

/// What is written can be read back: after a byte other than a line break
/// the newest line ends with it.
pub proof fn lemma_write_byte_readback(m: ConsoleModel, b: u8)
    requires
        m.wf(),
        b != 10,
    ensures
        m.write_byte(b).line(m.write_byte(b).total - 1).len() > 0,
        m.write_byte(b).line(m.write_byte(b).total - 1).last() == b,
        m.write_byte(b).wf(),
{
    let cur = slot(m.total - 1);
    let col = m.lens[cur];
    assert(0 <= cur < MAX_LINES);
    if col < MAX_COLS && (col + 1) * FONT_WIDTH <= m.width {
        assert(cur * MAX_COLS + col < MAX_LINES * MAX_COLS) by (nonlinear_arith)
            requires 0 <= cur < MAX_LINES, 0 <= col < MAX_COLS;
    } else {
        let n = m.newline();
        let r = slot(n.total - 1);
        assert(0 <= r < MAX_LINES);
        assert(r * MAX_COLS < MAX_LINES * MAX_COLS) by (nonlinear_arith)
            requires 0 <= r < MAX_LINES;
    }
}

/// Scrolling never takes the view past the oldest screenful or below the
/// newest line: from a view within `[0, max_scroll]`, scrolling up or down
/// stays within it.
pub proof fn lemma_scroll_stays_in_range(m: ConsoleModel)
    requires
        m.wf(),
        m.view <= max_scroll(m),
    ensures
        ({
            let up = if m.view < max_scroll(m) {
                if m.view + SCROLL_STEP > max_scroll(m) { max_scroll(m) } else { m.view + SCROLL_STEP }
            } else {
                m.view
            };
            0 <= up <= max_scroll(m)
        }),
        ({
            let down = if m.view < SCROLL_STEP { 0 } else { m.view - SCROLL_STEP };
            0 <= down <= max_scroll(m)
        }),
{
}

} // verus!
