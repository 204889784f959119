//! The framebuffer: a logical 64x32 monochrome pixel grid, presented to a
//! display driver through a physical buffer scaled 10x in each direction.
//!
//! The grid is stored once, as logical boolean pixels; the scaled physical
//! buffer is a view computed from it, so every 10x10 block of physical
//! pixels is equal to its logical cell by construction. Sprite drawing
//! XOR-blits and reports a collision whenever a set pixel flips to unset.
//!
//! Coordinates wrap modulo the logical dimensions: drawing past an edge
//! continues on the opposite side rather than indexing out of range.
use vstd::arithmetic::div_mod::{
    lemma_add_mod_noop, lemma_fundamental_div_mod_converse, lemma_mod_bound,
    lemma_mod_sub_multiples_vanish, lemma_mod_twice, lemma_small_mod,
};
use vstd::prelude::*;

verus! {

/// The physical pixel value of a set (white) pixel.
pub const ON: u32 = 0xFF_FF_FF;

/// The physical pixel value of an unset (black) pixel.
pub const OFF: u32 = 0;

/// The physical buffer is this many times larger than the logical grid in
/// each direction.
pub const SCALE: usize = 10;

/// A framebuffer that pretends to be 10x smaller than it is: a 64x32
/// logical screen shown at 640x320. Flipping the logical pixel at (0, 0)
/// flips all 100 physical pixels from (0, 0) to (9, 9).
#[derive(Debug, Clone)]
pub struct ScaledFramebuffer {
    /// The logical pixels, row-major: index `y * width + x`.
    pub pixels: Vec<bool>,
    /// The logical width.
    pub width: usize,
    /// The logical height.
    pub height: usize,
    /// The physical width, `SCALE * width`.
    pub true_width: usize,
    /// The physical height, `SCALE * height`.
    pub true_height: usize,
}

impl View for ScaledFramebuffer {
    type V = Seq<bool>;

    open spec fn view(&self) -> Seq<bool> {
        self.pixels@
    }
}

/// The flat index of the logical cell that the (possibly out-of-range)
/// coordinates (x, y) wrap to on a w-by-h grid.
pub open spec fn cell_index(w: int, h: int, x: int, y: int) -> int {
    (y % h) * w + x % w
}

/// One XOR step on one cell: a true bit flips the cell, a false bit leaves
/// the screen untouched.
pub open spec fn spec_xor(s: Seq<bool>, idx: int, bit: bool) -> Seq<bool> {
    if bit {
        s.update(idx, !s[idx])
    } else {
        s
    }
}

/// Whether the sprite row `byte` has its bit for column offset `dx` set;
/// the most significant bit is the leftmost column.
pub open spec fn sprite_bit(byte: u8, dx: int) -> bool {
    (byte >> ((7 - dx) as u8)) & 1 == 1
}

/// The screen and collision flag after XOR-drawing the first `nbits` bits
/// of sprite row `byte` at (x + 0, y) through (x + nbits - 1, y): each set
/// bit flips its cell, and the flag records whether any flip was from set
/// to unset.
pub open spec fn draw_row_spec(
    s: Seq<bool>,
    w: int,
    h: int,
    x: int,
    y: int,
    byte: u8,
    nbits: int,
) -> (Seq<bool>, bool)
    decreases nbits,
{
    if nbits <= 0 {
        (s, false)
    } else {
        let prev = draw_row_spec(s, w, h, x, y, byte, nbits - 1);
        let dx = nbits - 1;
        let idx = cell_index(w, h, x + dx, y);
        let bit = sprite_bit(byte, dx);
        (spec_xor(prev.0, idx, bit), prev.1 || (bit && prev.0[idx]))
    }
}

/// The screen and collision flag after XOR-drawing the first `nrows` rows
/// of the sprite at (x, y): row `dy` is drawn at (x, y + dy), and the flag
/// is the OR of every row's flag.
pub open spec fn draw_sprite_spec(
    s: Seq<bool>,
    w: int,
    h: int,
    x: int,
    y: int,
    sprite: Seq<u8>,
    nrows: int,
) -> (Seq<bool>, bool)
    decreases nrows,
{
    if nrows <= 0 {
        (s, false)
    } else {
        let prev = draw_sprite_spec(s, w, h, x, y, sprite, nrows - 1);
        let row = draw_row_spec(prev.0, w, h, x, y + (nrows - 1), sprite[nrows - 1], 8);
        (row.0, prev.1 || row.1)
    }
}

/// The decimal digit character for a value below 10.
pub open spec fn dec_digit(d: nat) -> char {
    if d == 0 {
        '0'
    } else if d == 1 {
        '1'
    } else if d == 2 {
        '2'
    } else if d == 3 {
        '3'
    } else if d == 4 {
        '4'
    } else if d == 5 {
        '5'
    } else if d == 6 {
        '6'
    } else if d == 7 {
        '7'
    } else if d == 8 {
        '8'
    } else {
        '9'
    }
}

/// The decimal digits of n, most significant first.
pub open spec fn dec_seq(n: nat) -> Seq<char>
    decreases n,
{
    if n < 10 {
        seq![dec_digit(n)]
    } else {
        dec_seq(n / 10).push(dec_digit(n % 10))
    }
}

/// The single decimal digit of a value below 10, as text.
fn dec_digit_str(d: usize) -> (r: &'static str)
    requires
        d < 10,
    ensures
        r@ == seq![dec_digit(d as nat)],
{
    proof {
        reveal_strlit("0");
        reveal_strlit("1");
        reveal_strlit("2");
        reveal_strlit("3");
        reveal_strlit("4");
        reveal_strlit("5");
        reveal_strlit("6");
        reveal_strlit("7");
        reveal_strlit("8");
        reveal_strlit("9");
    }
    let r: &'static str = match d {
        0 => "0",
        1 => "1",
        2 => "2",
        3 => "3",
        4 => "4",
        5 => "5",
        6 => "6",
        7 => "7",
        8 => "8",
        _ => "9",
    };
    proof {
        assert(r@ =~= seq![dec_digit(d as nat)]);
    }
    r
}

/// Append the decimal digits of n, most significant first.
fn append_decimal(s: &mut String, n: usize)
    ensures
        final(s)@ == old(s)@ + dec_seq(n as nat),
    decreases n,
{
    if n < 10 {
        let d = dec_digit_str(n);
        s.append(d);
        proof {
            assert(s@ =~= old(s)@ + dec_seq(n as nat));
        }
    } else {
        append_decimal(s, n / 10);
        let d = dec_digit_str(n % 10);
        s.append(d);
        proof {
            assert(s@ =~= old(s)@ + dec_seq(n as nat));
        }
    }
}

/// A row-major index y * w + x stays inside a w-by-h grid.
proof fn lemma_grid_index(w: int, h: int, x: int, y: int)
    requires
        0 <= x < w,
        0 <= y < h,
    ensures
        0 <= y * w + x < w * h,
{
    assert(0 <= y * w + x < w * h) by (nonlinear_arith)
        requires
            0 <= x < w && 0 <= y < h,
    ;
}

impl ScaledFramebuffer {
    /// The buffer is a logical w-by-h grid with its physical dimensions
    /// scaled 10x, small enough that every physical index fits in usize.
    pub open spec fn wf(self) -> bool {
        &&& 1 <= self.width <= 0x40_0000
        &&& 1 <= self.height <= 0x40_0000
        &&& self.width * self.height <= 0x40_0000
        &&& self.pixels@.len() == self.width * self.height
        &&& self.true_width == self.width * SCALE
        &&& self.true_height == self.height * SCALE
    }

    /// The logical pixel at in-range coordinates (x, y).
    pub open spec fn pixel(self, x: int, y: int) -> bool {
        self@[y * self.width + x]
    }

    /// Create a framebuffer from logical pixels, all unset. For a 64x32
    /// screen, pass 64 and 32 and it will draw on a 640x320 display.
    pub fn with_size(logical_width: usize, logical_height: usize) -> (r: Self)
        requires
            1 <= logical_width,
            1 <= logical_height,
            logical_width * logical_height <= 0x40_0000,
        ensures
            r.wf(),
            r.width == logical_width,
            r.height == logical_height,
            r@.len() == logical_width * logical_height,
            forall|i: int| 0 <= i < r@.len() ==> !r@[i],
    {
        proof {
            lemma_grid_index(logical_width as int, logical_height as int, 0, logical_height - 1);
            assert(logical_width <= logical_width * logical_height && logical_height
                <= logical_width * logical_height) by (nonlinear_arith)
                requires
                    1 <= logical_width && 1 <= logical_height,
            ;
        }
        let n = logical_width * logical_height;
        let mut pixels: Vec<bool> = Vec::new();
        while pixels.len() < n
            invariant
                pixels@.len() <= n,
                forall|i: int| 0 <= i < pixels@.len() ==> !pixels@[i],
            decreases n - pixels@.len(),
        {
            pixels.push(false);
        }
        let scaled_width = logical_width * SCALE;
        let scaled_height = logical_height * SCALE;
        ScaledFramebuffer {
            pixels,
            width: logical_width,
            height: logical_height,
            true_width: scaled_width,
            true_height: scaled_height,
        }
    }

    /// Initialize with the machine's 64x32 screen.
    pub fn new() -> (r: Self)
        ensures
            r.wf(),
            r.width == 64,
            r.height == 32,
            forall|i: int| 0 <= i < r@.len() ==> !r@[i],
    {
        Self::with_size(64, 32)
    }

    /// The physical scaled buffer derived from the logical grid: each
    /// logical pixel appears as a 10x10 block of equal physical pixels,
    /// row-major at the physical dimensions.
    pub open spec fn scaled_view(self) -> Seq<u32> {
        Seq::new(
            (self.true_width * self.true_height) as nat,
            |i: int|
                if self@[((i / self.true_width as int) / SCALE as int) * self.width as int + (i
                    % self.true_width as int) / SCALE as int] {
                    ON
                } else {
                    OFF
                },
        )
    }

    /// The physical scaled buffer, as the display driver consumes it.
    pub fn as_bytes(&self) -> (r: Vec<u32>)
        requires
            self.wf(),
        ensures
            r@ == self.scaled_view(),
    {
        let ghost w = self.width as int;
        let ghost h = self.height as int;
        let ghost tw = self.true_width as int;
        let ghost th = self.true_height as int;
        proof {
            assert(tw * th == w * h * 100) by (nonlinear_arith)
                requires
                    tw == w * 10 && th == h * 10,
            ;
            assert(w * h * 100 <= 0x40_0000 * 100) by (nonlinear_arith)
                requires
                    w * h <= 0x40_0000,
            ;
        }
        let mut buffer: Vec<u32> = Vec::new();
        let mut py: usize = 0;
        while py < self.true_height
            invariant
                self.wf(),
                w == self.width as int,
                h == self.height as int,
                tw == self.true_width as int,
                th == self.true_height as int,
                tw * th <= 0x40_0000 * 100,
                py <= self.true_height,
                buffer@.len() == py * tw,
                forall|i: int| 0 <= i < buffer@.len() ==> buffer@[i] == self.scaled_view()[i],
            decreases th - py,
        {
            proof {
                assert((py + 1) * tw == py * tw + tw) by (nonlinear_arith);
                assert(py * tw + tw <= tw * th) by (nonlinear_arith)
                    requires
                        py < th && 0 <= tw,
                ;
            }
            let mut px: usize = 0;
            while px < self.true_width
                invariant
                    self.wf(),
                    w == self.width as int,
                    h == self.height as int,
                    tw == self.true_width as int,
                    th == self.true_height as int,
                    tw * th <= 0x40_0000 * 100,
                    py < self.true_height,
                    px <= self.true_width,
                    py * tw + tw <= tw * th,
                    buffer@.len() == py * tw + px,
                    forall|i: int| 0 <= i < buffer@.len() ==> buffer@[i] == self.scaled_view()[i],
                decreases tw - px,
            {
                let lx = px / SCALE;
                let ly = py / SCALE;
                proof {
                    vstd::arithmetic::div_mod::lemma_fundamental_div_mod(px as int, SCALE as int);
                    vstd::arithmetic::div_mod::lemma_fundamental_div_mod(py as int, SCALE as int);
                    lemma_mod_bound(px as int, SCALE as int);
                    lemma_mod_bound(py as int, SCALE as int);
                    assert(lx < w && ly < h);
                    lemma_grid_index(w, h, lx as int, ly as int);
                    let n = py * tw + px;
                    lemma_fundamental_div_mod_converse(n as int, tw, py as int, px as int);
                    assert(n < tw * th);
                }
                let value = if self.pixels[ly * self.width + lx] {
                    ON
                } else {
                    OFF
                };
                buffer.push(value);
                px = px + 1;
            }
            py = py + 1;
        }
        proof {
            assert(th * tw == tw * th) by (nonlinear_arith);
            assert(buffer@ =~= self.scaled_view());
        }
        buffer
    }

    /// The value of the logical pixel at (x, y), as a physical pixel
    /// value: ON when set, OFF when unset.
    pub fn get_pixel(&self, x: usize, y: usize) -> (r: u32)
        requires
            self.wf(),
            x < self.width,
            y < self.height,
        ensures
            r == (if self.pixel(x as int, y as int) {
                ON
            } else {
                OFF
            }),
    {
        proof {
            lemma_grid_index(self.width as int, self.height as int, x as int, y as int);
        }
        if self.pixels[y * self.width + x] {
            ON
        } else {
            OFF
        }
    }

    /// Set the logical pixel at (x, y); the whole 10x10 physical block
    /// follows, since the physical buffer is computed from the logical
    /// grid. Only the two pixel values ON and OFF exist on a monochrome
    /// screen.
    pub fn set_pixel(&mut self, x: usize, y: usize, new_value: u32)
        requires
            old(self).wf(),
            x < old(self).width,
            y < old(self).height,
            new_value == ON || new_value == OFF,
        ensures
            final(self).wf(),
            final(self).width == old(self).width,
            final(self).height == old(self).height,
            final(self)@ == old(self)@.update(
                y as int * old(self).width as int + x as int,
                new_value == ON,
            ),
    {
        proof {
            lemma_grid_index(self.width as int, self.height as int, x as int, y as int);
        }
        let idx = y * self.width + x;
        self.pixels.set(idx, new_value == ON);
    }

    /// XOR the logical pixel at (x, y) with the incoming bit. A false bit
    /// does nothing; a true bit flips the pixel. Returns true iff a set
    /// pixel was flipped to unset.
    pub fn xor(&mut self, input_bit: bool, x: usize, y: usize) -> (r: bool)
        requires
            old(self).wf(),
            x < old(self).width,
            y < old(self).height,
        ensures
            final(self).wf(),
            final(self).width == old(self).width,
            final(self).height == old(self).height,
            final(self)@ == spec_xor(
                old(self)@,
                y as int * old(self).width as int + x as int,
                input_bit,
            ),
            r == (input_bit && old(self).pixel(x as int, y as int)),
    {
        if !input_bit {
            return false;
        }
        if self.get_pixel(x, y) == ON {
            self.set_pixel(x, y, OFF);
            true
        } else {
            self.set_pixel(x, y, ON);
            false
        }
    }

    /// One physical row of the screen as '1' (on) and '0' (off)
    /// characters.
    pub open spec fn row_text(self, py: int) -> Seq<char> {
        Seq::new(
            self.true_width as nat,
            |px: int|
                if self@[(py / SCALE as int) * self.width as int + px / SCALE as int] {
                    '1'
                } else {
                    '0'
                },
        )
    }

    /// One line of the pretty-printed screen: the decimal row index, a
    /// space, and the row's pixels.
    pub open spec fn line_text(self, py: int) -> Seq<char> {
        dec_seq(py as nat) + seq![' '] + self.row_text(py)
    }

    /// The first k lines of the pretty-printed screen, joined with
    /// newlines.
    pub open spec fn pretty_text(self, k: int) -> Seq<char>
        decreases k,
    {
        if k <= 0 {
            Seq::empty()
        } else if k == 1 {
            self.line_text(0)
        } else {
            self.pretty_text(k - 1) + seq!['\n'] + self.line_text(k - 1)
        }
    }

    /// Pretty-print a grid of 1 (on) and 0 (off) that represents the
    /// screen, one line per physical row prefixed with its row index; for
    /// debugging.
    pub fn pretty_print_physical(&self) -> (r: String)
        requires
            self.wf(),
        ensures
            r@ == self.pretty_text(self.true_height as int),
    {
        let ghost w = self.width as int;
        let ghost h = self.height as int;
        let ghost tw = self.true_width as int;
        let ghost th = self.true_height as int;
        let mut s = String::new();
        let mut py: usize = 0;
        while py < self.true_height
            invariant
                self.wf(),
                w == self.width as int,
                h == self.height as int,
                tw == self.true_width as int,
                th == self.true_height as int,
                py <= self.true_height,
                s@ == self.pretty_text(py as int),
            decreases th - py,
        {
            if py > 0 {
                proof {
                    reveal_strlit("\n");
                }
                s.append("\n");
                proof {
                    assert(s@ =~= self.pretty_text(py as int) + seq!['\n']);
                }
            }
            let ghost line_start = s@;
            append_decimal(&mut s, py);
            proof {
                reveal_strlit(" ");
            }
            s.append(" ");
            proof {
                assert(s@ =~= line_start + dec_seq(py as nat) + seq![' ']);
            }
            let ghost row_start = s@;
            let mut px: usize = 0;
            while px < self.true_width
                invariant
                    self.wf(),
                    w == self.width as int,
                    h == self.height as int,
                    tw == self.true_width as int,
                    th == self.true_height as int,
                    py < self.true_height,
                    px <= self.true_width,
                    row_start == line_start + dec_seq(py as nat) + seq![' '],
                    s@ == row_start + self.row_text(py as int).take(px as int),
                decreases tw - px,
            {
                let lx = px / SCALE;
                let ly = py / SCALE;
                proof {
                    vstd::arithmetic::div_mod::lemma_fundamental_div_mod(px as int, SCALE as int);
                    vstd::arithmetic::div_mod::lemma_fundamental_div_mod(py as int, SCALE as int);
                    lemma_mod_bound(px as int, SCALE as int);
                    lemma_mod_bound(py as int, SCALE as int);
                    assert(lx < w && ly < h);
                    lemma_grid_index(w, h, lx as int, ly as int);
                    reveal_strlit("1");
                    reveal_strlit("0");
                }
                let c: &str = if self.pixels[ly * self.width + lx] {
                    "1"
                } else {
                    "0"
                };
                s.append(c);
                proof {
                    assert(s@ =~= row_start + self.row_text(py as int).take(px as int + 1));
                }
                px = px + 1;
            }
            proof {
                assert(self.row_text(py as int).take(tw) =~= self.row_text(py as int));
                assert(s@ =~= self.pretty_text(py as int + 1));
            }
            py = py + 1;
        }
        s
    }

    /// Draw the sprite at logical position (x, y), wrapping modulo the
    /// logical dimensions. The sprite is a bit pattern, one byte per row,
    /// the most significant bit leftmost; every set bit XOR-flips its
    /// pixel. Returns true iff any set pixel was flipped to unset.
    pub fn draw_sprite_at(&mut self, x: usize, y: usize, sprite: &[u8]) -> (r: bool)
        requires
            old(self).wf(),
            sprite@.len() <= 0xFFF,
        ensures
            final(self).wf(),
            final(self).width == old(self).width,
            final(self).height == old(self).height,
            ({
                let drawn = draw_sprite_spec(
                    old(self)@,
                    old(self).width as int,
                    old(self).height as int,
                    x as int,
                    y as int,
                    sprite@,
                    sprite@.len() as int,
                );
                final(self)@ == drawn.0 && r == drawn.1
            }),
    {
        let ghost w = self.width as int;
        let ghost h = self.height as int;
        let mut changed_from_on_to_off = false;
        let base_x = x % self.width;
        let base_y = y % self.height;
        let mut y_offset: usize = 0;
        while y_offset < sprite.len()
            invariant
                self.wf(),
                self.width == old(self).width,
                self.height == old(self).height,
                w == self.width as int,
                h == self.height as int,
                base_x == x as int % w,
                base_y == y as int % h,
                sprite@.len() <= 0xFFF,
                y_offset <= sprite@.len(),
                ({
                    let prev = draw_sprite_spec(
                        old(self)@,
                        w,
                        h,
                        x as int,
                        y as int,
                        sprite@,
                        y_offset as int,
                    );
                    self@ == prev.0 && changed_from_on_to_off == prev.1
                }),
            decreases sprite@.len() - y_offset,
        {
            let row = sprite[y_offset];
            let cy = (base_y + y_offset) % self.height;
            proof {
                lemma_mod_bound(x as int, w);
                lemma_mod_bound(y as int, h);
                lemma_mod_twice(y as int, h);
                lemma_add_mod_noop(y as int % h, y_offset as int, h);
                lemma_add_mod_noop(y as int, y_offset as int, h);
                lemma_mod_twice(y_offset as int, h);
                assert(cy as int == (y as int + y_offset as int) % h);
            }
            let mut x_offset: usize = 0;
            while x_offset < 8
                invariant
                    self.wf(),
                    self.width == old(self).width,
                    self.height == old(self).height,
                    w == self.width as int,
                    h == self.height as int,
                    base_x == x as int % w,
                    base_y == y as int % h,
                    sprite@.len() <= 0xFFF,
                    y_offset < sprite@.len(),
                    row == sprite@[y_offset as int],
                    cy < self.height,
                    cy as int == (y as int + y_offset as int) % h,
                    x_offset <= 8,
                    ({
                        let prev = draw_sprite_spec(
                            old(self)@,
                            w,
                            h,
                            x as int,
                            y as int,
                            sprite@,
                            y_offset as int,
                        );
                        let part = draw_row_spec(
                            prev.0,
                            w,
                            h,
                            x as int,
                            y as int + y_offset as int,
                            row,
                            x_offset as int,
                        );
                        self@ == part.0 && changed_from_on_to_off == (prev.1 || part.1)
                    }),
                decreases 8 - x_offset,
            {
                let position: u8 = 7 - (x_offset as u8);
                let input_bit = (row >> position) & 1 == 1;
                let cx = (base_x + x_offset) % self.width;
                proof {
                    lemma_mod_bound((base_x + x_offset) as int, w);
                    lemma_mod_twice(x as int, w);
                    lemma_add_mod_noop(x as int % w, x_offset as int, w);
                    lemma_add_mod_noop(x as int, x_offset as int, w);
                    lemma_mod_twice(x_offset as int, w);
                    assert(cx as int == (x as int + x_offset as int) % w);
                    assert(input_bit == sprite_bit(row, x_offset as int));
                    assert(cell_index(w, h, x as int + x_offset as int, y as int + y_offset as int)
                        == cy as int * w + cx as int);
                }
                let result = self.xor(input_bit, cx, cy);
                changed_from_on_to_off = result || changed_from_on_to_off;
                x_offset = x_offset + 1;
            }
            y_offset = y_offset + 1;
        }
        changed_from_on_to_off
    }
}

/// Whether XOR-drawing the first `nbits` bits of sprite row `byte` at
/// (x, y) flips the cell with flat index `c` an odd number of times.
pub open spec fn flips_row(w: int, h: int, x: int, y: int, byte: u8, nbits: int, c: int) -> bool
    decreases nbits,
{
    if nbits <= 0 {
        false
    } else {
        let dx = nbits - 1;
        flips_row(w, h, x, y, byte, nbits - 1, c) != (sprite_bit(byte, dx) && cell_index(
            w,
            h,
            x + dx,
            y,
        ) == c)
    }
}

/// Whether XOR-drawing the first `nrows` rows of the sprite at (x, y)
/// flips the cell with flat index `c` an odd number of times.
pub open spec fn flips_sprite(
    w: int,
    h: int,
    x: int,
    y: int,
    sprite: Seq<u8>,
    nrows: int,
    c: int,
) -> bool
    decreases nrows,
{
    if nrows <= 0 {
        false
    } else {
        flips_sprite(w, h, x, y, sprite, nrows - 1, c) != flips_row(
            w,
            h,
            x,
            y + (nrows - 1),
            sprite[nrows - 1],
            8,
            c,
        )
    }
}

/// Sprite bit (dx, dy) is set and lands on a set pixel of screen `s`.
pub open spec fn overlap_at(
    s: Seq<bool>,
    w: int,
    h: int,
    x: int,
    y: int,
    sprite: Seq<u8>,
    dx: int,
    dy: int,
) -> bool {
    sprite_bit(sprite[dy], dx) && s[cell_index(w, h, x + dx, y + dy)]
}

/// Sprite bit (dx, dy) is set and lands on an unset pixel of screen `s`,
/// so drawing the sprite on `s` turns that pixel on.
pub open spec fn turns_on_at(
    s: Seq<bool>,
    w: int,
    h: int,
    x: int,
    y: int,
    sprite: Seq<u8>,
    dx: int,
    dy: int,
) -> bool {
    sprite_bit(sprite[dy], dx) && !s[cell_index(w, h, x + dx, y + dy)]
}

/// Where (base + d) % m lands for an offset d smaller than m.
proof fn lemma_mod_window(base: int, d: int, m: int)
    requires
        0 <= base,
        0 <= d < m,
    ensures
        (base + d) % m == (if base % m + d < m {
            base % m + d
        } else {
            base % m + d - m
        }),
{
    lemma_mod_bound(base, m);
    lemma_mod_twice(base, m);
    lemma_add_mod_noop(base, d, m);
    lemma_small_mod(d as nat, m as nat);
    if base % m + d < m {
        lemma_small_mod((base % m + d) as nat, m as nat);
    } else {
        lemma_mod_sub_multiples_vanish(base % m + d, m);
        lemma_small_mod((base % m + d - m) as nat, m as nat);
    }
}

/// Two different offsets smaller than the modulus land on different
/// wrapped positions.
proof fn lemma_offset_distinct(base: int, d1: int, d2: int, m: int)
    requires
        0 <= base,
        0 <= d1 < m,
        0 <= d2 < m,
        d1 != d2,
    ensures
        (base + d1) % m != (base + d2) % m,
{
    lemma_mod_window(base, d1, m);
    lemma_mod_window(base, d2, m);
    lemma_mod_bound(base, m);
}

/// Pointwise effect of one sprite row on the screen: each cell is flipped
/// iff an odd number of the row's set bits land on it.
proof fn lemma_row_screen(s: Seq<bool>, w: int, h: int, x: int, y: int, byte: u8, nbits: int)
    requires
        0 < w,
        0 < h,
        s.len() == w * h,
        0 <= x,
        0 <= y,
        0 <= nbits,
    ensures
        ({
            let r = draw_row_spec(s, w, h, x, y, byte, nbits);
            &&& r.0.len() == s.len()
            &&& forall|c: int|
                0 <= c < s.len() ==> r.0[c] == (if flips_row(w, h, x, y, byte, nbits, c) {
                    !s[c]
                } else {
                    s[c]
                })
        }),
    decreases nbits,
{
    if nbits > 0 {
        lemma_row_screen(s, w, h, x, y, byte, nbits - 1);
        let dx = nbits - 1;
        lemma_mod_bound(x + dx, w);
        lemma_mod_bound(y, h);
        lemma_grid_index(w, h, (x + dx) % w, y % h);
    }
}

/// A cell flipped by a row is the landing cell of one of the row's set
/// bits.
proof fn lemma_flips_row_covered(w: int, h: int, x: int, y: int, byte: u8, nbits: int, c: int)
    requires
        flips_row(w, h, x, y, byte, nbits, c),
    ensures
        exists|dx: int|
            0 <= dx < nbits && #[trigger] sprite_bit(byte, dx) && c == cell_index(w, h, x + dx, y),
    decreases nbits,
{
    if nbits > 0 {
        let dx0 = nbits - 1;
        if sprite_bit(byte, dx0) && cell_index(w, h, x + dx0, y) == c && !flips_row(
            w,
            h,
            x,
            y,
            byte,
            nbits - 1,
            c,
        ) {
            assert(0 <= dx0 < nbits && sprite_bit(byte, dx0) && c == cell_index(w, h, x + dx0, y));
        } else {
            lemma_flips_row_covered(w, h, x, y, byte, nbits - 1, c);
            let dx = choose|dx: int|
                0 <= dx < nbits - 1 && #[trigger] sprite_bit(byte, dx) && c == cell_index(
                    w,
                    h,
                    x + dx,
                    y,
                );
            assert(0 <= dx < nbits && sprite_bit(byte, dx) && c == cell_index(w, h, x + dx, y));
        }
    }
}

/// A cell flipped by a row lies in that row of the grid.
proof fn lemma_flips_row_row(w: int, h: int, x: int, y: int, byte: u8, nbits: int, c: int)
    requires
        0 < w,
        0 < h,
        0 <= x,
        0 <= y,
        flips_row(w, h, x, y, byte, nbits, c),
    ensures
        c / w == y % h,
{
    lemma_flips_row_covered(w, h, x, y, byte, nbits, c);
    let dx = choose|dx: int|
        0 <= dx < nbits && #[trigger] sprite_bit(byte, dx) && c == cell_index(w, h, x + dx, y);
    lemma_mod_bound(x + dx, w);
    lemma_mod_bound(y, h);
    lemma_fundamental_div_mod_converse(c, w, y % h, (x + dx) % w);
}

/// With the row width at most the screen width, no two bits of one row
/// land on the same cell, so each cell a set bit lands on is flipped
/// exactly by that bit.
proof fn lemma_flips_row_value(w: int, h: int, x: int, y: int, byte: u8, nbits: int, dx: int)
    requires
        8 <= w,
        0 < h,
        0 <= x,
        0 <= y,
        0 <= dx < nbits <= 8,
    ensures
        flips_row(w, h, x, y, byte, nbits, cell_index(w, h, x + dx, y)) == sprite_bit(byte, dx),
    decreases nbits,
{
    let c = cell_index(w, h, x + dx, y);
    let dx0 = nbits - 1;
    if dx0 == dx {
        if flips_row(w, h, x, y, byte, nbits - 1, c) {
            lemma_flips_row_covered(w, h, x, y, byte, nbits - 1, c);
            let other = choose|other: int|
                0 <= other < nbits - 1 && #[trigger] sprite_bit(byte, other) && c == cell_index(
                    w,
                    h,
                    x + other,
                    y,
                );
            lemma_offset_distinct(x, other, dx, w);
            assert(false);
        }
    } else {
        lemma_flips_row_value(w, h, x, y, byte, nbits - 1, dx);
        lemma_offset_distinct(x, dx0, dx, w);
    }
}

/// Pointwise effect of the whole sprite on the screen: each cell is
/// flipped iff an odd number of the sprite's set bits land on it.
proof fn lemma_sprite_screen(
    s: Seq<bool>,
    w: int,
    h: int,
    x: int,
    y: int,
    sprite: Seq<u8>,
    nrows: int,
)
    requires
        0 < w,
        0 < h,
        s.len() == w * h,
        0 <= x,
        0 <= y,
        0 <= nrows,
    ensures
        ({
            let r = draw_sprite_spec(s, w, h, x, y, sprite, nrows);
            &&& r.0.len() == s.len()
            &&& forall|c: int|
                0 <= c < s.len() ==> r.0[c] == (if flips_sprite(w, h, x, y, sprite, nrows, c) {
                    !s[c]
                } else {
                    s[c]
                })
        }),
    decreases nrows,
{
    if nrows > 0 {
        lemma_sprite_screen(s, w, h, x, y, sprite, nrows - 1);
        let prev = draw_sprite_spec(s, w, h, x, y, sprite, nrows - 1);
        lemma_row_screen(prev.0, w, h, x, y + (nrows - 1), sprite[nrows - 1], 8);
    }
}

/// A cell flipped by the sprite is flipped by one of its rows.
proof fn lemma_flips_sprite_covered(
    w: int,
    h: int,
    x: int,
    y: int,
    sprite: Seq<u8>,
    nrows: int,
    c: int,
)
    requires
        flips_sprite(w, h, x, y, sprite, nrows, c),
    ensures
        exists|dy: int|
            0 <= dy < nrows && #[trigger] flips_row(w, h, x, y + dy, sprite[dy], 8, c),
    decreases nrows,
{
    if nrows > 0 {
        let dy0 = nrows - 1;
        if flips_row(w, h, x, y + dy0, sprite[dy0], 8, c) && !flips_sprite(
            w,
            h,
            x,
            y,
            sprite,
            nrows - 1,
            c,
        ) {
            assert(0 <= dy0 < nrows && flips_row(w, h, x, y + dy0, sprite[dy0], 8, c));
        } else {
            lemma_flips_sprite_covered(w, h, x, y, sprite, nrows - 1, c);
            let dy = choose|dy: int|
                0 <= dy < nrows - 1 && #[trigger] flips_row(w, h, x, y + dy, sprite[dy], 8, c);
            assert(0 <= dy < nrows && flips_row(w, h, x, y + dy, sprite[dy], 8, c));
        }
    }
}

/// With the sprite fitting the screen height, no two rows land on the
/// same grid row, so the cell a set bit lands on is flipped exactly by
/// that bit.
proof fn lemma_flips_sprite_value(
    w: int,
    h: int,
    x: int,
    y: int,
    sprite: Seq<u8>,
    nrows: int,
    dx: int,
    dy: int,
)
    requires
        8 <= w,
        0 < h,
        0 <= x,
        0 <= y,
        0 <= dx < 8,
        0 <= dy < nrows <= h,
    ensures
        flips_sprite(w, h, x, y, sprite, nrows, cell_index(w, h, x + dx, y + dy)) == sprite_bit(
            sprite[dy],
            dx,
        ),
    decreases nrows,
{
    let c = cell_index(w, h, x + dx, y + dy);
    lemma_mod_bound(x + dx, w);
    lemma_mod_bound(y + dy, h);
    lemma_fundamental_div_mod_converse(c, w, (y + dy) % h, (x + dx) % w);
    let dy0 = nrows - 1;
    if dy0 == dy {
        lemma_flips_row_value(w, h, x, y + dy, sprite[dy], 8, dx);
        if flips_sprite(w, h, x, y, sprite, nrows - 1, c) {
            lemma_flips_sprite_covered(w, h, x, y, sprite, nrows - 1, c);
            let other = choose|other: int|
                0 <= other < nrows - 1 && #[trigger] flips_row(w, h, x, y + other, sprite[other], 8, c);
            lemma_flips_row_row(w, h, x, y + other, sprite[other], 8, c);
            lemma_offset_distinct(y, other, dy, h);
            assert(false);
        }
    } else {
        lemma_flips_sprite_value(w, h, x, y, sprite, nrows - 1, dx, dy);
        if flips_row(w, h, x, y + dy0, sprite[dy0], 8, c) {
            lemma_flips_row_row(w, h, x, y + dy0, sprite[dy0], 8, c);
            lemma_offset_distinct(y, dy0, dy, h);
            assert(false);
        }
    }
}

/// The collision flag of one row is the OR over its set bits landing on
/// set pixels, provided the row cannot overlap itself (row width at most
/// the screen width).
proof fn lemma_row_flag(s: Seq<bool>, w: int, h: int, x: int, y: int, byte: u8, nbits: int)
    requires
        8 <= w,
        0 < h,
        s.len() == w * h,
        0 <= x,
        0 <= y,
        0 <= nbits <= 8,
    ensures
        ({
            let r = draw_row_spec(s, w, h, x, y, byte, nbits);
            r.1 == exists|dx: int|
                0 <= dx < nbits && #[trigger] sprite_bit(byte, dx) && s[cell_index(w, h, x + dx, y)]
        }),
    decreases nbits,
{
    if nbits > 0 {
        lemma_row_flag(s, w, h, x, y, byte, nbits - 1);
        lemma_row_screen(s, w, h, x, y, byte, nbits - 1);
        let prev = draw_row_spec(s, w, h, x, y, byte, nbits - 1);
        let r = draw_row_spec(s, w, h, x, y, byte, nbits);
        let dx0 = nbits - 1;
        let idx0 = cell_index(w, h, x + dx0, y);
        lemma_mod_bound(x + dx0, w);
        lemma_mod_bound(y, h);
        lemma_grid_index(w, h, (x + dx0) % w, y % h);
        if flips_row(w, h, x, y, byte, nbits - 1, idx0) {
            lemma_flips_row_covered(w, h, x, y, byte, nbits - 1, idx0);
            let other = choose|other: int|
                0 <= other < nbits - 1 && #[trigger] sprite_bit(byte, other) && idx0 == cell_index(
                    w,
                    h,
                    x + other,
                    y,
                );
            lemma_offset_distinct(x, other, dx0, w);
            assert(false);
        }
        assert(prev.0[idx0] == s[idx0]);
        if r.1 {
            if prev.1 {
                let dx = choose|dx: int|
                    0 <= dx < nbits - 1 && #[trigger] sprite_bit(byte, dx) && s[cell_index(
                        w,
                        h,
                        x + dx,
                        y,
                    )];
                assert(0 <= dx < nbits && sprite_bit(byte, dx) && s[cell_index(w, h, x + dx, y)]);
            } else {
                assert(sprite_bit(byte, dx0) && s[idx0]);
            }
        }
        if exists|dx: int|
            0 <= dx < nbits && #[trigger] sprite_bit(byte, dx) && s[cell_index(w, h, x + dx, y)] {
            let dx = choose|dx: int|
                0 <= dx < nbits && #[trigger] sprite_bit(byte, dx) && s[cell_index(w, h, x + dx, y)];
            if dx < nbits - 1 {
                assert(prev.1);
            } else {
                assert(r.1);
            }
        }
    }
}

/// The collision flag of the whole sprite is the OR over all its set bits
/// landing on set pixels of the original screen, provided the sprite
/// cannot overlap itself on the wrapped grid.
proof fn lemma_sprite_flag(
    s: Seq<bool>,
    w: int,
    h: int,
    x: int,
    y: int,
    sprite: Seq<u8>,
    nrows: int,
)
    requires
        8 <= w,
        0 < h,
        s.len() == w * h,
        0 <= x,
        0 <= y,
        0 <= nrows <= h,
        nrows <= sprite.len(),
    ensures
        ({
            let r = draw_sprite_spec(s, w, h, x, y, sprite, nrows);
            r.1 == exists|dx: int, dy: int|
                0 <= dx < 8 && 0 <= dy < nrows && #[trigger] overlap_at(s, w, h, x, y, sprite, dx, dy)
        }),
    decreases nrows,
{
    if nrows > 0 {
        lemma_sprite_flag(s, w, h, x, y, sprite, nrows - 1);
        lemma_sprite_screen(s, w, h, x, y, sprite, nrows - 1);
        let prev = draw_sprite_spec(s, w, h, x, y, sprite, nrows - 1);
        let r = draw_sprite_spec(s, w, h, x, y, sprite, nrows);
        let dy0 = nrows - 1;
        lemma_row_flag(prev.0, w, h, x, y + dy0, sprite[dy0], 8);
        let row = draw_row_spec(prev.0, w, h, x, y + dy0, sprite[dy0], 8);
        assert forall|dx: int| 0 <= dx < 8 implies prev.0[#[trigger] cell_index(w, h, x + dx, y + dy0)]
            == s[cell_index(w, h, x + dx, y + dy0)] by {
            let c = cell_index(w, h, x + dx, y + dy0);
            lemma_mod_bound(x + dx, w);
            lemma_mod_bound(y + dy0, h);
            lemma_grid_index(w, h, (x + dx) % w, (y + dy0) % h);
            lemma_fundamental_div_mod_converse(c, w, (y + dy0) % h, (x + dx) % w);
            if flips_sprite(w, h, x, y, sprite, nrows - 1, c) {
                lemma_flips_sprite_covered(w, h, x, y, sprite, nrows - 1, c);
                let other = choose|other: int|
                    0 <= other < nrows - 1 && #[trigger] flips_row(
                        w,
                        h,
                        x,
                        y + other,
                        sprite[other],
                        8,
                        c,
                    );
                lemma_flips_row_row(w, h, x, y + other, sprite[other], 8, c);
                lemma_offset_distinct(y, other, dy0, h);
                assert(false);
            }
        }
        if r.1 {
            if prev.1 {
                let (dx, dy) = choose|dx: int, dy: int|
                    0 <= dx < 8 && 0 <= dy < nrows - 1 && #[trigger] overlap_at(
                        s,
                        w,
                        h,
                        x,
                        y,
                        sprite,
                        dx,
                        dy,
                    );
                assert(0 <= dx < 8 && 0 <= dy < nrows && overlap_at(s, w, h, x, y, sprite, dx, dy));
            } else {
                let dx = choose|dx: int|
                    0 <= dx < 8 && #[trigger] sprite_bit(sprite[dy0], dx) && prev.0[cell_index(
                        w,
                        h,
                        x + dx,
                        y + dy0,
                    )];
                assert(overlap_at(s, w, h, x, y, sprite, dx, dy0));
                assert(0 <= dx < 8 && 0 <= dy0 < nrows && overlap_at(s, w, h, x, y, sprite, dx, dy0));
            }
        }
        if exists|dx: int, dy: int|
            0 <= dx < 8 && 0 <= dy < nrows && #[trigger] overlap_at(s, w, h, x, y, sprite, dx, dy) {
            let (dx, dy) = choose|dx: int, dy: int|
                0 <= dx < 8 && 0 <= dy < nrows && #[trigger] overlap_at(s, w, h, x, y, sprite, dx, dy);
            if dy < nrows - 1 {
                assert(prev.1);
            } else {
                assert(sprite_bit(sprite[dy0], dx) && prev.0[cell_index(w, h, x + dx, y + dy0)]);
                assert(row.1);
            }
        }
    }
}

/// Collision flag aggregation: the flag a draw returns is the OR of every
/// "set bit lands on a set pixel" overlap, not merely the last one. Stated
/// for sprites that cannot overlap themselves on the wrapped grid: the
/// 8-pixel row width at most the screen width and the row count at most
/// the screen height, which the machine's 64x32 screen always satisfies.
pub proof fn lemma_draw_collision_flag(
    s: Seq<bool>,
    w: int,
    h: int,
    x: int,
    y: int,
    sprite: Seq<u8>,
)
    requires
        8 <= w,
        0 < h,
        s.len() == w * h,
        sprite.len() <= h,
        0 <= x,
        0 <= y,
    ensures
        ({
            let r = draw_sprite_spec(s, w, h, x, y, sprite, sprite.len() as int);
            r.1 == exists|dx: int, dy: int|
                0 <= dx < 8 && 0 <= dy < sprite.len() && #[trigger] overlap_at(
                    s,
                    w,
                    h,
                    x,
                    y,
                    sprite,
                    dx,
                    dy,
                )
        }),
{
    lemma_sprite_flag(s, w, h, x, y, sprite, sprite.len() as int);
}

/// Draw idempotence under double-XOR: drawing the identical sprite twice
/// at the same location returns the screen to its pre-draw state, and the
/// second draw's collision flag is set exactly when the first draw turned
/// some pixel on. Stated for sprites that cannot overlap themselves on
/// the wrapped grid, as for the collision flag law.
pub proof fn lemma_draw_twice(s: Seq<bool>, w: int, h: int, x: int, y: int, sprite: Seq<u8>)
    requires
        8 <= w,
        0 < h,
        s.len() == w * h,
        sprite.len() <= h,
        0 <= x,
        0 <= y,
    ensures
        ({
            let first = draw_sprite_spec(s, w, h, x, y, sprite, sprite.len() as int);
            let second = draw_sprite_spec(first.0, w, h, x, y, sprite, sprite.len() as int);
            &&& second.0 == s
            &&& second.1 == exists|dx: int, dy: int|
                0 <= dx < 8 && 0 <= dy < sprite.len() && #[trigger] turns_on_at(
                    s,
                    w,
                    h,
                    x,
                    y,
                    sprite,
                    dx,
                    dy,
                )
        }),
{
    let n = sprite.len() as int;
    let first = draw_sprite_spec(s, w, h, x, y, sprite, n);
    let second = draw_sprite_spec(first.0, w, h, x, y, sprite, n);
    lemma_sprite_screen(s, w, h, x, y, sprite, n);
    lemma_sprite_screen(first.0, w, h, x, y, sprite, n);
    assert(second.0 =~= s);
    lemma_sprite_flag(first.0, w, h, x, y, sprite, n);
    assert forall|dx: int, dy: int| 0 <= dx < 8 && 0 <= dy < n implies (#[trigger] overlap_at(
        first.0,
        w,
        h,
        x,
        y,
        sprite,
        dx,
        dy,
    ) == turns_on_at(s, w, h, x, y, sprite, dx, dy)) by {
        let c = cell_index(w, h, x + dx, y + dy);
        lemma_mod_bound(x + dx, w);
        lemma_mod_bound(y + dy, h);
        lemma_grid_index(w, h, (x + dx) % w, (y + dy) % h);
        lemma_fundamental_div_mod_converse(c, w, (y + dy) % h, (x + dx) % w);
        if sprite_bit(sprite[dy], dx) {
            lemma_flips_sprite_value(w, h, x, y, sprite, n, dx, dy);
            assert(first.0[c] == !s[c]);
        }
    }
    if second.1 {
        let (dx, dy) = choose|dx: int, dy: int|
            0 <= dx < 8 && 0 <= dy < n && #[trigger] overlap_at(first.0, w, h, x, y, sprite, dx, dy);
        assert(turns_on_at(s, w, h, x, y, sprite, dx, dy));
        assert(0 <= dx < 8 && 0 <= dy < sprite.len() && turns_on_at(s, w, h, x, y, sprite, dx, dy));
    }
    if exists|dx: int, dy: int|
        0 <= dx < 8 && 0 <= dy < sprite.len() && #[trigger] turns_on_at(s, w, h, x, y, sprite, dx, dy) {
        let (dx, dy) = choose|dx: int, dy: int|
            0 <= dx < 8 && 0 <= dy < sprite.len() && #[trigger] turns_on_at(
                s,
                w,
                h,
                x,
                y,
                sprite,
                dx,
                dy,
            );
        assert(overlap_at(first.0, w, h, x, y, sprite, dx, dy));
        assert(second.1);
    }
}

} // verus!
